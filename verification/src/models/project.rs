use vstd::prelude::*;
use crate::models::display::opt_text;

verus! {

/// One conversation: a session file in a project directory.
#[derive(Debug, PartialEq, Eq)]
pub struct Session {
    /// The file's name without its extension.
    pub id: String,
    pub name: Option<String>,
    /// When the file was last changed, as `YYYY-MM-DDTHH:MM:SS.sssZ`.
    pub timestamp: String,
    pub message_count: u32,
    pub file_path: String,
}

/// One conversation, as contracts speak of it.
pub struct SessionView {
    pub id: Seq<char>,
    pub name: Option<Seq<char>>,
    pub timestamp: Seq<char>,
    pub message_count: u32,
    pub file_path: Seq<char>,
}

impl View for Session {
    type V = SessionView;

    open spec fn view(&self) -> SessionView {
        SessionView {
            id: self.id@,
            name: opt_text(self.name),
            timestamp: self.timestamp@,
            message_count: self.message_count,
            file_path: self.file_path@,
        }
    }
}

impl Clone for Session {
    fn clone(&self) -> (r: Self)
        ensures
            r@ == self@,
    {
        Session {
            id: self.id.clone(),
            name: match &self.name {
                Some(name) => Some(name.clone()),
                None => None,
            },
            timestamp: self.timestamp.clone(),
            message_count: self.message_count,
            file_path: self.file_path.clone(),
        }
    }
}

/// The views of a list of sessions, in order.
pub open spec fn sessions_view(sessions: Seq<Session>) -> Seq<SessionView> {
    Seq::new(sessions.len(), |i: int| sessions[i]@)
}

/// A project: a directory of session files.
#[derive(Debug, PartialEq, Eq)]
pub struct Project {
    /// The directory's name, which stands for the project's path.
    pub name: String,
    /// The path that the name stands for.
    pub path: String,
    /// The sessions, the one changed last first.
    pub sessions: Vec<Session>,
}

/// A project, as contracts speak of it.
pub struct ProjectView {
    pub name: Seq<char>,
    pub path: Seq<char>,
    pub sessions: Seq<SessionView>,
}

impl View for Project {
    type V = ProjectView;

    open spec fn view(&self) -> ProjectView {
        ProjectView { name: self.name@, path: self.path@, sessions: sessions_view(self.sessions@) }
    }
}

impl Clone for Project {
    fn clone(&self) -> (r: Self)
        ensures
            r@ == self@,
    {
        let mut sessions: Vec<Session> = Vec::new();
        let mut i: usize = 0;
        while i < self.sessions.len()
            invariant
                i <= self.sessions@.len(),
                sessions@.len() == i,
                forall|k: int| 0 <= k < i ==> (#[trigger] sessions@[k])@ == self.sessions@[k]@,
            decreases self.sessions@.len() - i,
        {
            sessions.push(self.sessions[i].clone());
            i = i + 1;
        }
        proof {
            assert(sessions_view(sessions@) =~= sessions_view(self.sessions@));
        }
        Project { name: self.name.clone(), path: self.path.clone(), sessions }
    }
}

/// The views of a list of projects, in order.
pub open spec fn projects_view(projects: Seq<Project>) -> Seq<ProjectView> {
    Seq::new(projects.len(), |i: int| projects[i]@)
}

/// A copy of a list of projects.
pub fn clone_projects(projects: &Vec<Project>) -> (r: Vec<Project>)
    ensures
        projects_view(r@) == projects_view(projects@),
{
    let mut copy: Vec<Project> = Vec::new();
    let mut i: usize = 0;
    while i < projects.len()
        invariant
            i <= projects@.len(),
            copy@.len() == i,
            forall|k: int| 0 <= k < i ==> (#[trigger] copy@[k])@ == projects@[k]@,
        decreases projects@.len() - i,
    {
        copy.push(projects[i].clone());
        i = i + 1;
    }
    proof {
        assert(projects_view(copy@) =~= projects_view(projects@));
    }
    copy
}

} // verus!
