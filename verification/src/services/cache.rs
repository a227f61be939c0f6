use vstd::prelude::*;
use crate::models::display::{
    messages_view, DisplayMessage, TransformedSession, TransformedSessionView,
};
use crate::models::project::{clone_projects, projects_view, Project, ProjectView};
use crate::services::file_guard::{backups_view, TempBackupEntry};
use crate::text::{same_text, texts_view};

verus! {

/// For how many seconds a list of projects stays valid.
pub const PROJECT_CACHE_TTL_SECS: u64 = 30;

/// How many sessions the cache holds at most.
pub const SESSION_CACHE_MAX_ENTRIES: usize = 20;

/// When a file was last changed: a time before or after the start of 1970.
#[derive(Clone, Copy, Debug, PartialEq, Eq, Structural)]
pub struct Mtime {
    pub before_epoch: bool,
    pub secs: u64,
    pub nanos: u32,
}

/// The milliseconds from `since` to `now`, both on one clock that never
/// runs backwards. A `now` before `since` counts as no time.
pub open spec fn elapsed_millis(since: u64, now: u64) -> int {
    if now >= since {
        now - since
    } else {
        0
    }
}

/// The list of projects as it was scanned last, and when.
pub struct ProjectCacheEntry {
    pub data: Vec<Project>,
    /// In milliseconds.
    pub cached_at: u64,
}

/// The one slot for the list of projects. What it holds is valid for
/// `PROJECT_CACHE_TTL_SECS` seconds, and stale as soon as more time has
/// passed.
pub struct ProjectCache {
    pub entry: Option<ProjectCacheEntry>,
}

impl ProjectCache {
    /// The list that the slot hands out at the time `now`.
    pub open spec fn valid_at(&self, now: u64) -> Option<Seq<ProjectView>> {
        match self.entry {
            Some(e) => if elapsed_millis(e.cached_at, now) <= PROJECT_CACHE_TTL_SECS * 1000 {
                Some(projects_view(e.data@))
            } else {
                None
            },
            None => None,
        }
    }

    /// A slot that holds nothing.
    pub fn new() -> (r: ProjectCache)
        ensures
            r.entry is None,
    {
        ProjectCache { entry: None }
    }

    /// The list of projects, if one is held and still valid at `now`.
    pub fn get(&self, now: u64) -> (r: Option<Vec<Project>>)
        ensures
            match r {
                Some(projects) => self.valid_at(now) == Some(projects_view(projects@)),
                None => self.valid_at(now) is None,
            },
    {
        match &self.entry {
            Some(e) => {
                let elapsed: u64 = if now >= e.cached_at {
                    now - e.cached_at
                } else {
                    0
                };
                if elapsed <= PROJECT_CACHE_TTL_SECS * 1000 {
                    Some(clone_projects(&e.data))
                } else {
                    None
                }
            },
            None => None,
        }
    }

    /// Holds `projects` from `now` on.
    pub fn set(&mut self, projects: Vec<Project>, now: u64)
        ensures
            final(self).entry == Some(ProjectCacheEntry { data: projects, cached_at: now }),
    {
        self.entry = Some(ProjectCacheEntry { data: projects, cached_at: now });
    }

    /// Holds nothing any more.
    pub fn invalidate(&mut self)
        ensures
            final(self).entry is None,
    {
        self.entry = None;
    }
}

/// One session in the cache: what is shown of it, the two texts of each of
/// its units, when its file was last changed, and when the entry was last
/// put or read. Both lists of texts run along the units.
pub struct SessionCacheEntry {
    transformed: TransformedSession,
    search_texts: Vec<String>,
    original_texts: Vec<String>,
    file_mtime: Mtime,
    last_accessed: u64,
}

/// One session in the cache, as contracts speak of it.
pub struct SessionCacheEntryView {
    pub session: TransformedSessionView,
    /// The text of each unit in lower case.
    pub lowercase_texts: Seq<Seq<char>>,
    /// The text of each unit as it was written.
    pub original_texts: Seq<Seq<char>>,
    /// When the file was last changed, as it was read when the entry was made.
    pub file_mtime: Mtime,
    /// When the entry was last put or read, in milliseconds.
    pub last_accessed: u64,
}

impl View for SessionCacheEntry {
    type V = SessionCacheEntryView;

    closed spec fn view(&self) -> SessionCacheEntryView {
        SessionCacheEntryView {
            session: self.transformed@,
            lowercase_texts: texts_view(self.search_texts@),
            original_texts: texts_view(self.original_texts@),
            file_mtime: self.file_mtime,
            last_accessed: self.last_accessed,
        }
    }
}

impl SessionCacheEntryView {
    /// Both lists of texts run along the units.
    pub open spec fn well_formed(self) -> bool {
        &&& self.lowercase_texts.len() == self.session.display_messages.len()
        &&& self.original_texts.len() == self.session.display_messages.len()
    }
}

impl SessionCacheEntry {
    #[verifier::type_invariant]
    spec fn texts_run_along_units(&self) -> bool {
        &&& self.search_texts@.len() == self.transformed.display_messages@.len()
        &&& self.original_texts@.len() == self.transformed.display_messages@.len()
    }

    /// An entry for a session, with one text of each kind for each unit.
    pub fn new(
        transformed: TransformedSession,
        search_texts: Vec<String>,
        original_texts: Vec<String>,
        file_mtime: Mtime,
        last_accessed: u64,
    ) -> (r: SessionCacheEntry)
        requires
            search_texts@.len() == transformed.display_messages@.len(),
            original_texts@.len() == transformed.display_messages@.len(),
        ensures
            r@ == (SessionCacheEntryView {
                session: transformed@,
                lowercase_texts: texts_view(search_texts@),
                original_texts: texts_view(original_texts@),
                file_mtime,
                last_accessed,
            }),
    {
        SessionCacheEntry { transformed, search_texts, original_texts, file_mtime, last_accessed }
    }

    /// The units of the session.
    pub fn units(&self) -> (r: &Vec<DisplayMessage>)
        ensures
            messages_view(r@) == self@.session.display_messages,
            self@.well_formed(),
    {
        proof {
            use_type_invariant(self);
        }
        &self.transformed.display_messages
    }

    /// The text of each unit in lower case.
    pub fn lowercase_texts(&self) -> (r: &Vec<String>)
        ensures
            texts_view(r@) == self@.lowercase_texts,
    {
        &self.search_texts
    }

    /// The text of each unit as it was written.
    pub fn original_texts(&self) -> (r: &Vec<String>)
        ensures
            texts_view(r@) == self@.original_texts,
    {
        &self.original_texts
    }
}

/// What the cache holds, as a list of paths with their entries, in the order
/// in which the paths came into the cache.
pub type CacheView = Seq<(Seq<char>, SessionCacheEntryView)>;

/// `key` stands at place `i`.
pub open spec fn held_at(cache: CacheView, key: Seq<char>, i: int) -> bool {
    0 <= i < cache.len() && cache[i].0 == key
}

/// The cache holds an entry for `key`.
pub open spec fn holds(cache: CacheView, key: Seq<char>) -> bool {
    exists|i: int| held_at(cache, key, i)
}

/// The place of `key` in a cache that holds it.
pub open spec fn place_of(cache: CacheView, key: Seq<char>) -> int {
    choose|i: int| held_at(cache, key, i)
}

/// No path stands twice.
pub open spec fn distinct_paths(cache: CacheView) -> bool {
    forall|i: int, j: int| 0 <= i < j < cache.len() ==> (#[trigger] cache[i]).0 != (
    #[trigger] cache[j]).0
}

/// The place of the entry that was put or read longest ago; of several such
/// entries, the one that stands first.
pub open spec fn oldest(cache: CacheView) -> int
    decreases cache.len(),
{
    if cache.len() <= 1 {
        0
    } else {
        let before = oldest(cache.drop_last());
        if cache.last().1.last_accessed < cache[before].1.last_accessed {
            cache.len() - 1
        } else {
            before
        }
    }
}

/// The entry with a new time of the last access.
pub open spec fn touched(e: SessionCacheEntryView, now: u64) -> SessionCacheEntryView {
    SessionCacheEntryView { last_accessed: now, ..e }
}

/// What a read of `key` hands out: the session, if the cache holds it and
/// the file was last changed at the time that the entry has. `current` is
/// that time as it is now, or `None` where it cannot be read.
pub open spec fn got(cache: CacheView, key: Seq<char>, current: Option<Mtime>) -> Option<
    TransformedSessionView,
> {
    if holds(cache, key) && current == Some(cache[place_of(cache, key)].1.file_mtime) {
        Some(cache[place_of(cache, key)].1.session)
    } else {
        None
    }
}

/// The cache after a read of `key` at the time `now`: a hit marks the entry
/// as read at `now`; an entry whose file has changed leaves; nothing changes
/// without an entry, or where the file's time cannot be read.
pub open spec fn after_get(cache: CacheView, key: Seq<char>, current: Option<Mtime>, now: u64)
    -> CacheView {
    if holds(cache, key) && current is Some {
        let i = place_of(cache, key);
        if current == Some(cache[i].1.file_mtime) {
            cache.update(i, (key, touched(cache[i].1, now)))
        } else {
            cache.remove(i)
        }
    } else {
        cache
    }
}

/// The cache after `entry` was put in for `key`: in the place of the entry
/// that `key` had; else at the end, after the oldest entry has left a cache
/// that was full.
pub open spec fn after_put(cache: CacheView, key: Seq<char>, entry: SessionCacheEntryView)
    -> CacheView {
    if holds(cache, key) {
        cache.update(place_of(cache, key), (key, entry))
    } else if cache.len() >= SESSION_CACHE_MAX_ENTRIES {
        cache.remove(oldest(cache)).push((key, entry))
    } else {
        cache.push((key, entry))
    }
}

/// The cache without the entry of `key`.
pub open spec fn after_invalidate(cache: CacheView, key: Seq<char>) -> CacheView {
    if holds(cache, key) {
        cache.remove(place_of(cache, key))
    } else {
        cache
    }
}

/// In a cache without a path that stands twice, a path has one place.
pub proof fn lemma_place(cache: CacheView, key: Seq<char>, i: int)
    requires
        distinct_paths(cache),
        held_at(cache, key, i),
    ensures
        holds(cache, key),
        place_of(cache, key) == i,
{
    let chosen = place_of(cache, key);
    assert(held_at(cache, key, chosen));
    if chosen < i {
        assert(cache[chosen].0 != cache[i].0);
    } else if i < chosen {
        assert(cache[i].0 != cache[chosen].0);
    }
}

/// The oldest entry has a place, and no entry was put or read before it.
pub proof fn lemma_oldest(cache: CacheView)
    requires
        cache.len() > 0,
    ensures
        0 <= oldest(cache) < cache.len(),
        forall|i: int|
            0 <= i < cache.len() ==> cache[oldest(cache)].1.last_accessed <= (
            #[trigger] cache[i]).1.last_accessed,
    decreases cache.len(),
{
    if cache.len() > 1 {
        lemma_oldest(cache.drop_last());
        let before = oldest(cache.drop_last());
        assert forall|i: int| 0 <= i < cache.len() implies cache[oldest(cache)].1.last_accessed <= (
        #[trigger] cache[i]).1.last_accessed by {
            if i < cache.len() - 1 {
                assert(cache.drop_last()[i] == cache[i]);
            }
        }
    }
}

/// After a session was put into the cache, a read of its file hands out that
/// session for as long as the file was last changed when the entry says, and
/// nothing as soon as that time is another.
pub proof fn law_put_then_get(
    cache: CacheView,
    key: Seq<char>,
    entry: SessionCacheEntryView,
    current: Option<Mtime>,
)
    requires
        distinct_paths(cache),
    ensures
        distinct_paths(after_put(cache, key, entry)),
        holds(after_put(cache, key, entry), key),
        got(after_put(cache, key, entry), key, Some(entry.file_mtime)) == Some(entry.session),
        current != Some(entry.file_mtime) ==> got(after_put(cache, key, entry), key, current)
            is None,
{
    lemma_after_put(cache, key, entry);
}

/// Where the entry of `key` stands after it was put in, and that no path
/// stands twice after that.
pub proof fn lemma_after_put(cache: CacheView, key: Seq<char>, entry: SessionCacheEntryView)
    requires
        distinct_paths(cache),
    ensures
        distinct_paths(after_put(cache, key, entry)),
        holds(after_put(cache, key, entry), key),
        after_put(cache, key, entry)[place_of(after_put(cache, key, entry), key)] == (key, entry),
{
    let after = after_put(cache, key, entry);
    if holds(cache, key) {
        let i = place_of(cache, key);
        assert(held_at(cache, key, i));
        assert forall|a: int, b: int| 0 <= a < b < after.len() implies (#[trigger] after[a]).0 != (
        #[trigger] after[b]).0 by {
            assert(cache[a].0 != cache[b].0);
        }
        assert(held_at(after, key, i));
        lemma_place(after, key, i);
    } else {
        let room = if cache.len() >= SESSION_CACHE_MAX_ENTRIES {
            cache.remove(oldest(cache))
        } else {
            cache
        };
        if cache.len() >= SESSION_CACHE_MAX_ENTRIES {
            lemma_oldest(cache);
        }
        let v = oldest(cache);
        assert forall|a: int, b: int| 0 <= a < b < after.len() implies (#[trigger] after[a]).0 != (
        #[trigger] after[b]).0 by {
            let a0 = if cache.len() >= SESSION_CACHE_MAX_ENTRIES && a >= v {
                a + 1
            } else {
                a
            };
            let b0 = if cache.len() >= SESSION_CACHE_MAX_ENTRIES && b >= v {
                b + 1
            } else {
                b
            };
            if b < room.len() {
                assert(cache[a0].0 != cache[b0].0);
            } else {
                assert(!held_at(cache, key, a0));
            }
        }
        assert(held_at(after, key, room.len() as int));
        lemma_place(after, key, room.len() as int);
    }
}

/// The entry at place `i` was put or read before every other entry.
pub open spec fn older_than_all(cache: CacheView, i: int) -> bool {
    forall|j: int|
        0 <= j < cache.len() && j != i ==> cache[i].1.last_accessed < (
        #[trigger] cache[j]).1.last_accessed
}

/// When a session comes into a full cache, exactly one entry leaves: one
/// that no other entry is older than, and so the one that is older than all
/// others where there is such a one. The session that came in is held.
pub proof fn law_full_cache_evicts_oldest(
    cache: CacheView,
    key: Seq<char>,
    entry: SessionCacheEntryView,
)
    requires
        distinct_paths(cache),
        !holds(cache, key),
        cache.len() >= SESSION_CACHE_MAX_ENTRIES,
    ensures
        0 <= oldest(cache) < cache.len(),
        forall|i: int|
            0 <= i < cache.len() ==> cache[oldest(cache)].1.last_accessed <= (
            #[trigger] cache[i]).1.last_accessed,
        forall|i: int|
            0 <= i < cache.len() && #[trigger] older_than_all(cache, i) ==> oldest(cache) == i,
        !holds(after_put(cache, key, entry), cache[oldest(cache)].0),
        forall|i: int|
            0 <= i < cache.len() && i != oldest(cache) ==> holds(
                after_put(cache, key, entry),
                (#[trigger] cache[i]).0,
            ),
        holds(after_put(cache, key, entry), key),
        after_put(cache, key, entry).len() == cache.len(),
{
    lemma_oldest(cache);
    lemma_after_put(cache, key, entry);
    let v = oldest(cache);
    let after = after_put(cache, key, entry);
    assert(!held_at(cache, key, v));
    assert forall|j: int| !held_at(after, cache[v].0, j) by {
        if 0 <= j < after.len() {
            if j < cache.len() - 1 {
                let j0 = if j < v {
                    j
                } else {
                    j + 1
                };
                if j0 < v {
                    assert(cache[j0].0 != cache[v].0);
                } else {
                    assert(cache[v].0 != cache[j0].0);
                }
            }
        }
    }
    assert forall|i: int| 0 <= i < cache.len() && i != v implies holds(
        after,
        (#[trigger] cache[i]).0,
    ) by {
        let j = if i < v {
            i
        } else {
            i - 1
        };
        assert(held_at(after, cache[i].0, j));
    }
}

/// The session that was read last stays when another session comes into the
/// cache, as long as some other entry was put or read before that read.
pub proof fn law_entry_read_last_stays(
    cache: CacheView,
    read: Seq<char>,
    current: Option<Mtime>,
    now: u64,
    key: Seq<char>,
    entry: SessionCacheEntryView,
)
    requires
        distinct_paths(cache),
        got(cache, read, current) is Some,
        exists|j: int|
            0 <= j < cache.len() && (#[trigger] cache[j]).0 != read && cache[j].1.last_accessed
                < now,
    ensures
        holds(after_put(after_get(cache, read, current, now), key, entry), read),
{
    let i = place_of(cache, read);
    assert(held_at(cache, read, i));
    let mid = after_get(cache, read, current, now);
    assert(mid =~= cache.update(i, (read, touched(cache[i].1, now))));
    assert forall|a: int, b: int| 0 <= a < b < mid.len() implies (#[trigger] mid[a]).0 != (
    #[trigger] mid[b]).0 by {
        assert(cache[a].0 != cache[b].0);
    }
    assert(held_at(mid, read, i));
    let after = after_put(mid, key, entry);
    if holds(mid, key) {
        let p = place_of(mid, key);
        assert(held_at(mid, key, p));
        if p == i {
            assert(held_at(after, read, i));
        } else {
            assert(held_at(after, read, i));
        }
    } else if mid.len() >= SESSION_CACHE_MAX_ENTRIES {
        lemma_oldest(mid);
        let v = oldest(mid);
        let j = choose|j: int|
            0 <= j < cache.len() && (#[trigger] cache[j]).0 != read && cache[j].1.last_accessed
                < now;
        assert(mid[j] == cache[j]);
        assert(mid[v].1.last_accessed <= mid[j].1.last_accessed);
        assert(v != i);
        let i1 = if i < v {
            i
        } else {
            i - 1
        };
        assert(held_at(after, read, i1));
    } else {
        assert(held_at(after, read, i));
    }
}

/// The paths and entries of a list, as the cache shows them.
pub open spec fn entries_view(entries: Seq<(String, SessionCacheEntry)>) -> CacheView {
    Seq::new(entries.len(), |i: int| (entries[i].0@, entries[i].1@))
}

fn find_entry(entries: &Vec<(String, SessionCacheEntry)>, key: &str) -> (r: Option<usize>)
    ensures
        match r {
            Some(i) => held_at(entries_view(entries@), key@, i as int),
            None => !holds(entries_view(entries@), key@),
        },
{
    let mut i: usize = 0;
    while i < entries.len()
        invariant
            i <= entries@.len(),
            forall|k: int| 0 <= k < i ==> !held_at(entries_view(entries@), key@, k),
        decreases entries@.len() - i,
    {
        if same_text(entries[i].0.as_str(), key) {
            return Some(i);
        }
        i = i + 1;
    }
    None
}

fn find_oldest(entries: &Vec<(String, SessionCacheEntry)>) -> (r: usize)
    requires
        entries@.len() > 0,
    ensures
        r == oldest(entries_view(entries@)),
        r < entries@.len(),
{
    let ghost view = entries_view(entries@);
    let mut best: usize = 0;
    let mut i: usize = 1;
    proof {
        assert(view.take(1).len() == 1);
    }
    while i < entries.len()
        invariant
            1 <= i <= entries@.len(),
            view == entries_view(entries@),
            best < i,
            best == oldest(view.take(i as int)),
        decreases entries@.len() - i,
    {
        proof {
            let next = view.take(i as int + 1);
            assert(next.drop_last() =~= view.take(i as int));
            assert(next.last() == view[i as int]);
            assert(next[best as int] == view[best as int]);
        }
        if entries[i].1.last_accessed < entries[best].1.last_accessed {
            best = i;
        }
        i = i + 1;
    }
    proof {
        assert(view.take(i as int) =~= view);
    }
    best
}

/// A cache without one of its entries still holds no path twice.
proof fn lemma_remove_keeps_distinct(cache: CacheView, at: int)
    requires
        distinct_paths(cache),
        0 <= at < cache.len(),
    ensures
        distinct_paths(cache.remove(at)),
{
    let after = cache.remove(at);
    assert forall|a: int, b: int| 0 <= a < b < after.len() implies (#[trigger] after[a]).0 != (
    #[trigger] after[b]).0 by {
        let a0 = if a < at {
            a
        } else {
            a + 1
        };
        let b0 = if b < at {
            b
        } else {
            b + 1
        };
        assert(cache[a0].0 != cache[b0].0);
    }
}

/// A cache with another entry in the place of one still holds no path twice,
/// if the path stays.
proof fn lemma_update_keeps_distinct(cache: CacheView, at: int, entry: SessionCacheEntryView)
    requires
        distinct_paths(cache),
        0 <= at < cache.len(),
    ensures
        distinct_paths(cache.update(at, (cache[at].0, entry))),
{
    let after = cache.update(at, (cache[at].0, entry));
    assert forall|a: int, b: int| 0 <= a < b < after.len() implies (#[trigger] after[a]).0 != (
    #[trigger] after[b]).0 by {
        assert(cache[a].0 != cache[b].0);
    }
}

/// The sessions that were shown last, by the paths of their files. Holds at
/// most `SESSION_CACHE_MAX_ENTRIES` of them, and none twice; when it is
/// full, the one that was put or read longest ago makes room, and of several
/// that are equally old the one that came into the cache first.
pub struct SessionCache {
    entries: Vec<(String, SessionCacheEntry)>,
}

impl View for SessionCache {
    type V = CacheView;

    closed spec fn view(&self) -> CacheView {
        entries_view(self.entries@)
    }
}

impl SessionCache {
    #[verifier::type_invariant]
    spec fn holds_no_path_twice(&self) -> bool {
        &&& distinct_paths(entries_view(self.entries@))
        &&& self.entries@.len() <= SESSION_CACHE_MAX_ENTRIES
    }

    /// A cache that holds nothing.
    pub fn new() -> (r: SessionCache)
        ensures
            r@.len() == 0,
    {
        SessionCache { entries: Vec::new() }
    }

    /// The number of sessions held: never more than the cache has room for.
    pub fn len(&self) -> (n: usize)
        ensures
            n == self@.len(),
            n <= SESSION_CACHE_MAX_ENTRIES,
            distinct_paths(self@),
    {
        proof {
            use_type_invariant(self);
        }
        self.entries.len()
    }

    /// The entry of the file `key`, as it stands.
    pub fn entry(&self, key: &str) -> (r: Option<&SessionCacheEntry>)
        ensures
            match r {
                Some(entry) => holds(self@, key@) && self@[place_of(self@, key@)].1 == entry@,
                None => !holds(self@, key@),
            },
    {
        proof {
            use_type_invariant(self);
        }
        match find_entry(&self.entries, key) {
            Some(i) => {
                proof {
                    lemma_place(self@, key@, i as int);
                }
                Some(&self.entries[i].1)
            },
            None => None,
        }
    }

    /// Whether a session is held for the file `key`.
    pub fn contains(&self, key: &str) -> (r: bool)
        ensures
            r == holds(self@, key@),
    {
        find_entry(&self.entries, key).is_some()
    }

    /// Reads the session of the file `key` at the time `now`. `current_mtime`
    /// is the time at which the file was last changed, as it is now; `None`
    /// where it cannot be read.
    pub fn get(&mut self, key: &str, current_mtime: Option<Mtime>, now: u64) -> (r: Option<
        TransformedSession,
    >)
        ensures
            final(self)@ == after_get(old(self)@, key@, current_mtime, now),
            match r {
                Some(session) => got(old(self)@, key@, current_mtime) == Some(session@),
                None => got(old(self)@, key@, current_mtime) is None,
            },
    {
        proof {
            use_type_invariant(&*self);
        }
        let ghost before = self@;
        let i = match find_entry(&self.entries, key) {
            Some(i) => i,
            None => {
                return None;
            },
        };
        proof {
            lemma_place(before, key@, i as int);
        }
        let current = match current_mtime {
            Some(m) => m,
            None => {
                return None;
            },
        };
        let mut entries: Vec<(String, SessionCacheEntry)> = Vec::new();
        std::mem::swap(&mut self.entries, &mut entries);
        if current == entries[i].1.file_mtime {
            let (path, mut entry) = entries.remove(i);
            proof {
                use_type_invariant(&entry);
            }
            entry.last_accessed = now;
            let copy = entry.transformed.duplicate();
            entries.insert(i, (path, entry));
            proof {
                lemma_update_keeps_distinct(before, i as int, touched(before[i as int].1, now));
                assert(entries_view(entries@) =~= before.update(
                    i as int,
                    (key@, touched(before[i as int].1, now)),
                ));
            }
            self.entries = entries;
            Some(copy)
        } else {
            entries.remove(i);
            proof {
                lemma_remove_keeps_distinct(before, i as int);
                assert(entries_view(entries@) =~= before.remove(i as int));
            }
            self.entries = entries;
            None
        }
    }

    /// Puts the session of the file `key` into the cache at the time `now`,
    /// with the time `file_mtime` at which the file was last changed.
    pub fn put(
        &mut self,
        key: &str,
        transformed: TransformedSession,
        search_texts: Vec<String>,
        original_texts: Vec<String>,
        file_mtime: Mtime,
        now: u64,
    )
        requires
            search_texts@.len() == transformed.display_messages@.len(),
            original_texts@.len() == transformed.display_messages@.len(),
        ensures
            final(self)@ == after_put(
                old(self)@,
                key@,
                SessionCacheEntryView {
                    session: transformed@,
                    lowercase_texts: texts_view(search_texts@),
                    original_texts: texts_view(original_texts@),
                    file_mtime,
                    last_accessed: now,
                },
            ),
    {
        proof {
            use_type_invariant(&*self);
        }
        let ghost before = self@;
        let entry = SessionCacheEntry::new(transformed, search_texts, original_texts, file_mtime, now);
        let found = find_entry(&self.entries, key);
        let mut entries: Vec<(String, SessionCacheEntry)> = Vec::new();
        std::mem::swap(&mut self.entries, &mut entries);
        proof {
            lemma_after_put(before, key@, entry@);
        }
        match found {
            Some(i) => {
                proof {
                    lemma_place(before, key@, i as int);
                }
                entries.set(i, (key.to_owned(), entry));
                proof {
                    assert(entries_view(entries@) =~= before.update(i as int, (key@, entry@)));
                }
            },
            None => {
                if entries.len() >= SESSION_CACHE_MAX_ENTRIES {
                    let victim = find_oldest(&entries);
                    entries.remove(victim);
                    proof {
                        assert(entries_view(entries@) =~= before.remove(victim as int));
                    }
                }
                let ghost room = entries_view(entries@);
                entries.push((key.to_owned(), entry));
                proof {
                    assert(entries_view(entries@) =~= room.push((key@, entry@)));
                }
            },
        }
        self.entries = entries;
    }

    /// Takes the session of the file `key` out of the cache.
    pub fn invalidate(&mut self, key: &str)
        ensures
            final(self)@ == after_invalidate(old(self)@, key@),
    {
        proof {
            use_type_invariant(&*self);
        }
        let ghost before = self@;
        if let Some(i) = find_entry(&self.entries, key) {
            proof {
                lemma_place(before, key@, i as int);
                lemma_remove_keeps_distinct(before, i as int);
            }
            let mut entries: Vec<(String, SessionCacheEntry)> = Vec::new();
            std::mem::swap(&mut self.entries, &mut entries);
            entries.remove(i);
            proof {
                assert(entries_view(entries@) =~= before.remove(i as int));
            }
            self.entries = entries;
        }
    }
}

/// The state that the commands of the application share: the list of
/// projects, the sessions shown last, and the copies made of files before
/// they were changed. The three parts do not depend on each other.
pub struct AppCache {
    pub projects: ProjectCache,
    pub sessions: SessionCache,
    pub temp_backups: Vec<TempBackupEntry>,
}

impl AppCache {
    /// A cache that holds nothing.
    pub fn new() -> (r: AppCache)
        ensures
            r.projects.entry is None,
            r.sessions@.len() == 0,
            r.temp_backups@.len() == 0,
    {
        AppCache {
            projects: ProjectCache::new(),
            sessions: SessionCache::new(),
            temp_backups: Vec::new(),
        }
    }

    /// The list of projects, if one is held and still valid at `now`.
    pub fn get_projects(&self, now: u64) -> (r: Option<Vec<Project>>)
        ensures
            match r {
                Some(projects) => self.projects.valid_at(now) == Some(projects_view(projects@)),
                None => self.projects.valid_at(now) is None,
            },
    {
        self.projects.get(now)
    }

    /// Holds `projects` from `now` on.
    pub fn set_projects(&mut self, projects: Vec<Project>, now: u64)
        ensures
            final(self).projects.entry == Some(ProjectCacheEntry { data: projects, cached_at: now }),
            final(self).sessions == old(self).sessions,
            final(self).temp_backups == old(self).temp_backups,
    {
        self.projects.set(projects, now);
    }

    /// Holds no list of projects any more.
    pub fn invalidate_projects(&mut self)
        ensures
            final(self).projects.entry is None,
            final(self).sessions == old(self).sessions,
            final(self).temp_backups == old(self).temp_backups,
    {
        self.projects.invalidate();
    }

    /// Reads the session of the file `file_path` at the time `now`.
    /// `current_mtime` is the time at which the file was last changed, as it
    /// is now; `None` where it cannot be read.
    pub fn get_session(&mut self, file_path: &str, current_mtime: Option<Mtime>, now: u64) -> (r:
        Option<TransformedSession>)
        ensures
            final(self).sessions@ == after_get(old(self).sessions@, file_path@, current_mtime, now),
            match r {
                Some(session) => got(old(self).sessions@, file_path@, current_mtime) == Some(
                    session@,
                ),
                None => got(old(self).sessions@, file_path@, current_mtime) is None,
            },
            final(self).projects == old(self).projects,
            final(self).temp_backups == old(self).temp_backups,
    {
        self.sessions.get(file_path, current_mtime, now)
    }

    /// Puts the session of the file `file_path` into the cache at the time
    /// `now`, with the time `file_mtime` at which the file was last changed.
    pub fn set_session(
        &mut self,
        file_path: &str,
        transformed: TransformedSession,
        search_texts: Vec<String>,
        original_texts: Vec<String>,
        file_mtime: Mtime,
        now: u64,
    )
        requires
            search_texts@.len() == transformed.display_messages@.len(),
            original_texts@.len() == transformed.display_messages@.len(),
        ensures
            final(self).sessions@ == after_put(
                old(self).sessions@,
                file_path@,
                SessionCacheEntryView {
                    session: transformed@,
                    lowercase_texts: texts_view(search_texts@),
                    original_texts: texts_view(original_texts@),
                    file_mtime,
                    last_accessed: now,
                },
            ),
            final(self).projects == old(self).projects,
            final(self).temp_backups == old(self).temp_backups,
    {
        self.sessions.put(file_path, transformed, search_texts, original_texts, file_mtime, now);
    }

    /// Takes the session of the file `file_path` out of the cache.
    pub fn invalidate_session(&mut self, file_path: &str)
        ensures
            final(self).sessions@ == after_invalidate(old(self).sessions@, file_path@),
            final(self).projects == old(self).projects,
            final(self).temp_backups == old(self).temp_backups,
    {
        self.sessions.invalidate(file_path);
    }

    /// Adds a copy to the list of copies.
    pub fn register_temp_backup(&mut self, entry: TempBackupEntry)
        ensures
            final(self).temp_backups@ == old(self).temp_backups@.push(entry),
            final(self).projects == old(self).projects,
            final(self).sessions == old(self).sessions,
    {
        self.temp_backups.push(entry);
    }

    /// All copies made so far, in the order in which they were made.
    pub fn get_all_temp_backups(&self) -> (r: Vec<TempBackupEntry>)
        ensures
            backups_view(r@) == backups_view(self.temp_backups@),
    {
        let mut copy: Vec<TempBackupEntry> = Vec::new();
        let mut i: usize = 0;
        while i < self.temp_backups.len()
            invariant
                i <= self.temp_backups@.len(),
                copy@.len() == i,
                forall|k: int| 0 <= k < i ==> (#[trigger] copy@[k])@ == self.temp_backups@[k]@,
            decreases self.temp_backups@.len() - i,
        {
            copy.push(self.temp_backups[i].clone());
            i = i + 1;
        }
        proof {
            assert(backups_view(copy@) =~= backups_view(self.temp_backups@));
        }
        copy
    }
}

impl Default for AppCache {
    fn default() -> (r: Self)
        ensures
            r.projects.entry is None,
            r.sessions@.len() == 0,
            r.temp_backups@.len() == 0,
    {
        AppCache::new()
    }
}

} // verus!
