use vstd::prelude::*;
use vstd::string::*;
use crate::text::{join_lines, joined, push_char, split_words, texts_view, words_of};

verus! {

/// How a session is taken up again in a terminal.
#[derive(Clone, Debug)]
pub struct ResumeConfig {
    /// Flags that are handed to the command line tool as they stand.
    pub flags: Vec<String>,
    /// Further arguments, separated by white space.
    pub custom_args: String,
}

impl Default for ResumeConfig {
    fn default() -> (r: Self)
        ensures
            r.flags@.len() == 0,
            r.custom_args@.len() == 0,
    {
        ResumeConfig { flags: Vec::new(), custom_args: String::new() }
    }
}

/// The parts of the command that takes a session up again: the program of
/// the command line tool, the flag for taking up, the session, the flags of
/// the configuration, and the words of its further arguments.
pub open spec fn resume_parts(program: Seq<char>, session_id: Seq<char>, config: ResumeConfig)
    -> Seq<Seq<char>> {
    seq![program, "--resume"@, session_id] + texts_view(config.flags@) + words_of(
        config.custom_args@,
    )
}

/// The command that takes a session up again, its parts separated by one
/// space each.
pub fn resume_command(program: &str, session_id: &str, config: &ResumeConfig) -> (r: String)
    ensures
        r@ == joined(resume_parts(program@, session_id@, *config), " "@),
{
    let mut parts: Vec<String> = Vec::new();
    parts.push(program.to_owned());
    parts.push("--resume".to_owned());
    parts.push(session_id.to_owned());
    let ghost head = seq![program@, "--resume"@, session_id@];
    let ghost flags = texts_view(config.flags@);
    proof {
        assert(texts_view(parts@) =~= head + flags.take(0));
    }
    let mut i: usize = 0;
    while i < config.flags.len()
        invariant
            i <= config.flags@.len(),
            flags == texts_view(config.flags@),
            head.len() == 3,
            texts_view(parts@) == head + flags.take(i as int),
        decreases config.flags@.len() - i,
    {
        let flag = config.flags[i].clone();
        proof {
            assert(flag@ == flags[i as int]);
            assert(texts_view(parts@.push(flag)) =~= texts_view(parts@).push(flag@));
            assert((head + flags.take(i as int)).push(flags[i as int]) =~= head + flags.take(
                i as int + 1,
            ));
        }
        parts.push(flag);
        i = i + 1;
    }
    let words = split_words(config.custom_args.as_str());
    let ghost extra = texts_view(words@);
    proof {
        assert(flags.take(i as int) =~= flags);
        assert(texts_view(parts@) =~= head + flags + extra.take(0));
    }
    let mut k: usize = 0;
    while k < words.len()
        invariant
            k <= words@.len(),
            extra == texts_view(words@),
            head.len() == 3,
            texts_view(parts@) == head + flags + extra.take(k as int),
        decreases words@.len() - k,
    {
        let word = words[k].clone();
        proof {
            assert(word@ == extra[k as int]);
            assert(texts_view(parts@.push(word)) =~= texts_view(parts@).push(word@));
            assert((head + flags + extra.take(k as int)).push(extra[k as int]) =~= head + flags
                + extra.take(k as int + 1));
        }
        parts.push(word);
        k = k + 1;
    }
    proof {
        assert(extra.take(k as int) =~= extra);
    }
    join_lines(&parts, " ")
}

/// A text with `with` in the place of each character `from`.
pub open spec fn replaced(text: Seq<char>, from: char, with: Seq<char>) -> Seq<char>
    decreases text.len(),
{
    if text.len() == 0 {
        Seq::empty()
    } else if text.last() == from {
        replaced(text.drop_last(), from, with) + with
    } else {
        replaced(text.drop_last(), from, with).push(text.last())
    }
}

/// A text with `with` in the place of each character `from`.
pub fn replace_char(text: &str, from: char, with: &str) -> (r: String)
    ensures
        r@ == replaced(text@, from, with@),
{
    let ghost all = text@;
    let mut out = String::new();
    proof {
        assert(all.take(0) =~= Seq::<char>::empty());
    }
    for c in it: text.chars()
        invariant
            it.seq() == all,
            out@ == replaced(all.take(it.index() as int), from, with@),
    {
        proof {
            let next = all.take(it.index() + 1);
            assert(next.drop_last() =~= all.take(it.index() as int));
            assert(next.last() == c);
        }
        if c == from {
            out.append(with);
        } else {
            push_char(&mut out, c);
        }
    }
    proof {
        assert(all.take(all.len() as int) =~= all);
    }
    out
}

/// What a shell runs in a new terminal to go to a directory and run a
/// command there, and to stay open after it.
pub open spec fn shell_command_of(working_dir: Seq<char>, command: Seq<char>) -> Seq<char> {
    "cd '"@ + working_dir + "' && "@ + command + " ; exec $SHELL"@
}

/// What a shell runs in a new terminal to go to a directory and run a
/// command there.
pub fn shell_command(working_dir: &str, command: &str) -> (r: String)
    ensures
        r@ == shell_command_of(working_dir@, command@),
{
    let mut line = "cd '".to_owned();
    line.append(working_dir);
    line.append("' && ");
    line.append(command);
    line.append(" ; exec $SHELL");
    line
}

/// The script that has the terminal application go to a directory and run a
/// command there. Quotes in the directory, and backslashes and double quotes
/// in the command, are written so that they stay what they are.
pub open spec fn terminal_script_of(working_dir: Seq<char>, command: Seq<char>) -> Seq<char> {
    "tell application \"Terminal\"\nactivate\ndo script \"cd '"@ + replaced(
        working_dir,
        '\'',
        "'\\''"@,
    ) + "' && "@ + replaced(replaced(command, '\\', "\\\\"@), '"', "\\\""@) + "\"\nend tell"@
}

/// The script that has the terminal application go to a directory and run a
/// command there.
pub fn terminal_script(working_dir: &str, command: &str) -> (r: String)
    ensures
        r@ == terminal_script_of(working_dir@, command@),
{
    let dir = replace_char(working_dir, '\'', "'\\''");
    let escaped = replace_char(replace_char(command, '\\', "\\\\").as_str(), '"', "\\\"");
    let mut script = "tell application \"Terminal\"\nactivate\ndo script \"cd '".to_owned();
    script.append(dir.as_str());
    script.append("' && ");
    script.append(escaped.as_str());
    script.append("\"\nend tell");
    script
}

/// The argument that has the command interpreter run a command and stay
/// open.
pub fn console_argument(command: &str) -> (r: String)
    ensures
        r@ == "/k "@ + command@,
{
    let mut argument = "/k ".to_owned();
    argument.append(command);
    argument
}

} // verus!
