use vstd::prelude::*;
use vstd::string::*;
use crate::text::push_char;

verus! {

/// `std::path::MAIN_SEPARATOR`: the separator of path components on the
/// machine that runs the code. Nothing is promised of it.
#[verifier::external_body]
pub(crate) fn main_separator() -> char {
    std::path::MAIN_SEPARATOR
}

/// An ASCII letter, as the name of a drive is one.
pub open spec fn is_drive_letter(c: char) -> bool {
    ('a' <= c && c <= 'z') || ('A' <= c && c <= 'Z')
}

/// The name stands for a path on a drive: a letter, then a dash.
pub open spec fn names_drive(name: Seq<char>) -> bool {
    name.len() >= 2 && is_drive_letter(name[0]) && (name[1] == '-' || name[1] == '\0')
}

/// The name with `sep` for each pair of dashes, for each dash left after
/// that, and for each NUL character.
pub open spec fn with_separators(name: Seq<char>, sep: char) -> Seq<char>
    decreases name.len(),
{
    if name.len() == 0 {
        Seq::empty()
    } else if name[0] == '-' && name.len() >= 2 && name[1] == '-' {
        seq![sep] + with_separators(name.skip(2), sep)
    } else if name[0] == '-' || name[0] == '\0' {
        seq![sep] + with_separators(name.skip(1), sep)
    } else {
        seq![name[0]] + with_separators(name.skip(1), sep)
    }
}

/// The path that the name of a project directory stands for. A name that
/// starts with a drive letter gives a path on that drive, with backslashes;
/// any other name gives a path with `sep` between its components.
pub open spec fn decoded(name: Seq<char>, sep: char) -> Seq<char> {
    if names_drive(name) {
        seq![name[0], ':'] + with_separators(name.skip(1), '\\')
    } else {
        with_separators(name, sep)
    }
}

fn is_letter(c: char) -> (r: bool)
    ensures
        r == is_drive_letter(c),
{
    ('a' <= c && c <= 'z') || ('A' <= c && c <= 'Z')
}

/// Appends to `out` the part of the name from `from` on, with separators.
fn push_with_separators(out: &mut String, name: &str, from: usize, sep: char)
    requires
        from <= name@.len(),
    ensures
        final(out)@ == old(out)@ + with_separators(name@.skip(from as int), sep),
{
    let len = name.unicode_len();
    let mut i: usize = from;
    while i < len
        invariant
            from <= i <= len,
            len == name@.len(),
            out@ + with_separators(name@.skip(i as int), sep) == old(out)@ + with_separators(
                name@.skip(from as int),
                sep,
            ),
        decreases len - i,
    {
        let ghost rest = name@.skip(i as int);
        let ghost so_far = out@;
        let c = name.get_char(i);
        assert(rest[0] == c);
        if c == '-' && i + 1 < len && name.get_char(i + 1) == '-' {
            assert(rest[1] == '-');
            assert(rest.skip(2) =~= name@.skip(i as int + 2));
            push_char(out, sep);
            proof {
                assert(so_far.push(sep) + with_separators(rest.skip(2), sep) =~= so_far + (seq![sep]
                    + with_separators(rest.skip(2), sep)));
            }
            i = i + 2;
        } else {
            assert(rest.skip(1) =~= name@.skip(i as int + 1));
            assert(i + 1 < len ==> rest[1] == name@[i as int + 1]);
            let piece = if c == '-' || c == '\0' {
                sep
            } else {
                c
            };
            push_char(out, piece);
            proof {
                assert(so_far.push(piece) + with_separators(rest.skip(1), sep) =~= so_far + (
                seq![piece] + with_separators(rest.skip(1), sep)));
            }
            i = i + 1;
        }
    }
    proof {
        assert(name@.skip(i as int).len() == 0);
        assert(out@ + Seq::<char>::empty() =~= out@);
    }
}

/// The path that the name of a project directory stands for, with `sep`
/// between the components of a path that lies on no drive.
pub fn decode_with_separator(encoded_name: &str, sep: char) -> (r: String)
    ensures
        r@ == decoded(encoded_name@, sep),
{
    let len = encoded_name.unicode_len();
    let mut out = String::new();
    if len >= 2 && is_letter(encoded_name.get_char(0)) {
        let second = encoded_name.get_char(1);
        if second == '-' || second == '\0' {
            push_char(&mut out, encoded_name.get_char(0));
            push_char(&mut out, ':');
            push_with_separators(&mut out, encoded_name, 1, '\\');
            proof {
                assert(Seq::<char>::empty().push(encoded_name@[0]).push(':') =~= seq![
                    encoded_name@[0],
                    ':',
                ]);
            }
            return out;
        }
    }
    push_with_separators(&mut out, encoded_name, 0, sep);
    proof {
        assert(encoded_name@.skip(0) =~= encoded_name@);
        assert(Seq::<char>::empty() + with_separators(encoded_name@, sep) =~= with_separators(
            encoded_name@,
            sep,
        ));
    }
    out
}

/// The path that the name of a project directory stands for, on the machine
/// that runs the code: whatever separator the machine has, the result is
/// `decoded` for it.
pub fn decode_project_path(encoded_name: &str) -> (r: String)
    ensures
        exists|sep: char| r@ == decoded(encoded_name@, sep),
        names_drive(encoded_name@) ==> r@ == decoded(encoded_name@, '\\'),
{
    decode_with_separator(encoded_name, main_separator())
}

} // verus!
