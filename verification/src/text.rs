use vstd::prelude::*;
use vstd::string::*;

verus! {

/// The characters of each text of a list.
pub open spec fn texts_view(texts: Seq<String>) -> Seq<Seq<char>> {
    Seq::new(texts.len(), |i: int| texts[i]@)
}

/// `needle` lies in `hay` at index `at`.
pub open spec fn occurs_at<T>(hay: Seq<T>, needle: Seq<T>, at: int) -> bool {
    0 <= at && at + needle.len() <= hay.len() && hay.subrange(at, at + needle.len()) == needle
}

/// `needle` lies somewhere in `hay`.
pub open spec fn occurs<T>(hay: Seq<T>, needle: Seq<T>) -> bool {
    exists|at: int| #[trigger] occurs_at(hay, needle, at)
}

/// `needle` lies in `hay` at `at` and nowhere before.
pub open spec fn first_occurs_at<T>(hay: Seq<T>, needle: Seq<T>, at: int) -> bool {
    &&& occurs_at(hay, needle, at)
    &&& forall|earlier: int| 0 <= earlier < at ==> !occurs_at(hay, needle, earlier)
}

/// The part of `hay` before the first place where `needle` lies in it.
pub open spec fn before_first<T>(hay: Seq<T>, needle: Seq<T>) -> Option<Seq<T>> {
    if occurs(hay, needle) {
        Some(hay.take(choose|at: int| first_occurs_at(hay, needle, at)))
    } else {
        None
    }
}

/// Two first places are one place.
pub proof fn lemma_first_is_unique<T>(hay: Seq<T>, needle: Seq<T>, a: int, b: int)
    requires
        first_occurs_at(hay, needle, a),
        first_occurs_at(hay, needle, b),
    ensures
        a == b,
{
}

/// What `str::to_lowercase` makes of a text.
pub uninterp spec fn lowercase(text: Seq<char>) -> Seq<char>;

/// `str == str`: true exactly when both hold the same characters.
#[verifier::external_body]
pub(crate) fn same_text(a: &str, b: &str) -> (r: bool)
    ensures
        r == (a@ == b@),
{
    a == b
}

/// `str::starts_with` with a string pattern: true exactly when `prefix` is a
/// prefix of `text`.
#[verifier::external_body]
pub(crate) fn has_prefix(text: &str, prefix: &str) -> (r: bool)
    ensures
        r == prefix@.is_prefix_of(text@),
{
    text.starts_with(prefix)
}

/// `str::strip_prefix` with a string pattern: the text behind `prefix`, or
/// `None` when `text` does not start with it.
#[verifier::external_body]
pub(crate) fn after_prefix<'a>(text: &'a str, prefix: &str) -> (r: Option<&'a str>)
    ensures
        r is Some <==> prefix@.is_prefix_of(text@),
        r matches Some(rest) ==> rest@ == text@.skip(prefix@.len() as int),
{
    text.strip_prefix(prefix)
}

/// `str::contains` with a string pattern: true exactly when `needle` lies in
/// `text`.
#[verifier::external_body]
pub(crate) fn contains_text(text: &str, needle: &str) -> (r: bool)
    ensures
        r == occurs(text@, needle@),
{
    text.contains(needle)
}

/// `str::split_once` with a string delimiter: the parts before and behind the
/// first place where `delimiter` lies in `text`, or `None` when it lies nowhere.
#[verifier::external_body]
pub(crate) fn split_at_first<'a>(text: &'a str, delimiter: &str) -> (r: Option<(&'a str, &'a str)>)
    ensures
        r is Some <==> occurs(text@, delimiter@),
        r matches Some((head, tail)) ==> {
            &&& text@ == head@ + delimiter@ + tail@
            &&& forall|at: int| 0 <= at < head@.len() ==> !occurs_at(text@, delimiter@, at)
        },
{
    text.split_once(delimiter)
}

/// The part of `text` before the first place where `delimiter` lies in it.
pub fn text_before<'a>(text: &'a str, delimiter: &str) -> (r: Option<&'a str>)
    ensures
        match r {
            Some(head) => before_first(text@, delimiter@) == Some(head@),
            None => before_first(text@, delimiter@) is None,
        },
{
    match split_at_first(text, delimiter) {
        Some((head, _tail)) => {
            proof {
                let at = head@.len() as int;
                assert(text@.subrange(at, at + delimiter@.len()) =~= delimiter@);
                assert(first_occurs_at(text@, delimiter@, at));
                let chosen = choose|c: int| first_occurs_at(text@, delimiter@, c);
                lemma_first_is_unique(text@, delimiter@, at, chosen);
                assert(text@.take(at) =~= head@);
            }
            Some(head)
        },
        None => None,
    }
}

/// `str::to_lowercase`.
#[verifier::external_body]
pub(crate) fn to_lowercase(text: &str) -> (r: String)
    ensures
        r@ == lowercase(text@),
{
    text.to_lowercase()
}

/// `String::push`: appends one character.
#[verifier::external_body]
pub(crate) fn push_char(text: &mut String, c: char)
    ensures
        final(text)@ == old(text)@.push(c),
{
    text.push(c)
}

/// The decimal digit of a number below ten.
pub open spec fn digit(d: nat) -> char {
    if d == 0 {
        '0'
    } else if d == 1 {
        '1'
    } else if d == 2 {
        '2'
    } else if d == 3 {
        '3'
    } else if d == 4 {
        '4'
    } else if d == 5 {
        '5'
    } else if d == 6 {
        '6'
    } else if d == 7 {
        '7'
    } else if d == 8 {
        '8'
    } else {
        '9'
    }
}

/// A number in decimal digits, without leading zeros.
pub open spec fn decimal(n: nat) -> Seq<char>
    decreases n,
{
    if n < 10 {
        seq![digit(n)]
    } else {
        decimal(n / 10).push(digit(n % 10))
    }
}

fn digit_char(d: u64) -> (c: char)
    requires
        d < 10,
    ensures
        c == digit(d as nat),
{
    if d == 0 {
        '0'
    } else if d == 1 {
        '1'
    } else if d == 2 {
        '2'
    } else if d == 3 {
        '3'
    } else if d == 4 {
        '4'
    } else if d == 5 {
        '5'
    } else if d == 6 {
        '6'
    } else if d == 7 {
        '7'
    } else if d == 8 {
        '8'
    } else {
        '9'
    }
}

/// A number written in decimal digits.
pub fn decimal_text(n: u64) -> (r: String)
    ensures
        r@ == decimal(n as nat),
    decreases n,
{
    if n < 10 {
        let mut text = String::new();
        push_char(&mut text, digit_char(n));
        proof {
            assert(text@ =~= seq![digit(n as nat)]);
        }
        text
    } else {
        let mut text = decimal_text(n / 10);
        push_char(&mut text, digit_char(n % 10));
        text
    }
}

/// The texts of a list, one after another, with `sep` between them.
pub open spec fn joined(lines: Seq<Seq<char>>, sep: Seq<char>) -> Seq<char>
    decreases lines.len(),
{
    if lines.len() == 0 {
        Seq::empty()
    } else if lines.len() == 1 {
        lines[0]
    } else {
        joined(lines.drop_last(), sep) + sep + lines.last()
    }
}

/// The texts of a list, one after another, with `sep` between them.
pub fn join_lines(lines: &Vec<String>, sep: &str) -> (r: String)
    ensures
        r@ == joined(texts_view(lines@), sep@),
{
    let ghost all = texts_view(lines@);
    let mut out = String::new();
    let mut i: usize = 0;
    while i < lines.len()
        invariant
            i <= lines@.len(),
            all == texts_view(lines@),
            out@ == joined(all.take(i as int), sep@),
        decreases lines@.len() - i,
    {
        proof {
            let next = all.take(i as int + 1);
            assert(next.drop_last() =~= all.take(i as int));
            assert(next.last() == lines@[i as int]@);
            assert(next[0] == all[0]);
        }
        if i > 0 {
            out.append(sep);
        }
        out.append(lines[i].as_str());
        proof {
            if i == 0 {
                assert(all.take(0).len() == 0);
                assert(Seq::<char>::empty() + lines@[0]@ =~= lines@[0]@);
            }
        }
        i = i + 1;
    }
    proof {
        assert(all.take(i as int) =~= all);
    }
    out
}

/// `str::ends_with` with a string pattern: true exactly when `suffix` is a
/// suffix of `text`.
#[verifier::external_body]
pub(crate) fn has_suffix(text: &str, suffix: &str) -> (r: bool)
    ensures
        r == suffix@.is_suffix_of(text@),
{
    text.ends_with(suffix)
}

/// `str::strip_suffix` with a string pattern: the text before `suffix`, or
/// `None` when `text` does not end with it.
#[verifier::external_body]
pub(crate) fn before_suffix<'a>(text: &'a str, suffix: &str) -> (r: Option<&'a str>)
    ensures
        r is Some <==> suffix@.is_suffix_of(text@),
        r matches Some(rest) ==> rest@ == text@.take(text@.len() - suffix@.len()),
{
    text.strip_suffix(suffix)
}

/// `a` stands before `b` in the order of strings: at the first place where
/// the two differ `a` has the lower code point, or `a` ends there and `b`
/// goes on.
pub open spec fn comes_before(a: Seq<char>, b: Seq<char>) -> bool
    decreases a.len(),
{
    if b.len() == 0 {
        false
    } else if a.len() == 0 {
        true
    } else if a[0] != b[0] {
        a[0] < b[0]
    } else {
        comes_before(a.skip(1), b.skip(1))
    }
}

/// `str < str`: the order of strings, which goes by code points.
#[verifier::external_body]
pub(crate) fn text_less(a: &str, b: &str) -> (r: bool)
    ensures
        r == comes_before(a@, b@),
{
    a < b
}

/// No text stands before itself, and of two texts at most one stands before
/// the other.
pub proof fn lemma_order_is_strict(a: Seq<char>, b: Seq<char>)
    ensures
        !(comes_before(a, b) && comes_before(b, a)),
        !comes_before(a, a),
    decreases a.len(),
{
    if a.len() > 0 && b.len() > 0 && a[0] == b[0] {
        lemma_order_is_strict(a.skip(1), b.skip(1));
    }
    if a.len() > 0 {
        lemma_order_is_strict(a.skip(1), a.skip(1));
    }
}

/// What stands before a text stands before all that the text stands before.
pub proof fn lemma_order_is_transitive(a: Seq<char>, b: Seq<char>, c: Seq<char>)
    requires
        comes_before(a, b),
        comes_before(b, c),
    ensures
        comes_before(a, c),
    decreases a.len(),
{
    if a.len() > 0 && a[0] == b[0] && b[0] == c[0] {
        lemma_order_is_transitive(a.skip(1), b.skip(1), c.skip(1));
    }
}

/// Whether a character is white space: one of the code points that have the
/// Unicode property `White_Space`.
pub open spec fn is_whitespace(c: char) -> bool {
    ||| '\u{9}' <= c <= '\u{d}'
    ||| c == ' '
    ||| c == '\u{85}'
    ||| c == '\u{a0}'
    ||| c == '\u{1680}'
    ||| '\u{2000}' <= c <= '\u{200a}'
    ||| c == '\u{2028}'
    ||| c == '\u{2029}'
    ||| c == '\u{202f}'
    ||| c == '\u{205f}'
    ||| c == '\u{3000}'
}

/// `char::is_whitespace`: true exactly for the code points that have the
/// Unicode property `White_Space`.
#[verifier::external_body]
pub(crate) fn whitespace(c: char) -> (r: bool)
    ensures
        r == is_whitespace(c),
{
    c.is_whitespace()
}

/// A text of white space alone, or of nothing at all.
pub open spec fn blank(text: Seq<char>) -> bool {
    forall|i: int| 0 <= i < text.len() ==> is_whitespace(#[trigger] text[i])
}

/// Whether a text holds nothing but white space.
pub fn is_blank(text: &str) -> (r: bool)
    ensures
        r == blank(text@),
{
    let ghost all = text@;
    for c in it: text.chars()
        invariant
            it.seq() == all,
            all == text@,
            forall|k: int| 0 <= k < it.index() ==> is_whitespace(#[trigger] all[k]),
    {
        if !whitespace(c) {
            assert(!is_whitespace(all[it.index() as int]));
            return false;
        }
    }
    true
}

/// Where the first line of a text ends: the place of its first line feed,
/// or `-1` for a text of one line without an end.
pub open spec fn line_end(text: Seq<char>) -> int
    decreases text.len(),
{
    if text.len() == 0 {
        -1
    } else if text[0] == '\n' {
        0
    } else if line_end(text.skip(1)) < 0 {
        -1
    } else {
        line_end(text.skip(1)) + 1
    }
}

/// A line without the carriage return that it ends with, if it ends with one.
pub open spec fn without_return(line: Seq<char>) -> Seq<char> {
    if line.len() > 0 && line.last() == '\r' {
        line.drop_last()
    } else {
        line
    }
}

/// The lines of a text. A line ends with a line feed, or with a carriage
/// return and a line feed; neither belongs to the line. What stands behind
/// the last line feed is a line too, unless nothing stands there.
pub open spec fn lines_of(text: Seq<char>) -> Seq<Seq<char>>
    decreases text.len(),
{
    if text.len() == 0 {
        Seq::empty()
    } else if line_end(text) < 0 || line_end(text) >= text.len() {
        seq![text]
    } else {
        seq![without_return(text.take(line_end(text)))] + lines_of(text.skip(line_end(text) + 1))
    }
}

/// The end of the first line lies in the text, and no line feed before it.
pub proof fn lemma_line_end(text: Seq<char>)
    ensures
        -1 <= line_end(text) < text.len(),
        line_end(text) >= 0 ==> text[line_end(text)] == '\n',
        forall|i: int|
            0 <= i < text.len() && (line_end(text) < 0 || i < line_end(text)) ==> text[i] != '\n',
    decreases text.len(),
{
    if text.len() > 0 && text[0] != '\n' {
        lemma_line_end(text.skip(1));
        assert forall|i: int|
            0 <= i < text.len() && (line_end(text) < 0 || i < line_end(text)) implies text[i]
            != '\n' by {
            if i > 0 {
                assert(text.skip(1)[i - 1] == text[i]);
            }
        }
    }
}

/// The first line feed of a text is where its first line ends.
pub proof fn lemma_first_line_feed(text: Seq<char>, at: int)
    requires
        0 <= at < text.len(),
        text[at] == '\n',
        forall|i: int| 0 <= i < at ==> text[i] != '\n',
    ensures
        line_end(text) == at,
    decreases at,
{
    if at > 0 {
        assert(text.skip(1)[at - 1] == text[at]);
        assert forall|i: int| 0 <= i < at - 1 implies text.skip(1)[i] != '\n' by {
            assert(text.skip(1)[i] == text[i + 1]);
        }
        lemma_first_line_feed(text.skip(1), at - 1);
    }
}

/// A text without a line feed is one line, or none if it is empty.
pub proof fn lemma_no_line_feed(text: Seq<char>)
    requires
        forall|i: int| 0 <= i < text.len() ==> text[i] != '\n',
    ensures
        line_end(text) < 0,
{
    lemma_line_end(text);
}

/// The lines of a text.
pub fn split_lines(text: &str) -> (r: Vec<String>)
    ensures
        texts_view(r@) == lines_of(text@),
{
    let ghost all = text@;
    let mut lines: Vec<String> = Vec::new();
    let mut current = String::new();
    let mut held_return = false;
    proof {
        assert(texts_view(lines@) =~= Seq::empty());
        assert(all.skip(0) =~= all);
        assert(Seq::<Seq<char>>::empty() + lines_of(all) =~= lines_of(all));
        assert(Seq::<char>::empty() + all =~= all);
    }
    for c in it: text.chars()
        invariant
            it.seq() == all,
            forall|i: int| 0 <= i < current@.len() ==> current@[i] != '\n',
            !held_return ==> current@.len() == 0 || current@.last() != '\r',
            lines_of(all) == texts_view(lines@) + lines_of(
                current@ + (if held_return {
                    seq!['\r']
                } else {
                    Seq::<char>::empty()
                }) + all.skip(it.index() as int),
            ),
    {
        let ghost held = if held_return {
            seq!['\r']
        } else {
            Seq::<char>::empty()
        };
        let ghost rest = all.skip(it.index() + 1);
        let ghost so_far = texts_view(lines@);
        let ghost line = current@;
        proof {
            assert(all.skip(it.index() as int) =~= seq![c] + rest);
        }
        if c == '\n' {
            proof {
                let whole = line + held + (seq![c] + rest);
                let at = (line + held).len() as int;
                assert(whole[at] == '\n');
                lemma_first_line_feed(whole, at);
                lemma_line_end(whole);
                assert(whole.take(at) =~= line + held);
                assert(whole.skip(at + 1) =~= rest);
                assert(without_return(line + held) =~= line) by {
                    if held_return {
                        assert((line + held).drop_last() =~= line);
                    } else {
                        assert(line + held =~= line);
                        assert(line.len() == 0 || line.last() != '\r');
                    }
                }
                assert(texts_view(lines@.push(current)) =~= so_far.push(line));
                assert(so_far + (seq![line] + lines_of(rest)) =~= so_far.push(line) + lines_of(
                    Seq::<char>::empty() + Seq::<char>::empty() + rest,
                )) by {
                    assert(Seq::<char>::empty() + Seq::<char>::empty() + rest =~= rest);
                }
            }
            lines.push(current);
            current = String::new();
            held_return = false;
        } else {
            if held_return {
                push_char(&mut current, '\r');
            }
            if c == '\r' {
                held_return = true;
                proof {
                    assert(line + held + (seq![c] + rest) =~= current@ + seq!['\r'] + rest);
                }
            } else {
                held_return = false;
                push_char(&mut current, c);
                proof {
                    assert(line + held + (seq![c] + rest) =~= current@ + Seq::<char>::empty()
                        + rest);
                }
            }
        }
    }
    proof {
        assert(all.skip(all.len() as int) =~= Seq::<char>::empty());
    }
    let ghost line = current@;
    let ghost held = if held_return {
        seq!['\r']
    } else {
        Seq::<char>::empty()
    };
    let ghost so_far = texts_view(lines@);
    if held_return {
        push_char(&mut current, '\r');
    }
    proof {
        assert(line + held + Seq::<char>::empty() =~= current@);
        lemma_no_line_feed(current@);
    }
    if !current.as_str().is_empty() {
        proof {
            assert(texts_view(lines@.push(current)) =~= so_far + seq![current@]);
        }
        lines.push(current);
    } else {
        proof {
            assert(so_far + Seq::<Seq<char>>::empty() =~= so_far);
        }
    }
    lines
}

/// The words of a text: its longest runs of characters that are no white
/// space, in their order.
pub open spec fn words_of(text: Seq<char>) -> Seq<Seq<char>>
    decreases text.len(),
{
    if text.len() == 0 {
        Seq::empty()
    } else {
        let before = words_of(text.drop_last());
        if is_whitespace(text.last()) {
            before
        } else if text.len() >= 2 && !is_whitespace(text[text.len() - 2]) && before.len() > 0 {
            before.drop_last().push(before.last().push(text.last()))
        } else {
            before.push(seq![text.last()])
        }
    }
}

/// The words of a text.
pub fn split_words(text: &str) -> (r: Vec<String>)
    ensures
        texts_view(r@) == words_of(text@),
{
    let ghost all = text@;
    let mut words: Vec<String> = Vec::new();
    let mut current = String::new();
    let mut in_word = false;
    proof {
        assert(all.take(0) =~= Seq::<char>::empty());
        assert(texts_view(words@) =~= Seq::<Seq<char>>::empty());
        assert(Seq::<Seq<char>>::empty() + Seq::<Seq<char>>::empty() =~= Seq::<
            Seq<char>,
        >::empty());
    }
    for c in it: text.chars()
        invariant
            it.seq() == all,
            in_word == (it.index() > 0 && !is_whitespace(all[it.index() - 1])),
            words_of(all.take(it.index() as int)) == texts_view(words@) + (if in_word {
                seq![current@]
            } else {
                Seq::<Seq<char>>::empty()
            }),
    {
        let ghost done = texts_view(words@);
        let ghost word = current@;
        let ghost open = in_word;
        proof {
            let next = all.take(it.index() + 1);
            assert(next.drop_last() =~= all.take(it.index() as int));
            assert(next.last() == c);
            if it.index() > 0 {
                assert(next[next.len() - 2] == all[it.index() - 1]);
            }
        }
        if whitespace(c) {
            if in_word {
                proof {
                    assert(texts_view(words@.push(current)) =~= done + seq![word]);
                    assert(done + seq![word] + Seq::<Seq<char>>::empty() =~= done + seq![word]);
                }
                words.push(current);
                current = String::new();
                in_word = false;
            }
        } else {
            if !in_word {
                current = String::new();
            }
            push_char(&mut current, c);
            in_word = true;
            proof {
                if open {
                    assert((done + seq![word]).drop_last() =~= done);
                    assert(done.push(word.push(c)) =~= done + seq![current@]);
                } else {
                    assert(done + Seq::<Seq<char>>::empty() =~= done);
                    assert(Seq::<char>::empty().push(c) =~= seq![c]);
                    assert(done.push(seq![c]) =~= done + seq![current@]);
                }
            }
        }
    }
    proof {
        assert(all.take(all.len() as int) =~= all);
    }
    if in_word {
        proof {
            assert(texts_view(words@.push(current)) =~= texts_view(words@) + seq![current@]);
        }
        words.push(current);
    } else {
        proof {
            assert(texts_view(words@) + Seq::<Seq<char>>::empty() =~= texts_view(words@));
        }
    }
    words
}

} // verus!
