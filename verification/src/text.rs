//! Text: its lines, and the first occurrence of a separator in it.

use vstd::prelude::*;
use vstd::utf8::{encode_scalar, encode_utf8, valid_utf8};

verus! {

/// `std::string::FromUtf8Error`, which `String::from_utf8` returns for bytes
/// that are not UTF-8.
#[verifier::external_type_specification]
#[verifier::external_body]
pub struct ExFromUtf8Error(std::string::FromUtf8Error);

/// `String::from_utf8` succeeds exactly on well-formed UTF-8, and the string it
/// returns is made of the very bytes it was given.
pub assume_specification[ std::string::String::from_utf8 ](bytes: Vec<u8>) -> (text: Result<
    std::string::String,
    std::string::FromUtf8Error,
>)
    ensures
        text is Ok <==> valid_utf8(bytes@),
        text is Ok ==> encode_utf8(text->Ok_0@) == bytes@,
;

/// `String::push` appends the character to the end of the string.
pub assume_specification[ std::string::String::push ](text: &mut std::string::String, c: char)
    ensures
        final(text)@ == old(text)@.push(c),
;

/// `String::pop` removes the last character and returns it, or returns `None`
/// and leaves an empty string as it is.
pub assume_specification[ std::string::String::pop ](text: &mut std::string::String) -> (last:
    Option<char>)
    ensures
        old(text)@.len() == 0 ==> last is None && final(text)@ == old(text)@,
        old(text)@.len() > 0 ==> last == Some(old(text)@.last()) && final(text)@ == old(
            text,
        )@.drop_last(),
;

/// The index of the first line feed in `text`, or the length of `text` if it
/// holds none.
pub open spec fn line_end(text: Seq<char>) -> int
    decreases text.len(),
{
    if text.len() == 0 || text[0] == '\n' {
        0
    } else {
        1 + line_end(text.skip(1))
    }
}

/// `line` without the carriage return that ends it, if one does.
pub open spec fn without_cr(line: Seq<char>) -> Seq<char> {
    if line.len() > 0 && line.last() == '\r' {
        line.drop_last()
    } else {
        line
    }
}

/// The lines of `text`. A line ends at a line feed, or at a carriage return
/// directly followed by one; neither belongs to the line. What follows the last
/// line feed is a line of its own unless it is empty, and it keeps a carriage
/// return at its end.
pub open spec fn lines_of(text: Seq<char>) -> Seq<Seq<char>>
    decreases text.len(),
{
    if text.len() == 0 {
        Seq::empty()
    } else {
        let end = line_end(text);
        if 0 <= end < text.len() {
            seq![without_cr(text.take(end))] + lines_of(text.skip(end + 1))
        } else {
            seq![text]
        }
    }
}

/// `lines` joined by single line feeds, with none after the last line.
pub open spec fn joined(lines: Seq<Seq<char>>) -> Seq<char>
    decreases lines.len(),
{
    if lines.len() == 0 {
        Seq::empty()
    } else if lines.len() == 1 {
        lines[0]
    } else {
        joined(lines.drop_last()).push('\n') + lines.last()
    }
}

/// `lines`, each followed by a line feed.
pub open spec fn terminated(lines: Seq<Seq<char>>) -> Seq<char>
    decreases lines.len(),
{
    if lines.len() == 0 {
        Seq::empty()
    } else {
        terminated(lines.drop_last()) + lines.last().push('\n')
    }
}

/// `line` can be a line of a text: it holds no line feed, and no carriage
/// return ends it.
pub open spec fn is_line(line: Seq<char>) -> bool {
    &&& forall|j: int| 0 <= j < line.len() ==> line[j] != '\n'
    &&& !(line.len() > 0 && line.last() == '\r')
}

/// `pattern` stands in `text` at index `at`.
pub open spec fn occurs_at(text: Seq<char>, pattern: Seq<char>, at: int) -> bool {
    &&& 0 <= at
    &&& at + pattern.len() <= text.len()
    &&& text.subrange(at, at + pattern.len()) == pattern
}

/// `at` is the least index at which `pattern` stands in `text`.
pub open spec fn is_first_occurrence(text: Seq<char>, pattern: Seq<char>, at: int) -> bool {
    &&& occurs_at(text, pattern, at)
    &&& forall|earlier: int| 0 <= earlier < at ==> !occurs_at(text, pattern, earlier)
}

/// `text` split at the first occurrence of `separator`: what stands before it
/// and what stands after it, or `None` where `separator` does not occur.
pub open spec fn split_at_first(text: Seq<char>, separator: Seq<char>) -> Option<
    (Seq<char>, Seq<char>),
> {
    if exists|at: int| occurs_at(text, separator, at) {
        let at = choose|at: int| is_first_occurrence(text, separator, at);
        Some((text.take(at), text.skip(at + separator.len())))
    } else {
        None
    }
}

/// A first line feed, or the end of a text without one, is where `line_end`
/// points.
pub proof fn lemma_line_end(text: Seq<char>, end: int)
    requires
        0 <= end <= text.len(),
        forall|j: int| 0 <= j < end ==> text[j] != '\n',
        end == text.len() || text[end] == '\n',
    ensures
        line_end(text) == end,
    decreases text.len(),
{
    if text.len() != 0 && text[0] != '\n' {
        let rest = text.skip(1);
        assert forall|j: int| 0 <= j < end - 1 implies rest[j] != '\n' by {
            assert(rest[j] == text[j + 1]);
        }
        lemma_line_end(rest, end - 1);
    }
}

/// `line_end` points at the first line feed of a text, or at the end of a text
/// without one.
pub proof fn lemma_line_end_is_first_feed(text: Seq<char>)
    ensures
        0 <= line_end(text) <= text.len(),
        forall|j: int| 0 <= j < line_end(text) ==> text[j] != '\n',
        line_end(text) < text.len() ==> text[line_end(text)] == '\n',
    decreases text.len(),
{
    if text.len() != 0 && text[0] != '\n' {
        let rest = text.skip(1);
        lemma_line_end_is_first_feed(rest);
        assert forall|j: int| 0 <= j < line_end(text) implies text[j] != '\n' by {
            if j > 0 {
                assert(text[j] == rest[j - 1]);
            }
        }
    }
}

/// Joining a line and further lines: the line, and after a line feed the
/// further lines, joined, if there are any.
pub proof fn lemma_joined_after_first(first: Seq<char>, rest: Seq<Seq<char>>)
    ensures
        joined(seq![first] + rest) == (if rest.len() == 0 {
            first
        } else {
            first.push('\n') + joined(rest)
        }),
    decreases rest.len(),
{
    let all = seq![first] + rest;
    if rest.len() == 0 {
        assert(all[0] == first);
    } else {
        let front = rest.drop_last();
        lemma_joined_after_first(first, front);
        assert(all.drop_last() =~= seq![first] + front);
        assert(all.last() == rest.last());
        if front.len() == 0 {
            assert(rest[0] == rest.last());
        }
        assert(joined(all) =~= first.push('\n') + joined(rest));
    }
}

/// `text` without the line feed that ends it, if one does.
pub open spec fn without_last_feed(text: Seq<char>) -> Seq<char> {
    if text.len() > 0 && text.last() == '\n' {
        text.drop_last()
    } else {
        text
    }
}

/// A carriage return stands in `text` at index `at`, directly before a line
/// feed.
pub open spec fn crlf_at(text: Seq<char>, at: int) -> bool {
    0 <= at < text.len() - 1 && text[at] == '\r' && text[at + 1] == '\n'
}

/// Splitting a text into lines and joining them again loses nothing but the
/// line feed that ends the text, provided that no carriage return stands
/// directly before a line feed.
pub proof fn lemma_joined_lines(text: Seq<char>)
    requires
        forall|at: int| !crlf_at(text, at),
    ensures
        joined(lines_of(text)) == without_last_feed(text),
    decreases text.len(),
{
    if text.len() > 0 {
        let end = line_end(text);
        lemma_line_end_is_first_feed(text);
        if end < text.len() {
            let first = text.take(end);
            let rest = text.skip(end + 1);
            if end > 0 {
                assert(first.last() == text[end - 1]);
                assert(!crlf_at(text, end - 1));
            }
            assert(without_cr(first) == first);
            assert forall|at: int| !crlf_at(rest, at) by {
                if crlf_at(rest, at) {
                    assert(crlf_at(text, end + 1 + at));
                }
            }
            lemma_joined_lines(rest);
            lemma_joined_after_first(first, lines_of(rest));
            if rest.len() == 0 {
                assert(first =~= text.drop_last());
            } else {
                assert(text.last() == rest.last());
                assert(first.push('\n') + without_last_feed(rest) =~= without_last_feed(text));
            }
        } else {
            assert(text.last() != '\n');
        }
    }
}

/// Lines that are each followed by a line feed are the lines joined by line
/// feeds, and one line feed more where there is a line at all.
pub proof fn lemma_terminated_is_joined(lines: Seq<Seq<char>>)
    ensures
        terminated(lines) == (if lines.len() == 0 {
            Seq::empty()
        } else {
            joined(lines).push('\n')
        }),
    decreases lines.len(),
{
    if lines.len() > 0 {
        let front = lines.drop_last();
        lemma_terminated_is_joined(front);
        if front.len() == 0 {
            assert(lines.last() == lines[0]);
            assert(terminated(lines) =~= joined(lines).push('\n'));
        } else {
            assert(terminated(lines) =~= joined(lines).push('\n'));
        }
    }
}

/// A line and further lines, each followed by a line feed: the line and its
/// line feed come first.
pub proof fn lemma_terminated_after_first(first: Seq<char>, rest: Seq<Seq<char>>)
    ensures
        terminated(seq![first] + rest) == first.push('\n') + terminated(rest),
    decreases rest.len(),
{
    let all = seq![first] + rest;
    if rest.len() == 0 {
        assert(all.last() == first);
        assert(terminated(all.drop_last()) =~= Seq::<char>::empty());
        assert(terminated(all) =~= first.push('\n') + terminated(rest));
    } else {
        lemma_terminated_after_first(first, rest.drop_last());
        assert(all.drop_last() =~= seq![first] + rest.drop_last());
        assert(all.last() == rest.last());
        assert(terminated(all) =~= first.push('\n') + terminated(rest));
    }
}

/// Lines that were each followed by a line feed are the lines of the text
/// so made.
pub proof fn lemma_lines_of_terminated(lines: Seq<Seq<char>>)
    requires
        forall|i: int| 0 <= i < lines.len() ==> is_line(#[trigger] lines[i]),
    ensures
        lines_of(terminated(lines)) == lines,
    decreases lines.len(),
{
    if lines.len() > 0 {
        let first = lines[0];
        let rest = lines.drop_first();
        assert(lines =~= seq![first] + rest);
        lemma_terminated_after_first(first, rest);
        let text = terminated(lines);
        assert(is_line(first));
        assert(text[first.len() as int] == '\n');
        assert forall|j: int| 0 <= j < first.len() implies text[j] != '\n' by {
            assert(text[j] == first[j]);
        }
        lemma_line_end(text, first.len() as int);
        assert(text.take(first.len() as int) =~= first);
        assert(text.skip(first.len() as int + 1) =~= terminated(rest));
        assert forall|i: int| 0 <= i < rest.len() implies is_line(#[trigger] rest[i]) by {
            assert(rest[i] == lines[i + 1]);
        }
        lemma_lines_of_terminated(rest);
    }
}

/// The bytes of two texts, one after the other, are the bytes of the two
/// texts put together.
pub proof fn lemma_encode_utf8_concat(front: Seq<char>, back: Seq<char>)
    ensures
        encode_utf8(front + back) == encode_utf8(front) + encode_utf8(back),
    decreases front.len(),
{
    if front.len() == 0 {
        assert(front + back =~= back);
        assert(encode_utf8(front) + encode_utf8(back) =~= encode_utf8(back));
    } else {
        lemma_encode_utf8_concat(front.drop_first(), back);
        assert((front + back).drop_first() =~= front.drop_first() + back);
        assert(encode_utf8(front + back) =~= encode_utf8(front) + encode_utf8(back));
    }
}

/// A line feed is the one byte 10.
pub proof fn lemma_encode_line_feed()
    ensures
        encode_utf8(seq!['\n']) == seq![0x0Au8],
{
    let feed = seq!['\n'];
    assert((0x0Au32 & 0x7F) as u8 == 0x0Au8) by (bit_vector);
    assert(feed[0] as u32 == 0x0Au32);
    assert(encode_scalar(0x0Au32) =~= seq![0x0Au8]);
    assert(encode_utf8(feed.drop_first()) =~= Seq::<u8>::empty());
    assert(encode_utf8(feed) =~= seq![0x0Au8]);
}

/// Where the separator occurs at all, it occurs somewhere first.
pub proof fn lemma_first_occurrence_exists(text: Seq<char>, separator: Seq<char>, at: int)
    requires
        occurs_at(text, separator, at),
    ensures
        exists|first: int| is_first_occurrence(text, separator, first),
    decreases at,
{
    if exists|earlier: int| 0 <= earlier < at && occurs_at(text, separator, earlier) {
        let earlier = choose|earlier: int|
            0 <= earlier < at && occurs_at(text, separator, earlier);
        lemma_first_occurrence_exists(text, separator, earlier);
    } else {
        assert(is_first_occurrence(text, separator, at));
    }
}

/// What `split_at_first` returns makes up the text again, with the separator
/// in between, and the cut is where the separator first occurs: what follows
/// it is left as it is, further separators included.
pub proof fn lemma_split_parts(text: Seq<char>, separator: Seq<char>)
    requires
        split_at_first(text, separator) is Some,
    ensures
        ({
            let (before, after) = split_at_first(text, separator)->0;
            &&& before + separator + after == text
            &&& is_first_occurrence(text, separator, before.len() as int)
        }),
{
    let at = choose|at: int| occurs_at(text, separator, at);
    lemma_first_occurrence_exists(text, separator, at);
    let first = choose|first: int| is_first_occurrence(text, separator, first);
    assert(text.take(first) + separator + text.skip(first + separator.len()) =~= text) by {
        assert(text.subrange(first, first + separator.len()) == separator);
    }
}

/// There is at most one first occurrence, and `split_at_first` cuts there.
pub proof fn lemma_split_at_first(text: Seq<char>, separator: Seq<char>, at: int)
    requires
        is_first_occurrence(text, separator, at),
    ensures
        split_at_first(text, separator) == Some(
            (text.take(at), text.skip(at + separator.len())),
        ),
{
    let chosen = choose|at: int| is_first_occurrence(text, separator, at);
    assert(is_first_occurrence(text, separator, chosen));
    if chosen < at {
        assert(!occurs_at(text, separator, chosen));
    }
    if at < chosen {
        assert(!occurs_at(text, separator, at));
    }
}

/// The characters of `text`, one by one.
pub fn chars_of(text: &str) -> (chars: Vec<char>)
    ensures
        chars@ == text@,
{
    let mut chars: Vec<char> = Vec::new();
    for c in it: text.chars()
        invariant
            it.seq() == text@,
            chars@ == text@.take(it.index() as int),
    {
        chars.push(c);
        assert(chars@ =~= text@.take(it.index() + 1));
    }
    assert(chars@ =~= text@);
    chars
}

/// The characters of `chars` from index `from` up to `to`, as a string.
fn string_of(chars: &Vec<char>, from: usize, to: usize) -> (text: String)
    requires
        from <= to <= chars.len(),
    ensures
        text@ == chars@.subrange(from as int, to as int),
{
    let mut text = String::new();
    let mut i: usize = from;
    while i < to
        invariant
            from <= i <= to <= chars.len(),
            text@ == chars@.subrange(from as int, i as int),
        decreases to - i,
    {
        text.push(chars[i]);
        assert(text@ =~= chars@.subrange(from as int, i + 1));
        i += 1;
    }
    text
}

/// Whether `pattern` stands in `text` at index `at`.
fn stands_at(text: &Vec<char>, pattern: &Vec<char>, at: usize) -> (found: bool)
    requires
        at + pattern.len() <= text.len(),
    ensures
        found == occurs_at(text@, pattern@, at as int),
{
    let mut k: usize = 0;
    while k < pattern.len()
        invariant
            k <= pattern.len(),
            at + pattern.len() <= text.len(),
            forall|j: int| 0 <= j < k ==> text[at + j] == pattern[j],
        decreases pattern.len() - k,
    {
        if text[at + k] != pattern[k] {
            assert(text@.subrange(at as int, at + pattern.len())[k as int] == text[at + k]);
            return false;
        }
        k += 1;
    }
    assert(text@.subrange(at as int, at + pattern.len()) =~= pattern@);
    true
}

/// The least index at which `pattern` stands in `text`, if it stands anywhere.
pub fn find(text: &Vec<char>, pattern: &Vec<char>) -> (found: Option<usize>)
    ensures
        match found {
            Some(at) => is_first_occurrence(text@, pattern@, at as int),
            None => forall|at: int| !occurs_at(text@, pattern@, at),
        },
{
    if pattern.len() > text.len() {
        return None;
    }
    let last: usize = text.len() - pattern.len();
    let mut at: usize = 0;
    loop
        invariant
            at <= last,
            last == text.len() - pattern.len(),
            forall|earlier: int| 0 <= earlier < at ==> !occurs_at(text@, pattern@, earlier),
        decreases last - at,
    {
        if stands_at(text, pattern, at) {
            return Some(at);
        }
        if at == last {
            return None;
        }
        at += 1;
    }
}

/// Splits `text` at the first occurrence of `separator`, which goes to neither
/// part. An empty separator occurs at the very start.
pub fn split_once(text: &str, separator: &str) -> (parts: Option<(String, String)>)
    ensures
        match parts {
            Some((before, after)) => split_at_first(text@, separator@) == Some(
                (before@, after@),
            ),
            None => split_at_first(text@, separator@) is None,
        },
{
    let chars = chars_of(text);
    let pattern = chars_of(separator);
    match find(&chars, &pattern) {
        Some(at) => {
            proof {
                assert(occurs_at(chars@, pattern@, at as int));
                assert(at + pattern.len() <= chars.len());
                lemma_split_at_first(text@, separator@, at as int);
            }
            let before = string_of(&chars, 0, at);
            let after = string_of(&chars, at + pattern.len(), chars.len());
            Some((before, after))
        },
        None => None,
    }
}

/// Splits `text` into its lines.
pub fn split_lines(text: &str) -> (lines: Vec<String>)
    ensures
        lines.deep_view() == lines_of(text@),
{
    let mut lines: Vec<String> = Vec::new();
    let mut line = String::new();
    let mut after_cr = false;
    let ghost mut start: int = 0;
    assert(lines.deep_view() + lines_of(text@.skip(0)) =~= lines_of(text@)) by {
        assert(text@.skip(0) =~= text@);
    }
    for c in it: text.chars()
        invariant
            it.seq() == text@,
            0 <= start <= it.index(),
            line@ == text@.subrange(start, it.index() as int),
            forall|j: int| start <= j < it.index() ==> text@[j] != '\n',
            after_cr == (line@.len() > 0 && line@.last() == '\r'),
            lines_of(text@) == lines.deep_view() + lines_of(text@.skip(start)),
    {
        let ghost at = it.index() as int;
        if c == '\n' {
            proof {
                let rest = text@.skip(start);
                assert forall|j: int| 0 <= j < at - start implies rest[j] != '\n' by {
                    assert(rest[j] == text@[start + j]);
                }
                lemma_line_end(rest, at - start);
                assert(rest.take(at - start) =~= line@);
                assert(rest.skip(at - start + 1) =~= text@.skip(at + 1));
            }
            if after_cr {
                line.pop();
            }
            let ghost before = lines.deep_view();
            lines.push(line);
            assert(lines.deep_view() =~= before.push(line@));
            assert(before + (seq![line@] + lines_of(text@.skip(at + 1))) =~= before.push(line@)
                + lines_of(text@.skip(at + 1)));
            line = String::new();
            after_cr = false;
            proof {
                start = at + 1;
            }
            assert(line@ =~= text@.subrange(start, at + 1));
        } else {
            line.push(c);
            after_cr = c == '\r';
            assert(line@ =~= text@.subrange(start, at + 1));
        }
    }
    let ghost rest = text@.skip(start);
    assert(rest =~= line@);
    if !line.as_str().is_empty() {
        proof {
            assert forall|j: int| 0 <= j < rest.len() implies rest[j] != '\n' by {
                assert(rest[j] == text@[start + j]);
            }
            lemma_line_end(rest, rest.len() as int);
        }
        let ghost before = lines.deep_view();
        lines.push(line);
        assert(lines.deep_view() =~= before.push(rest));
        assert(before + seq![rest] =~= before.push(rest));
    } else {
        assert(lines.deep_view() + lines_of(rest) =~= lines.deep_view());
    }
    lines
}

} // verus!
