//! Builds one JSON value, an array, an object or a string, from command line
//! arguments or from the lines of an input stream, and writes it as text.
//!
//! The arguments arrive parsed, and the input stream as bytes held in memory;
//! what is returned is the text to write. JSON itself is read and written by
//! `serde_json`.

use vstd::prelude::*;
use vstd::utf8::{
    decode_utf8, encode_utf8, encode_utf8_decode_utf8, encode_utf8_valid_utf8, valid_utf8,
};

pub mod arrays;
pub mod cli;
pub mod json;
pub mod objects;
pub mod strings;
pub mod testing;
pub mod text;

use crate::testing::TestBuffer;
use crate::text::{
    crlf_at, is_line, joined, lemma_joined_lines, lemma_lines_of_terminated,
    lemma_terminated_is_joined, lines_of, terminated, without_last_feed,
};

verus! {

/// Why an input stream could not be read as text.
#[derive(Clone, Copy, Debug, PartialEq, Eq, Structural)]
pub enum ReadError {
    /// The stream holds bytes that are not UTF-8.
    InvalidData,
}

impl ReadError {
    /// The error in words.
    pub fn message(&self) -> (text: String)
        ensures
            text@ == "stream did not contain valid UTF-8"@,
    {
        "stream did not contain valid UTF-8".to_owned()
    }
}

/// The text that `read_all` makes of a stream that holds `input`: all of it
/// but the line feed that ends it, if one does. Every other character stays,
/// carriage returns and further line feeds too. `None` where `input` is not
/// UTF-8.
pub open spec fn text_read(input: Seq<u8>) -> Option<Seq<char>> {
    if valid_utf8(input) {
        Some(without_last_feed(decode_utf8(input)))
    } else {
        None
    }
}

/// Reads `input` to its end and returns its text without the line feed that
/// ends the last line. Nothing else is lost: the lines of the stream stand in
/// the text as they came, with the line feeds between them.
pub fn read_all(input: &mut TestBuffer) -> (text: Result<String, ReadError>)
    ensures
        final(input)@.len() == 0,
        match text {
            Ok(text) => text_read(old(input)@) == Some(text@),
            Err(error) => text_read(old(input)@) is None && error == ReadError::InvalidData,
        },
{
    let mut buffer = String::new();
    input.read_to_string(&mut buffer)?;
    let ghost source = buffer@;
    // Remove the final line feed, and nothing but a line feed.
    match buffer.pop() {
        Some(last) => {
            if last != '\n' {
                buffer.push(last);
                assert(buffer@ =~= source);
            }
        },
        None => {},
    }
    Ok(buffer)
}

/// The raw values that a command works on: none with `empty`, whatever else
/// is set; else, with `from_stdin`, the lines of the input stream, or `None`
/// where `input` is not UTF-8; else the values `inline`, in their order.
pub open spec fn raw_values(
    empty: bool,
    from_stdin: bool,
    inline: Seq<Seq<char>>,
    input: Seq<u8>,
) -> Option<Seq<Seq<char>>> {
    if empty {
        Some(Seq::empty())
    } else if from_stdin {
        if valid_utf8(input) {
            Some(lines_of(decode_utf8(input)))
        } else {
            None
        }
    } else {
        Some(inline)
    }
}

/// A stream that was made of lines, each followed by a line feed, gives the
/// lines back one by one where the values of a command are read from it.
pub proof fn lemma_lines_read_back(lines: Seq<Seq<char>>, inline: Seq<Seq<char>>)
    requires
        forall|i: int| 0 <= i < lines.len() ==> is_line(#[trigger] lines[i]),
    ensures
        raw_values(false, true, inline, encode_utf8(terminated(lines))) == Some(lines),
{
    let text = terminated(lines);
    encode_utf8_valid_utf8(text);
    encode_utf8_decode_utf8(text);
    lemma_lines_of_terminated(lines);
}

/// A stream that was made of lines, each followed by a line feed, read as one
/// text gives the lines joined by line feeds, with none after the last:
/// whatever the lines hold.
pub proof fn lemma_text_read_back(lines: Seq<Seq<char>>)
    ensures
        text_read(encode_utf8(terminated(lines))) == Some(joined(lines)),
{
    let text = terminated(lines);
    encode_utf8_valid_utf8(text);
    encode_utf8_decode_utf8(text);
    lemma_terminated_is_joined(lines);
    if lines.len() > 0 {
        assert(joined(lines).push('\n').drop_last() =~= joined(lines));
    }
}

/// A stream that was made of one text, read as one text, gives the text back
/// without the line feed that ends it, and so the very text where none does.
pub proof fn lemma_one_line_read_back(line: Seq<char>)
    ensures
        text_read(encode_utf8(line)) == Some(without_last_feed(line)),
{
    encode_utf8_valid_utf8(line);
    encode_utf8_decode_utf8(line);
}

/// Where no carriage return stands directly before a line feed, the text that
/// is read is the lines of the stream, as the commands that read values see
/// them, joined by line feeds.
pub proof fn lemma_text_read_joins_lines(input: Seq<u8>)
    requires
        valid_utf8(input),
        forall|at: int| !crlf_at(decode_utf8(input), at),
    ensures
        text_read(input) == Some(joined(lines_of(decode_utf8(input)))),
{
    lemma_joined_lines(decode_utf8(input));
}

/// Something that yields a value of type `T`, from what it holds or from an
/// input stream.
pub trait ValueReader<T: DeepView> {
    /// Whether `value` reads the input stream. A stream that is read is read to
    /// its end.
    spec fn reads_input(&self) -> bool;

    /// What `value` yields on a stream that holds `input`, or `None` where it
    /// reads the stream and `input` is not UTF-8.
    spec fn value_on(&self, input: Seq<u8>) -> Option<T::V>;

    /// Yields the value, reading `alt_input` where `reads_input` says so and
    /// leaving it alone where not.
    fn value(&self, alt_input: &mut TestBuffer) -> (value: Result<T, ReadError>)
        ensures
            final(alt_input)@ == (if self.reads_input() {
                Seq::empty()
            } else {
                old(alt_input)@
            }),
            match value {
                Ok(value) => self.value_on(old(alt_input)@) == Some(value.deep_view()),
                Err(error) => self.value_on(old(alt_input)@) is None && error
                    == ReadError::InvalidData,
            },
    ;
}

} // verus!
