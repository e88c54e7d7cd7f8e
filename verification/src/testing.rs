//! An input stream held in memory.

use crate::text::{lemma_encode_line_feed, lemma_encode_utf8_concat, terminated};
use crate::ReadError;
use vstd::math::min;
use vstd::prelude::*;
use vstd::slice::{slice_subrange, slice_to_vec};
use vstd::std_specs::convert::FromSpecImpl;
use vstd::string::StringExecFns;
use vstd::utf8::{decode_utf8, encode_utf8, encode_utf8_decode_utf8, valid_utf8};

verus! {

/// What an in-memory input is made from.
pub enum TestInput {
    /// One line, which gets no line feed.
    OneLine(String),
    /// Lines, each of which gets a line feed.
    MultipleLines(Vec<String>),
}

impl TestInput {
    /// The text that a buffer made from this input holds: the one line as it
    /// is, with no line feed added, or each of the lines followed by a line
    /// feed.
    pub open spec fn text(self) -> Seq<char> {
        match self {
            TestInput::OneLine(line) => line@,
            TestInput::MultipleLines(lines) => terminated(lines.deep_view()),
        }
    }
}

/// An input stream held in memory: the bytes and how many of them were read.
pub struct TestBuffer {
    buffer: Vec<u8>,
    index: usize,
}

impl View for TestBuffer {
    type V = Seq<u8>;

    /// The bytes that are still to be read.
    closed spec fn view(&self) -> Seq<u8> {
        self.buffer@.skip(self.index as int)
    }
}

impl TestBuffer {
    /// No more bytes were read than there are.
    #[verifier::type_invariant]
    spec fn in_bounds(self) -> bool {
        self.index <= self.buffer.len()
    }

    /// A stream with nothing to read.
    pub fn empty() -> (buffer: Self)
        ensures
            buffer@.len() == 0,
    {
        Self { buffer: Vec::new(), index: 0 }
    }

    /// A stream that holds `line` as it is, with no line feed after it.
    pub fn one_line(line: String) -> (buffer: Self)
        ensures
            buffer@ == encode_utf8(line@),
    {
        Self::from(TestInput::OneLine(line))
    }

    /// A stream that holds `lines`, each followed by a line feed.
    pub fn multiple_lines(lines: Vec<String>) -> (buffer: Self)
        ensures
            buffer@ == encode_utf8(terminated(lines.deep_view())),
    {
        Self::from(TestInput::MultipleLines(lines))
    }

    /// A stream that holds `bytes`, none of them read yet.
    pub fn from_bytes(bytes: Vec<u8>) -> (buffer: Self)
        ensures
            buffer@ == bytes@,
    {
        Self { buffer: bytes, index: 0 }
    }

    /// The unread bytes, none of them consumed.
    pub fn fill_buf(&self) -> (unread: &[u8])
        ensures
            unread@ == self@,
    {
        proof {
            use_type_invariant(self);
        }
        slice_subrange(self.buffer.as_slice(), self.index, self.buffer.len())
    }

    /// Marks the first `amt` unread bytes as read.
    pub fn consume(&mut self, amt: usize)
        requires
            amt <= old(self)@.len(),
        ensures
            final(self)@ == old(self)@.skip(amt as int),
    {
        proof {
            use_type_invariant(&*self);
        }
        self.index += amt;
        assert(self.buffer@.skip(self.index as int) =~= old(self).buffer@.skip(
            old(self).index as int,
        ).skip(amt as int));
    }

    /// Copies unread bytes to the start of `buf`, as many as there are and as
    /// fit, and marks them as read.
    pub fn read(&mut self, buf: &mut [u8]) -> (copied: usize)
        ensures
            copied == min(old(buf)@.len() as int, old(self)@.len() as int),
            final(buf)@ == old(self)@.take(copied as int) + old(buf)@.skip(copied as int),
            final(self)@ == old(self)@.skip(copied as int),
    {
        proof {
            use_type_invariant(&*self);
        }
        let len = buf.len();
        let remaining = self.buffer.len() - self.index;
        let copy_len = if len > remaining { remaining } else { len };
        let mut i: usize = 0;
        while i < copy_len
            invariant
                i <= copy_len,
                copy_len <= old(buf)@.len(),
                self.index + copy_len <= self.buffer.len(),
                buf@ == old(self)@.take(i as int) + old(buf)@.skip(i as int),
                *self == *old(self),
            decreases copy_len - i,
        {
            buf[i] = self.buffer[self.index + i];
            i += 1;
        }
        self.index += copy_len;
        copy_len
    }

    /// Reads all that is left and appends it to `buf` as text. Bytes that are
    /// not UTF-8 are read all the same, and `buf` stays as it was.
    pub fn read_to_string(&mut self, buf: &mut String) -> (read: Result<usize, ReadError>)
        ensures
            final(self)@.len() == 0,
            match read {
                Ok(count) => {
                    &&& valid_utf8(old(self)@)
                    &&& count == old(self)@.len()
                    &&& final(buf)@ == old(buf)@ + decode_utf8(old(self)@)
                },
                Err(error) => {
                    &&& !valid_utf8(old(self)@)
                    &&& error == ReadError::InvalidData
                    &&& final(buf)@ == old(buf)@
                },
            },
    {
        let unread = self.fill_buf();
        let count = unread.len();
        let bytes = slice_to_vec(unread);
        self.consume(count);
        match String::from_utf8(bytes) {
            Ok(text) => {
                proof {
                    encode_utf8_decode_utf8(text@);
                }
                buf.append(text.as_str());
                Ok(count)
            },
            Err(_) => Err(ReadError::InvalidData),
        }
    }
}

impl From<TestInput> for TestBuffer {
    /// A stream that holds the text of `input` as UTF-8, none of it read yet.
    fn from(input: TestInput) -> (buffer: Self)
        ensures
            buffer@ == encode_utf8(input.text()),
    {
        let mut buffer: Vec<u8> = Vec::new();
        match input {
            TestInput::OneLine(line) => buffer.extend_from_slice(line.as_str().as_bytes()),
            TestInput::MultipleLines(lines) => {
                let mut i: usize = 0;
                while i < lines.len()
                    invariant
                        i <= lines.len(),
                        buffer@ == encode_utf8(terminated(lines.deep_view().take(i as int))),
                    decreases lines.len() - i,
                {
                    let ghost before = buffer@;
                    buffer.extend_from_slice(lines[i].as_str().as_bytes());
                    buffer.push(0x0Au8);
                    proof {
                        let all = lines.deep_view();
                        let line = lines[i as int]@;
                        assert(all.take(i + 1).drop_last() =~= all.take(i as int));
                        assert(all.take(i + 1).last() == line);
                        lemma_encode_line_feed();
                        lemma_encode_utf8_concat(line, seq!['\n']);
                        lemma_encode_utf8_concat(terminated(all.take(i as int)), line.push('\n'));
                        assert(line.push('\n') =~= line + seq!['\n']);
                        assert(buffer@ =~= before + (encode_utf8(line) + seq![0x0Au8]));
                    }
                    i += 1;
                }
                assert(lines.deep_view().take(i as int) =~= lines.deep_view());
            },
        }
        let made = Self { buffer, index: 0 };
        assert(made@ =~= encode_utf8(input.text()));
        made
    }
}

/// Two buffers may hold the same unread bytes and yet differ, so `from_spec`
/// names no more than some buffer with the bytes of the input; what `from`
/// returns is stated by its own `ensures`.
impl FromSpecImpl<TestInput> for TestBuffer {
    open spec fn obeys_from_spec() -> bool {
        false
    }

    open spec fn from_spec(input: TestInput) -> Self {
        choose|buffer: Self| buffer@ == encode_utf8(input.text())
    }
}

} // verus!
