//! The `string` command: one text, as a JSON string.

use crate::json::{string_value, Json, JsonValueCommand};
use crate::testing::TestBuffer;
use crate::{read_all, text_read, ReadError, ValueReader};
use vstd::prelude::*;

verus! {

/// What the `string` command was given.
#[derive(Clone, Debug)]
pub struct StringArgs {
    /// Value to wrap in a JSON string
    pub value: Option<String>,
    /// Read value from standard input.
    pub from_stdin: bool,
}

impl ValueReader<String> for StringArgs {
    open spec fn reads_input(&self) -> bool {
        self.from_stdin
    }

    open spec fn value_on(&self, input: Seq<u8>) -> Option<Seq<char>> {
        if self.from_stdin {
            text_read(input)
        } else {
            match self.value {
                Some(value) => Some(value@),
                None => Some(Seq::empty()),
            }
        }
    }

    fn value(&self, alt_input: &mut TestBuffer) -> (value: Result<String, ReadError>) {
        if self.from_stdin {
            read_all(alt_input)
        } else {
            match &self.value {
                Some(value) => Ok(value.clone()),
                None => Ok(String::new()),
            }
        }
    }
}

impl JsonValueCommand for StringArgs {
    open spec fn needs_input(&self) -> bool {
        self.value is None && self.from_stdin
    }

    /// The value given inline, as it is; without one, whatever `value` yields.
    /// Either way a string, and never a literal read from it.
    open spec fn json_on(&self, input: Seq<u8>) -> Option<Json> {
        match self.value {
            Some(value) => Some(Json::String(value@)),
            None => match self.value_on(input) {
                Some(text) => Some(Json::String(text)),
                None => None,
            },
        }
    }

    fn takes_input(&self) -> (takes: bool) {
        self.value.is_none() && self.from_stdin
    }

    fn get_json_value(&self, input: &mut TestBuffer) -> (value: Result<
        serde_json::Value,
        ReadError,
    >) {
        match &self.value {
            Some(value) => Ok(string_value(value.clone())),
            None => {
                let value = self.value(input)?;
                Ok(string_value(value))
            },
        }
    }
}

} // verus!
