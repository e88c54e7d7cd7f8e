//! One invocation: which command builds the value, and how it is written.

use crate::arrays::ArrayArgs;
use crate::json::{
    compact, pretty, Json, JsonDefaultPrinter, JsonFormatter, JsonPrettyPrinter,
    JsonValueCommand,
};
use crate::objects::ObjectArgs;
use crate::strings::StringArgs;
use crate::testing::TestBuffer;
use crate::ReadError;
use vstd::prelude::*;

verus! {

/// The command that was chosen, with what it was given.
#[derive(Debug)]
pub enum Commands {
    /// Returns the arguments as a JSON array
    Array(ArrayArgs),
    /// Returns the arguments as a JSON object
    Object(ObjectArgs),
    /// Returns the argument as a JSON string
    String(StringArgs),
}

/// The formatter that was chosen.
pub enum Printer {
    /// On several lines, indented.
    Pretty(JsonPrettyPrinter),
    /// On one line.
    Default(JsonDefaultPrinter),
}

/// One invocation: the command, and whether its value is written indented.
#[derive(Debug)]
pub struct Cli {
    /// Pretty print the JSON output
    pub pretty: bool,
    /// What builds the value
    pub command: Commands,
}

impl JsonValueCommand for Commands {
    open spec fn needs_input(&self) -> bool {
        match self {
            Commands::Array(args) => args.needs_input(),
            Commands::Object(args) => args.needs_input(),
            Commands::String(args) => args.needs_input(),
        }
    }

    open spec fn json_on(&self, input: Seq<u8>) -> Option<Json> {
        match self {
            Commands::Array(args) => args.json_on(input),
            Commands::Object(args) => args.json_on(input),
            Commands::String(args) => args.json_on(input),
        }
    }

    fn takes_input(&self) -> (takes: bool) {
        match self {
            Commands::Array(args) => args.takes_input(),
            Commands::Object(args) => args.takes_input(),
            Commands::String(args) => args.takes_input(),
        }
    }

    fn get_json_value(&self, input: &mut TestBuffer) -> (value: Result<
        serde_json::Value,
        ReadError,
    >) {
        match self {
            Commands::Array(args) => args.get_json_value(input),
            Commands::Object(args) => args.get_json_value(input),
            Commands::String(args) => args.get_json_value(input),
        }
    }
}

impl JsonFormatter for Printer {
    open spec fn formatted(&self, value: Json) -> Seq<char> {
        match self {
            Printer::Pretty(printer) => printer.formatted(value),
            Printer::Default(printer) => printer.formatted(value),
        }
    }

    fn format(&self, value: serde_json::Value) -> (text: String) {
        match self {
            Printer::Pretty(printer) => printer.format(value),
            Printer::Default(printer) => printer.format(value),
        }
    }
}

impl Cli {
    /// What a run writes on a stream that holds `input`: the value of the
    /// command as the chosen formatter writes it, and one line feed after it.
    /// `None` where the command reads the stream and `input` is not UTF-8.
    pub open spec fn output_on(&self, input: Seq<u8>) -> Option<Seq<char>> {
        match self.command.json_on(input) {
            Some(value) => Some(
                (if self.pretty {
                    pretty(value)
                } else {
                    compact(value)
                }).push('\n'),
            ),
            None => None,
        }
    }

    /// The command that builds the value.
    pub fn value_command(&self) -> (command: &Commands)
        ensures
            *command == self.command,
    {
        &self.command
    }

    /// The formatter that writes the value: indented with `pretty`, compact
    /// without.
    pub fn printer(&self) -> (printer: Printer)
        ensures
            self.pretty ==> printer is Pretty,
            !self.pretty ==> printer is Default,
    {
        if self.pretty {
            Printer::Pretty(JsonPrettyPrinter)
        } else {
            Printer::Default(JsonDefaultPrinter)
        }
    }
}

/// Runs the chosen command on `input` and returns what is to be written to
/// standard output.
pub fn run(args: &Cli, input: &mut TestBuffer) -> (output: Result<String, ReadError>)
    ensures
        final(input)@ == (if args.command.needs_input() {
            Seq::empty()
        } else {
            old(input)@
        }),
        match output {
            Ok(text) => args.output_on(old(input)@) == Some(text@),
            Err(error) => args.output_on(old(input)@) is None && error == ReadError::InvalidData,
        },
{
    let printer = args.printer();

    let command = args.value_command();
    let json_value = command.get_json_value(input)?;
    let mut text = printer.format(json_value);
    text.push('\n');
    Ok(text)
}

} // verus!
