//! The `array` command: each raw value is one element.

use crate::json::{
    array_value, coerce, coerced, compact, json_of, jsons_of, reads_back, Json, JsonValueCommand,
};
use crate::testing::TestBuffer;
use crate::text::split_lines;
use crate::{raw_values, ReadError, ValueReader};
use vstd::prelude::*;

verus! {

/// What the `array` command was given.
#[derive(Clone, Debug)]
pub struct ArrayArgs {
    /// Automatically detect JSON literals in input.
    pub auto: bool,
    /// Values to include in the array.
    pub value: Vec<String>,
    /// Read values from standard input. One value per line.
    pub from_stdin: bool,
    /// Return an empty array.
    pub empty: bool,
}

/// The elements that an array built from `raws` holds: what each raw value
/// stands for, in the order of `raws`.
pub open spec fn elements(raws: Seq<Seq<char>>, auto: bool) -> Seq<Json> {
    raws.map_values(|raw: Seq<char>| coerced(raw, auto))
}

impl ValueReader<Vec<String>> for ArrayArgs {
    open spec fn reads_input(&self) -> bool {
        !self.empty && self.from_stdin
    }

    open spec fn value_on(&self, input: Seq<u8>) -> Option<Seq<Seq<char>>> {
        raw_values(self.empty, self.from_stdin, self.value.deep_view(), input)
    }

    fn value(&self, alt_input: &mut TestBuffer) -> (value: Result<Vec<String>, ReadError>) {
        if self.empty {
            let none: Vec<String> = Vec::new();
            assert(none.deep_view() =~= Seq::empty());
            Ok(none)
        } else if self.from_stdin {
            let mut buffer = String::new();
            alt_input.read_to_string(&mut buffer)?;
            Ok(split_lines(buffer.as_str()))
        } else {
            let inline = self.value.clone();
            assert(inline.deep_view() =~= self.value.deep_view());
            Ok(inline)
        }
    }
}

impl JsonValueCommand for ArrayArgs {
    open spec fn needs_input(&self) -> bool {
        self.reads_input()
    }

    open spec fn json_on(&self, input: Seq<u8>) -> Option<Json> {
        match self.value_on(input) {
            Some(raws) => Some(Json::Array(elements(raws, self.auto))),
            None => None,
        }
    }

    fn takes_input(&self) -> (takes: bool) {
        !self.empty && self.from_stdin
    }

    fn get_json_value(&self, input: &mut TestBuffer) -> (value: Result<
        serde_json::Value,
        ReadError,
    >) {
        let raws = self.value(input)?;
        let ghost all = raws.deep_view();
        let mut items: Vec<serde_json::Value> = Vec::new();
        for raw in it: raws
            invariant
                it.seq().len() == all.len(),
                forall|i: int| 0 <= i < all.len() ==> it.seq()[i]@ == all[i],
                jsons_of(items@) == elements(all.take(it.index() as int), self.auto),
        {
            let ghost at = it.index() as int;
            let ghost before = items@;
            assert(raw@ == all[at]);
            let item = coerce(raw, self.auto);
            items.push(item);
            assert(jsons_of(items@) =~= jsons_of(before).push(json_of(item)));
            assert(all.take(at + 1) =~= all.take(at).push(all[at]));
            assert(elements(all.take(at + 1), self.auto) =~= elements(
                all.take(at),
                self.auto,
            ).push(coerced(all[at], self.auto)));
        }
        assert(all.take(all.len() as int) =~= all);
        Ok(array_value(items))
    }
}

/// Each of `raws` as a JSON string, in the order of `raws`.
pub open spec fn strings(raws: Seq<Seq<char>>) -> Seq<Json> {
    raws.map_values(|raw: Seq<char>| Json::String(raw))
}

/// Without `auto` the array holds the raw values themselves, whatever they
/// are: all of them, as strings and in their order.
pub proof fn lemma_plain_array(args: ArrayArgs, input: Seq<u8>)
    requires
        !args.auto,
        args.value_on(input) is Some,
    ensures
        args.json_on(input) == Some(Json::Array(strings(args.value_on(input)->0))),
{
    let raws = args.value_on(input)->0;
    assert(elements(raws, args.auto) =~= strings(raws));
}

/// The compact text of each of `values`, in the order of `values`.
pub open spec fn compact_texts(values: Seq<Json>) -> Seq<Seq<char>> {
    values.map_values(|value: Json| compact(value))
}

/// Given with `auto` the compact texts of values that each read back, the
/// array holds those very values, in their order.
pub proof fn lemma_canonical_array(args: ArrayArgs, input: Seq<u8>, values: Seq<Json>)
    requires
        args.auto,
        args.value_on(input) == Some(compact_texts(values)),
    ensures
        (forall|i: int| 0 <= i < values.len() ==> reads_back(#[trigger] values[i]))
            ==> args.json_on(input) == Some(Json::Array(values)),
{
    if forall|i: int| 0 <= i < values.len() ==> reads_back(#[trigger] values[i]) {
        assert forall|i: int| 0 <= i < values.len() implies elements(
            compact_texts(values),
            true,
        )[i] == values[i] by {
            assert(reads_back(values[i]));
        }
        assert(elements(compact_texts(values), true) =~= values);
    }
}

/// With `empty` the array has no elements, whatever else is set and whatever
/// the input stream holds.
pub proof fn lemma_empty_array(args: ArrayArgs, input: Seq<u8>)
    requires
        args.empty,
    ensures
        args.json_on(input) == Some(Json::Array(Seq::empty())),
        !args.needs_input(),
{
    assert(elements(Seq::empty(), args.auto) =~= Seq::empty());
}

} // verus!
