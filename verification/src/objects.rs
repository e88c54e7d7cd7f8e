//! The `object` command: each raw value spells a key and, after a separator,
//! its value.

use crate::json::{coerce, coerced, members_of, null_value, object_value, Json, JsonValueCommand};
use crate::testing::TestBuffer;
use crate::text::{split_at_first, split_lines, split_once};
use crate::{raw_values, ReadError, ValueReader};
use vstd::prelude::*;

verus! {

/// What the `object` command was given.
#[derive(Clone, Debug)]
pub struct ObjectArgs {
    /// Automatically detect JSON literals in input.
    pub auto: bool,
    /// Values to include in the object.
    pub value: Vec<String>,
    /// Read values from standard input. One value per line.
    pub from_stdin: bool,
    /// Return an empty object.
    pub empty: bool,
    /// Separator between key and value.
    pub separator: String,
}

/// A key and the value assigned to it, if one is.
pub struct KeyValue {
    pub key: String,
    /// `None` where the raw value held no separator; `Some` of an empty string
    /// where nothing followed the separator.
    pub value: Option<String>,
}

/// A key and its value as contracts see them.
pub type Pair = (Seq<char>, Option<Seq<char>>);

impl View for KeyValue {
    type V = Pair;

    open spec fn view(&self) -> Pair {
        (
            self.key@,
            match self.value {
                Some(value) => Some(value@),
                None => None,
            },
        )
    }
}

impl DeepView for KeyValue {
    type V = Pair;

    open spec fn deep_view(&self) -> Pair {
        self@
    }
}

/// The key and value that `raw` spells. The key is what stands before the first
/// occurrence of `separator` and the value is all that stands after it, further
/// separators included. Without a separator `raw` is the key and has no value.
pub open spec fn key_value_of(raw: Seq<char>, separator: Seq<char>) -> Pair {
    match split_at_first(raw, separator) {
        Some((key, value)) => (key, Some(value)),
        None => (raw, None),
    }
}

/// The keys and values that `raws` spell, in the order of `raws`.
pub open spec fn key_values_of(raws: Seq<Seq<char>>, separator: Seq<char>) -> Seq<Pair> {
    raws.map_values(|raw: Seq<char>| key_value_of(raw, separator))
}

/// What stands under a key in the object: what the value stands for, or null
/// where none was assigned, with `auto` or without.
pub open spec fn member_of(value: Option<Seq<char>>, auto: bool) -> Json {
    match value {
        Some(raw) => coerced(raw, auto),
        None => Json::Null,
    }
}

/// The members of the object built from `pairs`: each pair is inserted in
/// turn, a later one in place of an earlier one under the same key.
pub open spec fn members(pairs: Seq<Pair>, auto: bool) -> Map<Seq<char>, Json>
    decreases pairs.len(),
{
    if pairs.len() == 0 {
        Map::empty()
    } else {
        members(pairs.drop_last(), auto).insert(
            pairs.last().0,
            member_of(pairs.last().1, auto),
        )
    }
}

impl KeyValue {
    /// The pair of `key` and `value`.
    pub fn new(key: String, value: Option<String>) -> (pair: Self)
        ensures
            pair.key == key,
            pair.value == value,
    {
        Self { key, value }
    }

    /// The key and value that `s` spells; see `key_value_of`.
    pub fn from_str(s: &str, separator: &str) -> (pair: Self)
        ensures
            pair@ == key_value_of(s@, separator@),
    {
        let parts = split_once(s, separator);
        match parts {
            Some((key, value)) => Self::new(key, Some(value)),
            None => Self::new(s.to_owned(), None),
        }
    }
}

impl ObjectArgs {
    /// The key and value that `s` spells with the separator of these
    /// arguments.
    pub fn str_to_key_value(&self, s: &str) -> (pair: KeyValue)
        ensures
            pair@ == key_value_of(s@, self.separator@),
    {
        KeyValue::from_str(s, self.separator.as_str())
    }

    /// Splits each of `raws` into key and value.
    fn key_values(&self, raws: &Vec<String>) -> (pairs: Vec<KeyValue>)
        ensures
            pairs.deep_view() == key_values_of(raws.deep_view(), self.separator@),
    {
        let mut pairs: Vec<KeyValue> = Vec::new();
        let mut i: usize = 0;
        while i < raws.len()
            invariant
                i <= raws.len(),
                pairs.deep_view() == key_values_of(
                    raws.deep_view().take(i as int),
                    self.separator@,
                ),
            decreases raws.len() - i,
        {
            let ghost before = pairs.deep_view();
            let pair = self.str_to_key_value(raws[i].as_str());
            pairs.push(pair);
            proof {
                let all = raws.deep_view();
                assert(pairs.deep_view() =~= before.push(pair@));
                assert(all.take(i + 1) =~= all.take(i as int).push(raws[i as int]@));
                assert(key_values_of(all.take(i + 1), self.separator@) =~= before.push(pair@));
            }
            i += 1;
        }
        assert(raws.deep_view().take(i as int) =~= raws.deep_view());
        pairs
    }
}

impl ValueReader<Vec<KeyValue>> for ObjectArgs {
    open spec fn reads_input(&self) -> bool {
        !self.empty && self.from_stdin
    }

    open spec fn value_on(&self, input: Seq<u8>) -> Option<Seq<Pair>> {
        match raw_values(self.empty, self.from_stdin, self.value.deep_view(), input) {
            Some(raws) => Some(key_values_of(raws, self.separator@)),
            None => None,
        }
    }

    fn value(&self, alt_input: &mut TestBuffer) -> (value: Result<Vec<KeyValue>, ReadError>) {
        if self.empty {
            let none: Vec<KeyValue> = Vec::new();
            assert(none.deep_view() =~= key_values_of(Seq::empty(), self.separator@));
            Ok(none)
        } else if self.from_stdin {
            let mut buffer = String::new();
            alt_input.read_to_string(&mut buffer)?;
            let lines = split_lines(buffer.as_str());
            Ok(self.key_values(&lines))
        } else {
            Ok(self.key_values(&self.value))
        }
    }
}

impl JsonValueCommand for ObjectArgs {
    open spec fn needs_input(&self) -> bool {
        self.reads_input()
    }

    open spec fn json_on(&self, input: Seq<u8>) -> Option<Json> {
        match self.value_on(input) {
            Some(pairs) => Some(Json::Object(members(pairs, self.auto))),
            None => None,
        }
    }

    fn takes_input(&self) -> (takes: bool) {
        !self.empty && self.from_stdin
    }

    fn get_json_value(&self, input: &mut TestBuffer) -> (value: Result<
        serde_json::Value,
        ReadError,
    >) {
        let pairs = self.value(input)?;
        let ghost all = pairs.deep_view();
        let mut map = serde_json::Map::new();
        for kv in it: pairs
            invariant
                it.seq().len() == all.len(),
                forall|i: int| 0 <= i < all.len() ==> it.seq()[i]@ == all[i],
                members_of(map) == members(all.take(it.index() as int), self.auto),
        {
            let ghost at = it.index() as int;
            assert(kv@ == all[at]);
            assert(all.take(at + 1).drop_last() =~= all.take(at));
            match kv.value {
                Some(value) => {
                    let value = coerce(value, self.auto);
                    map.insert(kv.key, value);
                },
                None => {
                    map.insert(kv.key, null_value());
                },
            }
        }
        assert(all.take(all.len() as int) =~= all);
        Ok(object_value(map))
    }
}

/// The object has a member under a key exactly if some pair has that key.
pub proof fn lemma_member_keys(pairs: Seq<Pair>, auto: bool, key: Seq<char>)
    ensures
        members(pairs, auto).contains_key(key) <==> exists|i: int|
            0 <= i < pairs.len() && (#[trigger] pairs[i]).0 == key,
    decreases pairs.len(),
{
    if pairs.len() > 0 {
        let front = pairs.drop_last();
        lemma_member_keys(front, auto, key);
        if members(pairs, auto).contains_key(key) {
            if pairs.last().0 == key {
                assert(pairs[pairs.len() - 1].0 == key);
            } else {
                let i = choose|i: int| 0 <= i < front.len() && (#[trigger] front[i]).0 == key;
                assert(pairs[i].0 == key);
            }
        }
        if exists|i: int| 0 <= i < pairs.len() && (#[trigger] pairs[i]).0 == key {
            let i = choose|i: int| 0 <= i < pairs.len() && (#[trigger] pairs[i]).0 == key;
            if i < front.len() {
                assert(front[i].0 == key);
            }
        }
    }
}

/// Of several pairs with one key the last one wins: the member under a key is
/// what the value of the last pair with that key stands for.
pub proof fn lemma_last_pair_wins(pairs: Seq<Pair>, auto: bool, last: int)
    requires
        0 <= last < pairs.len(),
        forall|later: int|
            last < later < pairs.len() ==> (#[trigger] pairs[later]).0 != pairs[last].0,
    ensures
        members(pairs, auto).contains_key(pairs[last].0),
        members(pairs, auto)[pairs[last].0] == member_of(pairs[last].1, auto),
    decreases pairs.len(),
{
    if last < pairs.len() - 1 {
        let front = pairs.drop_last();
        assert(pairs[pairs.len() - 1].0 != pairs[last].0);
        assert forall|later: int| last < later < front.len() implies (#[trigger] front[later]).0
            != front[last].0 by {
            assert(pairs[later].0 != pairs[last].0);
        }
        lemma_last_pair_wins(front, auto, last);
    }
}

/// With `empty` the object has no members, whatever the separator, `auto` and
/// the other flags are and whatever the input stream holds.
pub proof fn lemma_empty_object(args: ObjectArgs, input: Seq<u8>)
    requires
        args.empty,
    ensures
        args.json_on(input) == Some(Json::Object(Map::empty())),
        !args.needs_input(),
{
    assert(key_values_of(Seq::empty(), args.separator@) =~= Seq::empty());
}

} // verus!
