//! JSON documents as plain trees, and the parser that produces them.

use vstd::prelude::*;
use vstd::string::StringExecFns;
use json::JsonValue;
use crate::text::chars_of;

verus! {

/// A JSON value. Objects keep their fields in document order. Of a number
/// only its presence is kept.
#[derive(Debug, PartialEq, Eq)]
pub enum Json {
    Null,
    Boolean(bool),
    Number,
    Text(String),
    Array(Vec<Json>),
    Object(Vec<(String, Json)>),
}

/// The first value stored under `key` among `fields`.
pub open spec fn lookup(fields: Seq<(String, Json)>, key: Seq<char>) -> Option<Json>
    decreases fields.len(),
{
    if fields.len() == 0 {
        None
    } else if fields[0].0@ == key {
        Some(fields[0].1)
    } else {
        lookup(fields.drop_first(), key)
    }
}

impl Json {
    /// The fields of an object; no fields for any other value.
    pub open spec fn fields(self) -> Seq<(String, Json)> {
        match self {
            Json::Object(fields) => fields@,
            _ => Seq::empty(),
        }
    }

    /// The values of an object's fields, in document order.
    pub open spec fn object_values(self) -> Seq<Json> {
        self.fields().map_values(|field: (String, Json)| field.1)
    }

    /// The members of an array; no members for any other value.
    pub open spec fn array_items(self) -> Seq<Json> {
        match self {
            Json::Array(items) => items@,
            _ => Seq::empty(),
        }
    }

    /// The text stored under `key`, where this value is an object that has
    /// such a field and the field holds text.
    pub open spec fn field_text(self, key: Seq<char>) -> Option<String> {
        match lookup(self.fields(), key) {
            Some(Json::Text(text)) => Some(text),
            _ => None,
        }
    }

    /// Looks up the text stored under `key`.
    pub fn text_field(&self, key: &str) -> (found: Option<&String>)
        ensures
            match found {
                Some(text) => self.field_text(key@) == Some(*text),
                None => self.field_text(key@) is None,
            },
    {
        match self {
            Json::Object(fields) => {
                let wanted = String::from_str(key);
                let mut i: usize = 0;
                assert(fields@.skip(0) =~= fields@);
                while i < fields.len()
                    invariant
                        i <= fields.len(),
                        wanted@ == key@,
                        self.fields() == fields@,
                        lookup(fields@, key@) == lookup(fields@.skip(i as int), key@),
                    decreases fields.len() - i,
                {
                    let ghost rest = fields@.skip(i as int);
                    assert(rest.len() > 0 && rest[0] == fields[i as int]);
                    assert(rest.drop_first() =~= fields@.skip(i + 1));
                    if fields[i].0 == wanted {
                        assert(lookup(rest, key@) == Some(fields[i as int].1));
                        return match &fields[i].1 {
                            Json::Text(text) => Some(text),
                            _ => None,
                        };
                    }
                    i += 1;
                }
                None
            },
            _ => None,
        }
    }
}

/// The longest run of digits that is handed to the parser. The parser
/// counts the digits after a decimal point down in a 16-bit exponent, which
/// holds that many steps below zero and no more.
pub const MAX_DIGIT_RUN: usize = 32_768;

/// Whether a character is one of the digits `0`..`9`.
pub open spec fn is_digit(c: char) -> bool {
    '0' <= c && c <= '9'
}

/// Whether the `count` characters of `text` from place `start` on are all
/// digits.
pub open spec fn is_digit_run(text: Seq<char>, start: int, count: int) -> bool {
    &&& 0 <= start
    &&& start + count <= text.len()
    &&& forall|i: int| start <= i < start + count ==> is_digit(#[trigger] text[i])
}

/// Whether no run of digits in the text is longer than `MAX_DIGIT_RUN`.
pub open spec fn digits_fit(text: Seq<char>) -> bool {
    forall|start: int| !#[trigger] is_digit_run(text, start, MAX_DIGIT_RUN + 1)
}

/// Tells whether no run of digits in the text is longer than
/// `MAX_DIGIT_RUN`.
pub fn digit_runs_fit(text: &str) -> (ok: bool)
    ensures
        ok == digits_fit(text@),
{
    let chars = chars_of(text);
    let mut run: usize = 0;
    let mut i: usize = 0;
    while i < chars.len()
        invariant
            i <= chars.len(),
            chars@ == text@,
            run <= i,
            run <= MAX_DIGIT_RUN,
            is_digit_run(chars@, i - run, run as int),
            run < i ==> !is_digit(chars[i - run - 1]),
            forall|start: int|
                start + MAX_DIGIT_RUN + 1 <= i ==> !#[trigger] is_digit_run(
                    chars@,
                    start,
                    MAX_DIGIT_RUN + 1,
                ),
        decreases chars.len() - i,
    {
        let c = chars[i];
        if '0' <= c && c <= '9' {
            run += 1;
            if run > MAX_DIGIT_RUN {
                assert(is_digit_run(chars@, i + 1 - run, MAX_DIGIT_RUN + 1));
                return false;
            }
        } else {
            run = 0;
        }
        i += 1;
        proof {
            let start = i - (MAX_DIGIT_RUN + 1);
            if start >= 0 {
                if run == 0 {
                    assert(!is_digit(chars[i - 1]));
                } else {
                    assert(!is_digit(chars[i - run - 1]));
                }
            }
        }
    }
    assert forall|start: int| !#[trigger] is_digit_run(chars@, start, MAX_DIGIT_RUN + 1) by {
        if is_digit_run(chars@, start, MAX_DIGIT_RUN + 1) {
            assert(start + MAX_DIGIT_RUN + 1 <= i);
        }
    }
    true
}

/// The tree that `json::parse` yields for a text, or `None` where it reports
/// an error.
pub uninterp spec fn parsed_json(text: Seq<char>) -> Option<Json>;

/// The tree that a parsed value holds.
pub uninterp spec fn json_tree(value: JsonValue) -> Json;

/// `json::JsonValue`, the value that the parser hands out. Nothing is known
/// of it but the tree that `json_tree` names.
#[verifier::external_type_specification]
#[verifier::external_body]
pub struct ExJsonValue(json::JsonValue);

/// `json::Error`, the parser's report of a failure. Nothing of it is read.
#[verifier::external_type_specification]
#[verifier::external_body]
pub struct ExJsonError(json::Error);

/// Calls `json::parse`. The outcome is a function of the text alone; where
/// the text parses, `parsed_json` names the tree of the value that comes back.
/// Texts with a longer run of digits than `MAX_DIGIT_RUN` are left out: on a
/// long enough fraction the parser's exponent overflows.
#[verifier::external_body]
pub(crate) fn parse_json(text: &str) -> (outcome: Result<JsonValue, json::Error>)
    requires
        digits_fit(text@),
    ensures
        match outcome {
            Ok(value) => parsed_json(text@) == Some(json_tree(value)),
            Err(_) => parsed_json(text@) is None,
        },
{
    json::parse(text)
}

/// Copies a value of the `json` crate into a tree, variant by variant: the
/// two string variants become `Text`, an object's fields and an array's
/// members are copied in their order, and a number loses its magnitude.
#[verifier::external_body]
pub(crate) fn tree_of(value: &JsonValue) -> (tree: Json)
    ensures
        tree == json_tree(*value),
{
    match value {
        JsonValue::Null => Json::Null,
        JsonValue::Short(text) => Json::Text(text.as_str().to_owned()),
        JsonValue::String(text) => Json::Text(text.clone()),
        JsonValue::Number(_) => Json::Number,
        JsonValue::Boolean(flag) => Json::Boolean(*flag),
        JsonValue::Object(fields) => Json::Object(
            fields.iter().map(|(key, item)| (key.to_owned(), tree_of(item))).collect(),
        ),
        JsonValue::Array(items) => Json::Array(items.iter().map(tree_of).collect()),
    }
}

} // verus!
