//! What the library reads of a JSON value.

use crate::text::{join, joined, present, texts};
use vstd::prelude::*;

verus! {

/// A JSON value, as `serde_json` holds it.
#[verifier::external_type_specification]
#[verifier::external_body]
pub struct ExValue(serde_json::Value);

/// What `serde_json::Value::as_str` gives for a value.
pub uninterp spec fn json_str(value: serde_json::Value) -> Option<Seq<char>>;

/// What `serde_json::Value::as_array` gives for a value.
pub uninterp spec fn json_array(value: serde_json::Value) -> Option<Seq<serde_json::Value>>;

/// What `serde_json::Value::get` gives for a value and a key.
pub uninterp spec fn json_field(value: serde_json::Value, key: Seq<char>) -> Option<
    serde_json::Value,
>;

/// What `serde_json::Value`'s `to_string` gives for a value.
pub uninterp spec fn json_compact(value: serde_json::Value) -> Seq<char>;

/// `serde_json::Value::as_str`: the text of a JSON string, and nothing for any other value. The
/// contract claims that the answer depends on the value alone.
pub assume_specification[ serde_json::Value::as_str ](value: &serde_json::Value) -> (text: Option<
    &str,
>)
    ensures
        (match text {
            Some(text) => json_str(*value) == Some(text@),
            None => json_str(*value) is None,
        }),
;

/// `serde_json::Value::as_array`: the elements of a JSON array in order, and nothing for any other
/// value. The contract claims that the answer depends on the value alone, and that no value is
/// both an array and a string.
pub assume_specification[ serde_json::Value::as_array ](value: &serde_json::Value) -> (items:
    Option<&Vec<serde_json::Value>>)
    ensures
        (match items {
            Some(items) => json_array(*value) == Some(items@) && json_str(*value) is None,
            None => json_array(*value) is None,
        }),
;

/// `serde_json::Value::get` with a string: what a JSON object holds under a key, and nothing for
/// any other value. The contract claims that the answer depends on the value and the key alone, and
/// that only a value that is neither a string nor an array has a field.
#[verifier::external_body]
fn field<'a>(value: &'a serde_json::Value, key: &str) -> (found: Option<&'a serde_json::Value>)
    ensures
        (match found {
            Some(found) => json_field(*value, key@) == Some(*found) && json_str(*value) is None
                && json_array(*value) is None,
            None => json_field(*value, key@) is None,
        }),
{
    value.get(key)
}

/// `to_string` of a `serde_json::Value`: its compact JSON text. The contract claims that the text
/// depends on the value alone.
#[verifier::external_body]
fn compact(value: &serde_json::Value) -> (text: String)
    ensures
        text@ == json_compact(*value),
{
    value.to_string()
}

/// The text that a JSON object holds under a key.
pub open spec fn json_field_text(value: serde_json::Value, key: Seq<char>) -> Option<Seq<char>> {
    match json_field(value, key) {
        Some(found) => json_str(found),
        None => None,
    }
}

/// The characters of an optional string.
pub open spec fn opt_text(text: Option<String>) -> Option<Seq<char>> {
    match text {
        Some(text) => Some(text@),
        None => None,
    }
}

/// Reads the text that a JSON object holds under a key.
pub fn field_text(value: &serde_json::Value, key: &str) -> (text: Option<String>)
    ensures
        opt_text(text) == json_field_text(*value, key@),
{
    match field(value, key) {
        Some(found) => match found.as_str() {
            Some(text) => Some(text.to_owned()),
            None => None,
        },
        None => None,
    }
}

/// What a tool handed back, as far as its text is concerned.
#[derive(Debug, Clone)]
pub enum ToolContent {
    /// One text.
    Text(String),
    /// A list of items, each with its text where it has one.
    Items(Vec<Option<String>>),
    /// Anything else, as compact JSON.
    Other(String),
}

/// The characters of each of a list of optional strings.
pub open spec fn opt_texts(items: Seq<Option<String>>) -> Seq<Option<Seq<char>>> {
    Seq::new(items.len(), |i: int| opt_text(items[i]))
}

/// The text of a tool's content: items go one to a line.
pub open spec fn content_text(content: ToolContent) -> Seq<char> {
    match content {
        ToolContent::Text(text) => text@,
        ToolContent::Items(items) => joined(present(opt_texts(items@)), "\n"@),
        ToolContent::Other(text) => text@,
    }
}

/// The text of a tool's content.
pub fn tool_content_text(content: &ToolContent) -> (text: String)
    ensures
        text@ == content_text(*content),
{
    match content {
        ToolContent::Text(text) => text.clone(),
        ToolContent::Items(items) => {
            let mut shown: Vec<String> = Vec::new();
            let ghost all = opt_texts(items@);
            let mut i: usize = 0;
            assert(texts(shown@) =~= present(all.take(0)));
            while i < items.len()
                invariant
                    i <= items@.len(),
                    all == opt_texts(items@),
                    texts(shown@) == present(all.take(i as int)),
                decreases items@.len() - i,
            {
                assert(all.take(i + 1).drop_last() =~= all.take(i as int));
                let ghost before = texts(shown@);
                match &items[i] {
                    Some(text) => {
                        shown.push(text.clone());
                        assert(texts(shown@) =~= before.push(text@));
                    },
                    None => {},
                }
                i = i + 1;
            }
            assert(all.take(items@.len() as int) =~= all);
            join(&shown, "\n")
        },
        ToolContent::Other(text) => text.clone(),
    }
}

/// The text of one item of a JSON array: the item itself where it is a string, its field `text`
/// where that is one.
pub open spec fn item_text(item: serde_json::Value) -> Option<Seq<char>> {
    match json_str(item) {
        Some(text) => Some(text),
        None => json_field_text(item, "text"@),
    }
}

/// The text of what a tool handed back: a string as it is, the texts of an array's items one to a
/// line, any other value as compact JSON.
pub open spec fn tool_result(content: serde_json::Value) -> Seq<char> {
    match (json_str(content), json_array(content)) {
        (Some(text), _) => text,
        (None, Some(items)) => joined(
            present(Seq::new(items.len(), |i: int| item_text(items[i]))),
            "\n"@,
        ),
        (None, None) => json_compact(content),
    }
}

/// Reads what a tool handed back.
pub fn read_tool_content(content: &serde_json::Value) -> (read: ToolContent)
    ensures
        content_text(read) == tool_result(*content),
        read is Text <==> json_str(*content) is Some,
        read is Items <==> json_array(*content) is Some && json_str(*content) is None,
        read matches ToolContent::Items(items) ==> json_array(*content) matches Some(raw)
            && opt_texts(items@) == Seq::new(raw.len(), |i: int| item_text(raw[i])),
{
    if let Some(text) = content.as_str() {
        return ToolContent::Text(text.to_owned());
    }
    if let Some(raw) = content.as_array() {
        let mut items: Vec<Option<String>> = Vec::new();
        let mut i: usize = 0;
        while i < raw.len()
            invariant
                i <= raw@.len(),
                items@.len() == i,
                forall|j: int| 0 <= j < i ==> opt_text(#[trigger] items@[j]) == item_text(raw@[j]),
            decreases raw@.len() - i,
        {
            let item = &raw[i];
            let text = match item.as_str() {
                Some(text) => Some(text.to_owned()),
                None => field_text(item, "text"),
            };
            items.push(text);
            i = i + 1;
        }
        assert(opt_texts(items@) =~= Seq::new(raw@.len(), |j: int| item_text(raw@[j])));
        return ToolContent::Items(items);
    }
    ToolContent::Other(compact(content))
}

/// The text of what a tool handed back.
pub fn tool_result_text(content: &serde_json::Value) -> (text: String)
    ensures
        text@ == tool_result(*content),
{
    tool_content_text(&read_tool_content(content))
}

} // verus!
