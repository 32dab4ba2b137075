//! The JSON inputs of tool-use blocks replayed to a Messages-style
//! provider, and provider state carried over from compaction. `serde_json`
//! reads and writes the JSON; the library decides what is sent.
use vstd::prelude::*;
use crate::claude_history::ClaudeBlock;
use crate::text::{decimal, push_decimal_u64, string_from_chars};

verus! {

/// How `serde_json` reads a text.
#[derive(Clone, Copy, Debug, PartialEq, Eq, Structural)]
pub enum JsonShape {
    /// A JSON object.
    Object,
    /// `null`.
    Null,
    /// Any other JSON value.
    OtherValue,
    /// Not JSON at all.
    Invalid,
}

/// What `serde_json::from_str::<serde_json::Value>` makes of `text`.
pub uninterp spec fn json_shape_of(text: Seq<char>) -> JsonShape;

/// The compact text `serde_json` writes for the value it reads from `text`.
pub uninterp spec fn json_compact_text(text: Seq<char>) -> Seq<char>;

/// The lowercase hexadecimal digit for `d` below 16.
pub open spec fn hex_digit(d: u32) -> char {
    if d < 10 {
        (48 + d) as char
    } else {
        (87 + d) as char
    }
}

/// How `serde_json` writes one character inside a string literal: a quote,
/// a backslash and the control characters below U+0020 escaped (the short
/// forms `\b`, `\t`, `\n`, `\f`, `\r` where they exist, else `\u00` and two
/// lowercase hex digits), every other character as it is.
pub open spec fn json_escaped_char(c: char) -> Seq<char> {
    if c == '"' {
        seq!['\\', '"']
    } else if c == '\\' {
        seq!['\\', '\\']
    } else if c == '\u{8}' {
        seq!['\\', 'b']
    } else if c == '\t' {
        seq!['\\', 't']
    } else if c == '\n' {
        seq!['\\', 'n']
    } else if c == '\u{c}' {
        seq!['\\', 'f']
    } else if c == '\r' {
        seq!['\\', 'r']
    } else if (c as u32) < 0x20 {
        seq!['\\', 'u', '0', '0', hex_digit((c as u32) / 16), hex_digit((c as u32) % 16)]
    } else {
        seq![c]
    }
}

/// The characters of `s`, each escaped as [`json_escaped_char`] says.
pub open spec fn json_escaped(s: Seq<char>) -> Seq<char>
    decreases s.len(),
{
    if s.len() == 0 {
        Seq::empty()
    } else {
        json_escaped(s.drop_last()) + json_escaped_char(s.last())
    }
}

/// The JSON string literal `serde_json` writes for the string `s`: its
/// escaped characters between double quotes.
pub open spec fn json_string_literal(s: Seq<char>) -> Seq<char> {
    seq!['"'] + json_escaped(s) + seq!['"']
}

/// The string under `key` in the JSON object read from `text`, when there
/// is one.
pub uninterp spec fn json_string_field_of(text: Seq<char>, key: Seq<char>) -> Option<Seq<char>>;

/// The string under the `type` key of the JSON object read from `text`,
/// when there is one.
pub open spec fn json_type_field(text: Seq<char>) -> Option<Seq<char>> {
    json_string_field_of(text, "type"@)
}

/// Reads `text` with `serde_json::from_str::<serde_json::Value>`.
///
/// Trusted: the shape is what the parser makes of `text`
/// ([`json_shape_of`]); when it read a value, the text is that value's
/// compact form (`Display` of `Value`, [`json_compact_text`]).
#[verifier::external_body]
pub(crate) fn read_json(text: &str) -> (r: (JsonShape, String))
    ensures
        r.0 == json_shape_of(text@),
        r.0 != JsonShape::Invalid ==> r.1@ == json_compact_text(text@),
{
    match serde_json::from_str::<serde_json::Value>(text) {
        Ok(serde_json::Value::Object(map)) => (JsonShape::Object, serde_json::Value::Object(map).to_string()),
        Ok(serde_json::Value::Null) => (JsonShape::Null, serde_json::Value::Null.to_string()),
        Ok(other) => (JsonShape::OtherValue, other.to_string()),
        Err(_) => (JsonShape::Invalid, String::new()),
    }
}

/// `s` as a JSON string literal (`Display` of `serde_json::Value::String`).
///
/// Trusted: the text is the string's characters, escaped as `serde_json`'s
/// compact formatter escapes them, between double quotes
/// ([`json_string_literal`]).
#[verifier::external_body]
pub(crate) fn json_string(s: &str) -> (r: String)
    ensures
        r@ == json_string_literal(s@),
{
    serde_json::Value::String(s.to_string()).to_string()
}

/// The compact text of the JSON object `serde_json` builds from `entries`,
/// each a key and its value as JSON text (a value text that is not JSON
/// stands for `null`).
pub uninterp spec fn json_object_text(entries: Seq<(Seq<char>, Seq<char>)>) -> Seq<char>;

/// The compact text of the JSON array `serde_json` builds from `items`,
/// each given as JSON text (an item text that is not JSON stands for
/// `null`).
pub uninterp spec fn json_array_text(items: Seq<Seq<char>>) -> Seq<char>;

/// The keys and value texts of `entries`.
pub open spec fn entries_view(entries: Seq<(String, String)>) -> Seq<(Seq<char>, Seq<char>)> {
    entries.map_values(|e: (String, String)| (e.0@, e.1@))
}

/// Builds a `serde_json::Map` from `entries` (each value parsed with
/// `serde_json::from_str`, `Value::Null` where that fails) and writes the
/// object compactly (`Display` of `Value::Object`).
///
/// Trusted: the text is named [`json_object_text`].
#[verifier::external_body]
pub(crate) fn json_object(entries: &Vec<(String, String)>) -> (r: String)
    ensures
        r@ == json_object_text(entries_view(entries@)),
{
    let map: serde_json::Map<String, serde_json::Value> = entries
        .iter()
        .map(|(k, v)| (k.clone(), serde_json::from_str(v).unwrap_or(serde_json::Value::Null)))
        .collect();
    serde_json::Value::Object(map).to_string()
}

/// Builds a `serde_json` array from `items` (each parsed with
/// `serde_json::from_str`, `Value::Null` where that fails) and writes it
/// compactly (`Display` of `Value::Array`).
///
/// Trusted: the text is named [`json_array_text`].
#[verifier::external_body]
pub(crate) fn json_array(items: &Vec<String>) -> (r: String)
    ensures
        r@ == json_array_text(strings_chars(items@)),
{
    let values: Vec<serde_json::Value> =
        items.iter().map(|v| serde_json::from_str(v).unwrap_or(serde_json::Value::Null)).collect();
    serde_json::Value::Array(values).to_string()
}

/// The JSON object with the single entry `key`: `value`.
pub open spec fn json_single_entry(key: Seq<char>, value: Seq<char>) -> Seq<char> {
    json_object_text(seq![(key, value)])
}

/// The compact text of a one-entry object.
pub(crate) fn single_entry_object(key: &str, value: String) -> (r: String)
    ensures
        r@ == json_single_entry(key@, value@),
{
    let mut entries: Vec<(String, String)> = Vec::new();
    let ghost vv = value@;
    entries.push((key.to_string(), value));
    assert(entries_view(entries@) =~= seq![(key@, vv)]);
    json_object(&entries)
}

/// The string under `key` in the JSON object in `text`:
/// `serde_json::from_str`, then `as_object`, `get(key)` and `as_str`.
///
/// Trusted: the result is named [`json_string_field_of`], and there is one
/// only when the text reads as an object.
#[verifier::external_body]
pub(crate) fn json_string_field(text: &str, key: &str) -> (r: Option<String>)
    ensures
        opt_chars(r) == json_string_field_of(text@, key@),
        r is Some ==> json_shape_of(text@) == JsonShape::Object,
{
    let value = serde_json::from_str::<serde_json::Value>(text).ok()?;
    value.as_object()?.get(key)?.as_str().map(|s| s.to_string())
}

/// The characters of an optional string.
pub open spec fn opt_chars(o: Option<String>) -> Option<Seq<char>> {
    match o {
        Some(s) => Some(s@),
        None => None,
    }
}

/// The characters of each string.
pub open spec fn strings_chars(v: Seq<String>) -> Seq<Seq<char>> {
    v.map_values(|s: String| s@)
}

/// A tool call's input as sent: a JSON object as it is, `null` as an empty
/// object, any other value wrapped under `input`, and text that is not JSON
/// wrapped under `input` as a string. `compact` is the compact form of the
/// value read and `quoted` the text as a JSON string.
pub open spec fn wrapped_input(shape: JsonShape, compact: Seq<char>, quoted: Seq<char>) -> Seq<char> {
    match shape {
        JsonShape::Object => compact,
        JsonShape::Null => json_object_text(Seq::empty()),
        JsonShape::OtherValue => json_single_entry("input"@, compact),
        JsonShape::Invalid => json_single_entry("input"@, quoted),
    }
}

/// The input to send for a value of `shape` (see [`wrapped_input`]).
pub fn wrap_tool_input(shape: JsonShape, compact: &str, quoted: &str) -> (r: String)
    ensures
        r@ == wrapped_input(shape, compact@, quoted@),
{
    match shape {
        JsonShape::Object => compact.to_string(),
        JsonShape::Null => {
            let entries: Vec<(String, String)> = Vec::new();
            assert(entries_view(entries@) =~= Seq::empty());
            json_object(&entries)
        },
        JsonShape::OtherValue => single_entry_object("input", compact.to_string()),
        JsonShape::Invalid => single_entry_object("input", quoted.to_string()),
    }
}

/// The input of a function call with JSON `arguments`: an object as it is,
/// anything else wrapped under `input`.
pub fn parse_json_object_or_wrapped(arguments: &str) -> (r: String)
    ensures
        r@ == wrapped_input(
            json_shape_of(arguments@),
            json_compact_text(arguments@),
            json_string_literal(arguments@),
        ),
{
    let (shape, compact) = read_json(arguments);
    match shape {
        JsonShape::Invalid => {
            let quoted = json_string(arguments);
            wrap_tool_input(shape, "", quoted.as_str())
        },
        _ => wrap_tool_input(shape, compact.as_str(), ""),
    }
}

/// The input of a freeform tool call: its text under `input`.
pub fn custom_tool_input(input: &str) -> (r: String)
    ensures
        r@ == json_single_entry("input"@, json_string_literal(input@)),
{
    let quoted = json_string(input);
    wrap_tool_input(JsonShape::Invalid, "", quoted.as_str())
}

/// A JSON string, or `null`.
pub open spec fn json_opt_string(o: Option<Seq<char>>) -> Seq<char> {
    match o {
        Some(s) => json_string_literal(s),
        None => "null"@,
    }
}

/// A JSON number, or `null`.
pub open spec fn json_opt_number(o: Option<u64>) -> Seq<char> {
    match o {
        Some(n) => decimal(n as nat),
        None => "null"@,
    }
}

/// The input of a local shell call: the JSON object with its `command` (an
/// array of strings), `workdir` and `timeout_ms`, absent values as `null`.
pub open spec fn shell_input_json(command: Seq<Seq<char>>, workdir: Option<Seq<char>>, timeout_ms: Option<u64>) -> Seq<char> {
    json_object_text(
        seq![
            ("command"@, json_array_text(command.map_values(|s: Seq<char>| json_string_literal(s)))),
            ("workdir"@, json_opt_string(workdir)),
            ("timeout_ms"@, json_opt_number(timeout_ms)),
        ],
    )
}

fn decimal_text(n: u64) -> (r: String)
    ensures
        r@ == decimal(n as nat),
{
    let mut v: Vec<char> = Vec::new();
    push_decimal_u64(&mut v, n);
    string_from_chars(v.as_slice())
}

/// The input of a local shell call (see [`shell_input_json`]).
pub fn local_shell_input(command: &Vec<String>, workdir: &Option<String>, timeout_ms: Option<u64>) -> (r:
    String)
    ensures
        r@ == shell_input_json(strings_chars(command@), opt_chars(*workdir), timeout_ms),
{
    let ghost want = strings_chars(command@).map_values(|s: Seq<char>| json_string_literal(s));
    let mut items: Vec<String> = Vec::new();
    let mut i: usize = 0;
    while i < command.len()
        invariant
            i <= command@.len(),
            want == strings_chars(command@).map_values(|s: Seq<char>| json_string_literal(s)),
            strings_chars(items@) == want.take(i as int),
        decreases command.len() - i,
    {
        let q = json_string(command[i].as_str());
        let ghost prev = items@;
        items.push(q);
        assert(strings_chars(items@) =~= strings_chars(prev).push(json_string_literal(command@[i as int]@)));
        assert(want.take(i + 1) =~= want.take(i as int).push(want[i as int]));
        i += 1;
    }
    assert(want.take(command.len() as int) =~= want);
    let array = json_array(&items);
    let workdir_text = match workdir {
        Some(w) => json_string(w.as_str()),
        None => "null".to_string(),
    };
    let timeout_text = match timeout_ms {
        Some(n) => decimal_text(n),
        None => "null".to_string(),
    };
    let ghost a = array@;
    let ghost w = workdir_text@;
    let ghost t = timeout_text@;
    let mut entries: Vec<(String, String)> = Vec::new();
    entries.push(("command".to_string(), array));
    entries.push(("workdir".to_string(), workdir_text));
    entries.push(("timeout_ms".to_string(), timeout_text));
    assert(entries_view(entries@) =~= seq![("command"@, a), ("workdir"@, w), ("timeout_ms"@, t)]);
    json_object(&entries)
}

/// The call id of a local shell call: its call id, else its item id, else
/// `local_shell_call`.
pub fn local_shell_call_id(id: Option<String>, call_id: Option<String>) -> (r: String)
    ensures
        r@ == match (call_id, id) {
            (Some(c), _) => c@,
            (None, Some(i)) => i@,
            (None, None) => "local_shell_call"@,
        },
{
    match call_id {
        Some(c) => c,
        None => match id {
            Some(i) => i,
            None => "local_shell_call".to_string(),
        },
    }
}

/// Provider state carried over from a compaction: kept, as compact JSON
/// with its `type`, when `encrypted_content` is a JSON object whose `type`
/// is a string; dropped otherwise.
pub fn provider_state_block(encrypted_content: &str) -> (r: Option<ClaudeBlock>)
    ensures
        match json_type_field(encrypted_content@) {
            None => r is None,
            Some(kind) => r matches Some(ClaudeBlock::ProviderState { value, kind: Some(k) }) && k@ == kind
                && value@ == json_compact_text(encrypted_content@),
        },
{
    let kind = match json_string_field(encrypted_content, "type") {
        Some(k) => k,
        None => return None,
    };
    let (shape, compact) = read_json(encrypted_content);
    if shape == JsonShape::Invalid {
        return None;
    }
    Some(ClaudeBlock::ProviderState { value: compact, kind: Some(kind) })
}

} // verus!
