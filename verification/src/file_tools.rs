//! Argument bounds and small decisions of the dedicated file tools
//! (`read_file`, `edit_file`, `write_file`).
use vstd::prelude::*;
use crate::errors::FunctionCallError;
use crate::claude_history::{opt_view, strings_view};
use crate::text::{
    char_utf8_width, char_width, chars_of, fit_prefix, fit_prefix_from, prefix_chars,
    push_str_chars, str_len, string_from_chars,
};

verus! {

/// Largest file the mutation tools edit or overwrite.
pub const MAX_FILE_BYTES: usize = 8 * 1024 * 1024;
/// Largest prefix of a file that `read_file` scans.
pub const MAX_SCAN_BYTES: usize = 64 * 1024 * 1024;
/// Output byte cap of `read_file`.
pub const MAX_OUTPUT_BYTES: usize = 64 * 1024;
/// Output cap of `read_file` in bytes, at four bytes per token.
pub const MAX_OUTPUT_TOKEN_BYTES: usize = 10_000 * 4;
/// Most lines one `read_file` call returns.
pub const MAX_LINES: usize = 2_000;
/// Longest accepted path, in UTF-8 bytes.
pub const MAX_PATH_BYTES: usize = 4_096;
/// Serialized argument cap of the mutation tools, in bytes.
pub const MAX_MUTATION_ARGUMENT_BYTES: usize = 64 * 1024;
/// Serialized argument cap of the mutation tools, at four bytes per token.
pub const MAX_MUTATION_TOKEN_BYTES: usize = 10_000 * 4;
/// Largest line offset `read_file` accepts.
pub const MAX_READ_OFFSET: usize = 1_000_000;

/// The payload of a tool call, as the file tools see it.
#[derive(Debug)]
pub enum ToolPayload {
    /// A function call with its JSON arguments.
    Function { arguments: String },
    /// Any other kind of payload.
    Unsupported,
}

/// Arguments of `read_file`.
pub struct ReadFileArgs {
    pub path: String,
    pub offset: usize,
    pub limit: usize,
    pub environment_id: Option<String>,
}

/// Arguments of `edit_file`.
pub struct EditFileArgs {
    pub path: String,
    pub old_string: String,
    pub new_string: String,
    pub replace_all: bool,
    pub environment_id: Option<String>,
}

/// Arguments of `write_file`.
pub struct WriteFileArgs {
    pub path: String,
    pub content: String,
    pub environment_id: Option<String>,
}

/// Default number of lines for a bounded file read.
pub fn default_limit() -> (r: usize)
    ensures
        r == MAX_LINES,
{
    2_000
}

pub open spec fn msg_read_args() -> Seq<char> {
    "read_file requires a path up to 4096 bytes, offset 1..=1000000, and limit 1..=2000"@
}

/// Whether `read_file` rejects its arguments outright.
pub open spec fn read_args_rejected(path: Seq<char>, offset: usize, limit: usize) -> bool {
    ||| str_len(path) > MAX_PATH_BYTES
    ||| offset == 0
    ||| offset > MAX_READ_OFFSET
    ||| limit == 0
    ||| limit > MAX_LINES
}

/// Checks the bounds of `read_file` arguments.
pub fn check_read_args(args: &ReadFileArgs) -> (r: Result<(), FunctionCallError>)
    ensures
        r is Err <==> read_args_rejected(args.path@, args.offset, args.limit),
        r matches Err(e) ==> e.message_view() == msg_read_args(),
{
    if args.path.as_str().len() > MAX_PATH_BYTES || args.offset == 0 || args.offset > MAX_READ_OFFSET
        || args.limit == 0 || args.limit > MAX_LINES {
        return Err(
            FunctionCallError::respond(
                "read_file requires a path up to 4096 bytes, offset 1..=1000000, and limit 1..=2000",
            ),
        );
    }
    Ok(())
}

pub open spec fn msg_unsupported_payload() -> Seq<char> {
    "dedicated file tool received an unsupported payload"@
}

/// The JSON arguments of a function payload, which the caller then parses.
pub fn function_args(payload: &ToolPayload) -> (r: Result<String, FunctionCallError>)
    ensures
        match payload {
            ToolPayload::Function { arguments } => r matches Ok(a) && a@ == arguments@,
            ToolPayload::Unsupported => r matches Err(e) && e.message_view()
                == msg_unsupported_payload(),
        },
{
    match payload {
        ToolPayload::Function { arguments } => Ok(arguments.clone()),
        ToolPayload::Unsupported => Err(
            FunctionCallError::respond("dedicated file tool received an unsupported payload"),
        ),
    }
}

pub open spec fn msg_mutation_unsupported_payload(tool_name: Seq<char>) -> Seq<char> {
    tool_name + " received an unsupported payload"@
}

pub open spec fn msg_mutation_too_large(tool_name: Seq<char>) -> Seq<char> {
    tool_name
        + " arguments exceed the 64 KiB / approximately 10,000-token limit; use a smaller edit or a specialized script"@
}

/// Effective cap on serialized mutation arguments: the smaller of the byte
/// and the token budget.
pub open spec fn mutation_cap() -> usize {
    if MAX_MUTATION_ARGUMENT_BYTES < MAX_MUTATION_TOKEN_BYTES {
        MAX_MUTATION_ARGUMENT_BYTES
    } else {
        MAX_MUTATION_TOKEN_BYTES
    }
}

/// The JSON arguments of a mutation tool's payload, refused before parsing
/// when they exceed [`mutation_cap`] bytes.
pub fn mutation_args(payload: &ToolPayload, tool_name: &str) -> (r: Result<String, FunctionCallError>)
    ensures
        match payload {
            ToolPayload::Function { arguments } => if str_len(arguments@) > mutation_cap() {
                r matches Err(e) && e.message_view() == msg_mutation_too_large(tool_name@)
            } else {
                r matches Ok(a) && a@ == arguments@
            },
            ToolPayload::Unsupported => r matches Err(e) && e.message_view()
                == msg_mutation_unsupported_payload(tool_name@),
        },
{
    match payload {
        ToolPayload::Function { arguments } => {
            let cap = if MAX_MUTATION_ARGUMENT_BYTES < MAX_MUTATION_TOKEN_BYTES {
                MAX_MUTATION_ARGUMENT_BYTES
            } else {
                MAX_MUTATION_TOKEN_BYTES
            };
            if arguments.as_str().len() > cap {
                let mut m = chars_of(tool_name);
                push_str_chars(
                    &mut m,
                    " arguments exceed the 64 KiB / approximately 10,000-token limit; use a smaller edit or a specialized script",
                );
                return Err(FunctionCallError::RespondToModel(string_from_chars(m.as_slice())));
            }
            Ok(arguments.clone())
        },
        ToolPayload::Unsupported => {
            let mut m = chars_of(tool_name);
            push_str_chars(&mut m, " received an unsupported payload");
            Err(FunctionCallError::RespondToModel(string_from_chars(m.as_slice())))
        },
    }
}

pub open spec fn msg_edit_path_too_long() -> Seq<char> {
    "edit_file path exceeds the 4096-byte limit"@
}

pub open spec fn msg_edit_empty_old_string() -> Seq<char> {
    "edit_file old_string must be non-empty"@
}

/// Checks the bounds of `edit_file` arguments: a path of at most 4096 bytes
/// and a non-empty text to replace.
pub fn check_edit_args(args: &EditFileArgs) -> (r: Result<(), FunctionCallError>)
    ensures
        str_len(args.path@) > MAX_PATH_BYTES ==> (r matches Err(e) && e.message_view()
            == msg_edit_path_too_long()),
        str_len(args.path@) <= MAX_PATH_BYTES && args.old_string@.len() == 0 ==> (r matches Err(
            e,
        ) && e.message_view() == msg_edit_empty_old_string()),
        str_len(args.path@) <= MAX_PATH_BYTES && args.old_string@.len() > 0 ==> r is Ok,
{
    if args.path.as_str().len() > MAX_PATH_BYTES {
        return Err(FunctionCallError::respond("edit_file path exceeds the 4096-byte limit"));
    }
    if args.old_string.as_str().is_empty() {
        return Err(FunctionCallError::respond("edit_file old_string must be non-empty"));
    }
    Ok(())
}

pub open spec fn msg_write_args() -> Seq<char> {
    "write_file path exceeds 4096 bytes or content exceeds the 8 MiB editable limit"@
}

/// Checks the bounds of `write_file` arguments.
pub fn check_write_args(args: &WriteFileArgs) -> (r: Result<(), FunctionCallError>)
    ensures
        r is Err <==> (str_len(args.path@) > MAX_PATH_BYTES || str_len(args.content@)
            > MAX_FILE_BYTES),
        r matches Err(e) ==> e.message_view() == msg_write_args(),
{
    if args.path.as_str().len() > MAX_PATH_BYTES || args.content.as_str().len() > MAX_FILE_BYTES {
        return Err(
            FunctionCallError::respond(
                "write_file path exceeds 4096 bytes or content exceeds the 8 MiB editable limit",
            ),
        );
    }
    Ok(())
}

/// The success message of `write_file`.
pub fn write_file_message(existed: bool) -> (r: &'static str)
    ensures
        existed ==> r@ == "write_file overwrote the file"@,
        !existed ==> r@ == "write_file created the file"@,
{
    if existed {
        "write_file overwrote the file"
    } else {
        "write_file created the file"
    }
}

/// Largest text, in bytes, that a file-change event carries in full.
pub const MAX_EVENT_BYTES: usize = 64 * 1024;

/// The text an event shows of `text`: all of it when small, else a
/// truncated prefix.
pub open spec fn event_text(text: Seq<char>) -> Seq<char> {
    if str_len(text) <= MAX_EVENT_BYTES {
        text
    } else {
        text.take(fit_prefix(text, MAX_EVENT_BYTES as int)) + "\n[event content truncated]"@
    }
}

/// `text` for a file-change event: whole when it fits in
/// [`MAX_EVENT_BYTES`], else cut at the last character boundary within that
/// many bytes and marked as truncated.
pub fn bounded_event_text(text: &str) -> (r: String)
    ensures
        r@ == event_text(text@),
{
    if text.len() <= MAX_EVENT_BYTES {
        return text.to_string();
    }
    let v = chars_of(text);
    let mut i: usize = 0;
    let mut acc: usize = 0;
    while i < v.len() && acc + char_width(v[i]) <= MAX_EVENT_BYTES
        invariant
            i <= v@.len(),
            acc <= MAX_EVENT_BYTES,
            fit_prefix_from(v@, i as int, acc as int, MAX_EVENT_BYTES as int) == fit_prefix(
                v@,
                MAX_EVENT_BYTES as int,
            ),
        decreases v.len() - i,
    {
        acc = acc + char_width(v[i]);
        i += 1;
    }
    let mut out = prefix_chars(&v, i);
    push_str_chars(&mut out, "\n[event content truncated]");
    string_from_chars(out.as_slice())
}


/// The JSON type of a tool parameter.
#[derive(Clone, Copy, Debug, PartialEq, Eq, Structural)]
pub enum SchemaKind {
    String,
    Integer,
    Boolean,
}

/// A named, described parameter of a tool.
#[derive(Debug)]
pub struct SchemaProperty {
    pub name: String,
    pub kind: SchemaKind,
    pub description: Option<String>,
}

/// The parameters of a tool: an object with these properties, of which
/// `required` must be present.
#[derive(Debug)]
pub struct ObjectSchema {
    pub properties: Vec<SchemaProperty>,
    pub required: Vec<String>,
    pub additional_properties: bool,
}

/// A function tool as offered to the model.
#[derive(Debug)]
pub struct FunctionToolSpec {
    pub name: String,
    pub description: String,
    pub strict: bool,
    pub parameters: ObjectSchema,
}

pub open spec fn properties_view(ps: Seq<SchemaProperty>) -> Seq<(Seq<char>, SchemaKind, Option<Seq<char>>)> {
    ps.map_values(|p: SchemaProperty| (p.name@, p.kind, opt_view(p.description)))
}

fn property(name: &str, kind: SchemaKind, description: &str) -> (r: SchemaProperty)
    ensures
        r.name@ == name@,
        r.kind == kind,
        r.description matches Some(d) && d@ == description@,
{
    SchemaProperty { name: name.to_string(), kind, description: Some(description.to_string()) }
}

/// The parameter schema of a file tool: these properties, these required,
/// no others allowed.
pub fn file_schema(properties: Vec<SchemaProperty>, required: Vec<String>) -> (r: ObjectSchema)
    ensures
        r.properties@ == properties@,
        r.required@ == required@,
        !r.additional_properties,
{
    ObjectSchema { properties, required, additional_properties: false }
}

/// Whether `spec` is the non-strict function tool `name` with this
/// description, these parameters and these required ones.
pub open spec fn is_tool_spec(
    spec: FunctionToolSpec,
    name: Seq<char>,
    description: Seq<char>,
    properties: Seq<(Seq<char>, SchemaKind, Option<Seq<char>>)>,
    required: Seq<Seq<char>>,
) -> bool {
    &&& spec.name@ == name
    &&& spec.description@ == description
    &&& !spec.strict
    &&& properties_view(spec.parameters.properties@) == properties
    &&& strings_view(spec.parameters.required@) == required
    &&& !spec.parameters.additional_properties
}

pub open spec fn path_property() -> (Seq<char>, SchemaKind, Option<Seq<char>>) {
    ("path"@, SchemaKind::String, Some("Workspace-relative file path."@))
}

pub open spec fn environment_property() -> (Seq<char>, SchemaKind, Option<Seq<char>>) {
    ("environment_id"@, SchemaKind::String, Some("Target environment id."@))
}

/// The spec of `read_file`.
pub fn read_file_spec() -> (r: FunctionToolSpec)
    ensures
        is_tool_spec(
            r,
            "read_file"@,
            "Read a bounded text file through Codex's filesystem layer."@,
            seq![
                path_property(),
                ("offset"@, SchemaKind::Integer, Some("1-based first line."@)),
                ("limit"@, SchemaKind::Integer, Some("Maximum number of lines."@)),
                environment_property(),
            ],
            seq!["path"@],
        ),
{
    let properties = vec![
        property("path", SchemaKind::String, "Workspace-relative file path."),
        property("offset", SchemaKind::Integer, "1-based first line."),
        property("limit", SchemaKind::Integer, "Maximum number of lines."),
        property("environment_id", SchemaKind::String, "Target environment id."),
    ];
    let required = vec!["path".to_string()];
    let r = FunctionToolSpec {
        name: "read_file".to_string(),
        description: "Read a bounded text file through Codex's filesystem layer.".to_string(),
        strict: false,
        parameters: file_schema(properties, required),
    };
    assert(properties_view(r.parameters.properties@) =~= seq![
        path_property(),
        ("offset"@, SchemaKind::Integer, Some("1-based first line."@)),
        ("limit"@, SchemaKind::Integer, Some("Maximum number of lines."@)),
        environment_property(),
    ]);
    assert(strings_view(r.parameters.required@) =~= seq!["path"@]);
    r
}

/// The spec of `edit_file`.
pub fn edit_file_spec() -> (r: FunctionToolSpec)
    ensures
        is_tool_spec(
            r,
            "edit_file"@,
            "Replace exact text in a previously read text file."@,
            seq![
                path_property(),
                ("old_string"@, SchemaKind::String, Some("Exact text to replace."@)),
                ("new_string"@, SchemaKind::String, Some("Replacement text."@)),
                ("replace_all"@, SchemaKind::Boolean, Some("Replace every match."@)),
                environment_property(),
            ],
            seq!["path"@, "old_string"@, "new_string"@],
        ),
{
    let properties = vec![
        property("path", SchemaKind::String, "Workspace-relative file path."),
        property("old_string", SchemaKind::String, "Exact text to replace."),
        property("new_string", SchemaKind::String, "Replacement text."),
        property("replace_all", SchemaKind::Boolean, "Replace every match."),
        property("environment_id", SchemaKind::String, "Target environment id."),
    ];
    let required = vec!["path".to_string(), "old_string".to_string(), "new_string".to_string()];
    let r = FunctionToolSpec {
        name: "edit_file".to_string(),
        description: "Replace exact text in a previously read text file.".to_string(),
        strict: false,
        parameters: file_schema(properties, required),
    };
    assert(properties_view(r.parameters.properties@) =~= seq![
        path_property(),
        ("old_string"@, SchemaKind::String, Some("Exact text to replace."@)),
        ("new_string"@, SchemaKind::String, Some("Replacement text."@)),
        ("replace_all"@, SchemaKind::Boolean, Some("Replace every match."@)),
        environment_property(),
    ]);
    assert(strings_view(r.parameters.required@) =~= seq!["path"@, "old_string"@, "new_string"@]);
    r
}

/// The spec of `write_file`.
pub fn write_file_spec() -> (r: FunctionToolSpec)
    ensures
        is_tool_spec(
            r,
            "write_file"@,
            "Create or overwrite a bounded text file through Codex's filesystem layer."@,
            seq![
                path_property(),
                ("content"@, SchemaKind::String, Some("Complete UTF-8 file content."@)),
                environment_property(),
            ],
            seq!["path"@, "content"@],
        ),
{
    let properties = vec![
        property("path", SchemaKind::String, "Workspace-relative file path."),
        property("content", SchemaKind::String, "Complete UTF-8 file content."),
        property("environment_id", SchemaKind::String, "Target environment id."),
    ];
    let required = vec!["path".to_string(), "content".to_string()];
    let r = FunctionToolSpec {
        name: "write_file".to_string(),
        description: "Create or overwrite a bounded text file through Codex's filesystem layer.".to_string(),
        strict: false,
        parameters: file_schema(properties, required),
    };
    assert(properties_view(r.parameters.properties@) =~= seq![
        path_property(),
        ("content"@, SchemaKind::String, Some("Complete UTF-8 file content."@)),
        environment_property(),
    ]);
    assert(strings_view(r.parameters.required@) =~= seq!["path"@, "content"@]);
    r
}

} // verus!
