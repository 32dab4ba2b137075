//! Developer-context fragments: file tool guidance, multi-agent
//! instructions, and when the world-state sections are re-sent.
use vstd::prelude::*;
use crate::text::{chars_of, push_str_chars, str_eq, string_from_chars};
use crate::token_budget::TokenBudget;

verus! {

/// The guidance text naming the read, edit and write tools.
pub open spec fn chat_guidance_body(read: Seq<char>, edit: Seq<char>, write: Seq<char>) -> Seq<char> {
    "\nUse the callable file tools for ordinary text file IO. Read with `"@ + read + "`; edit with `"@
        + edit + "` only after a read in an earlier completion; create or overwrite with `"@ + write
        + "` only after the required read. Keep dependent Read\u{2192}Edit/Write calls in separate completions. Use shell or a script only when a file tool reports binary, unsupported encoding, or an editable-size limit.\n"@
}

/// The guidance as sent: the body between its markers.
pub open spec fn chat_guidance_rendered(read: Seq<char>, edit: Seq<char>, write: Seq<char>) -> Seq<char> {
    "<chat_file_tool_guidance>"@ + chat_guidance_body(read, edit, write) + "</chat_file_tool_guidance>"@
}

/// Guidance for chat sessions that expose the dedicated file tools, naming
/// them as the request names them.
pub struct ChatFileToolGuidance {
    pub read_name: String,
    pub edit_name: String,
    pub write_name: String,
}

impl ChatFileToolGuidance {
    /// Guidance naming the read, edit and write tools.
    pub fn new(read_name: String, edit_name: String, write_name: String) -> (r: Self)
        ensures
            r.read_name@ == read_name@,
            r.edit_name@ == edit_name@,
            r.write_name@ == write_name@,
    {
        ChatFileToolGuidance { read_name, edit_name, write_name }
    }

    /// The guidance is sent as a developer message.
    pub fn role(&self) -> (r: &'static str)
        ensures
            r@ == "developer"@,
    {
        "developer"
    }

    /// The markers around the guidance.
    pub fn markers(&self) -> (r: (&'static str, &'static str))
        ensures
            r.0@ == "<chat_file_tool_guidance>"@,
            r.1@ == "</chat_file_tool_guidance>"@,
    {
        Self::type_markers()
    }

    /// The markers around the guidance.
    pub fn type_markers() -> (r: (&'static str, &'static str))
        ensures
            r.0@ == "<chat_file_tool_guidance>"@,
            r.1@ == "</chat_file_tool_guidance>"@,
    {
        ("<chat_file_tool_guidance>", "</chat_file_tool_guidance>")
    }

    /// The text of the guidance.
    pub open spec fn body_text(&self) -> Seq<char> {
        chat_guidance_body(self.read_name@, self.edit_name@, self.write_name@)
    }

    /// The text of the guidance.
    pub fn body(&self) -> (r: String)
        ensures
            r@ == self.body_text(),
    {
        let mut v = chars_of("\nUse the callable file tools for ordinary text file IO. Read with `");
        push_str_chars(&mut v, self.read_name.as_str());
        push_str_chars(&mut v, "`; edit with `");
        push_str_chars(&mut v, self.edit_name.as_str());
        push_str_chars(&mut v, "` only after a read in an earlier completion; create or overwrite with `");
        push_str_chars(&mut v, self.write_name.as_str());
        push_str_chars(
            &mut v,
            "` only after the required read. Keep dependent Read\u{2192}Edit/Write calls in separate completions. Use shell or a script only when a file tool reports binary, unsupported encoding, or an editable-size limit.\n",
        );
        string_from_chars(v.as_slice())
    }

    /// The guidance as sent: the body between its markers.
    pub open spec fn rendered_text(&self) -> Seq<char> {
        chat_guidance_rendered(self.read_name@, self.edit_name@, self.write_name@)
    }

    /// The guidance as sent.
    pub fn render(&self) -> (r: String)
        ensures
            r@ == self.rendered_text(),
    {
        let mut v = chars_of("<chat_file_tool_guidance>");
        let body = self.body();
        push_str_chars(&mut v, body.as_str());
        push_str_chars(&mut v, "</chat_file_tool_guidance>");
        string_from_chars(v.as_slice())
    }
}

/// Guidance sent only when all dedicated file tools are callable.
pub struct DedicatedFileToolGuidance;

impl DedicatedFileToolGuidance {
    /// The markers around the guidance.
    pub fn type_markers() -> (r: (&'static str, &'static str))
        ensures
            r.0@ == "<dedicated_file_tool_guidance>"@,
            r.1@ == "</dedicated_file_tool_guidance>"@,
    {
        ("<dedicated_file_tool_guidance>", "</dedicated_file_tool_guidance>")
    }

    /// The text of the guidance.
    pub fn body(&self) -> (r: &'static str)
        ensures
            r@ == "\nUse read_file for ordinary text reads, edit_file for exact edits after a read in an earlier completion, and write_file for creates or whole-file writes. Keep dependent reads and mutations in separate completions. Use shell or a specialized script only for binary files, unsupported text encodings, or files above the editable limit.\n"@,
    {
        "\nUse read_file for ordinary text reads, edit_file for exact edits after a read in an earlier completion, and write_file for creates or whole-file writes. Keep dependent reads and mutations in separate completions. Use shell or a specialized script only for binary files, unsupported text encodings, or files above the editable limit.\n"
    }
}

/// Role instructions for multi-agent sessions, held to their token budget;
/// `marked` instructions are wrapped in role markers.
pub struct MultiAgentRoleInstructions {
    pub text: String,
    pub marked: bool,
}

impl MultiAgentRoleInstructions {
    /// Instructions sent without markers, cut to the usage-hint budget.
    pub fn unmarked<C: Fn(&str) -> usize, T: Fn(&str, usize) -> String>(
        text: String,
        budget: &TokenBudget<C, T>,
    ) -> (r: Self)
        requires
            budget.wf(),
        ensures
            budget.is_cut_of(text@, r.text),
            !r.marked,
    {
        MultiAgentRoleInstructions { text: budget.cut_to_budget(text.as_str()), marked: false }
    }

    /// Instructions sent as the role catalog, between markers, cut to the
    /// usage-hint budget.
    pub fn catalog<C: Fn(&str) -> usize, T: Fn(&str, usize) -> String>(
        text: String,
        budget: &TokenBudget<C, T>,
    ) -> (r: Self)
        requires
            budget.wf(),
        ensures
            budget.is_cut_of(text@, r.text),
            r.marked,
    {
        MultiAgentRoleInstructions { text: budget.cut_to_budget(text.as_str()), marked: true }
    }

    /// The instructions are sent as a developer message.
    pub fn role(&self) -> (r: &'static str)
        ensures
            r@ == "developer"@,
    {
        "developer"
    }

    /// The instructions are sent as a message of their own.
    pub fn requires_separate_message(&self) -> (r: bool)
        ensures
            r,
    {
        true
    }

    /// The text of the instructions.
    pub fn body(&self) -> (r: String)
        ensures
            r@ == self.text@,
    {
        self.text.clone()
    }

    /// The markers of catalog instructions.
    pub fn type_markers() -> (r: (&'static str, &'static str))
        ensures
            r.0@ == "<multi_agent_role>"@,
            r.1@ == "</multi_agent_role>"@,
    {
        ("<multi_agent_role>", "</multi_agent_role>")
    }

    /// The markers around the instructions: none when unmarked.
    pub fn markers(&self) -> (r: (&'static str, &'static str))
        ensures
            self.marked ==> r.0@ == "<multi_agent_role>"@ && r.1@ == "</multi_agent_role>"@,
            !self.marked ==> r.0@ == ""@ && r.1@ == ""@,
    {
        if self.marked {
            ("<multi_agent_role>", "</multi_agent_role>")
        } else {
            ("", "")
        }
    }
}

/// A configured multi-agent usage hint, held to its token budget.
pub struct MultiAgentUsageHint {
    pub text: String,
}

impl MultiAgentUsageHint {
    /// A hint with `text` cut to the usage-hint budget.
    pub fn new<C: Fn(&str) -> usize, T: Fn(&str, usize) -> String>(text: &str, budget: &TokenBudget<C, T>) -> (r:
        Self)
        requires
            budget.wf(),
        ensures
            budget.is_cut_of(text@, r.text),
    {
        MultiAgentUsageHint { text: budget.cut_to_budget(text) }
    }

    /// The hint is sent as a developer message.
    pub fn role(&self) -> (r: &'static str)
        ensures
            r@ == "developer"@,
    {
        "developer"
    }

    /// The hint is sent as a message of its own.
    pub fn requires_separate_message(&self) -> (r: bool)
        ensures
            r,
    {
        true
    }

    /// The hint carries no markers.
    pub fn markers(&self) -> (r: (&'static str, &'static str))
        ensures
            r.0@ == ""@,
            r.1@ == ""@,
    {
        ("", "")
    }

    /// The text of the hint.
    pub fn body(&self) -> (r: String)
        ensures
            r@ == self.text@,
    {
        self.text.clone()
    }
}

/// How the model is told to use other agents.
pub enum MultiAgentMode {
    ExplicitRequestOnly,
    Proactive,
    Custom(String),
}

/// The multi-agent mode the model sees, a custom hint held to its budget.
pub struct MultiAgentModeState {
    pub mode: Option<MultiAgentMode>,
}

impl MultiAgentModeState {
    /// The state for `mode`: a custom hint cut to the mode budget, other
    /// modes as they are.
    pub fn new<C: Fn(&str) -> usize, T: Fn(&str, usize) -> String>(
        mode: Option<MultiAgentMode>,
        budget: &TokenBudget<C, T>,
    ) -> (r: Self)
        requires
            budget.wf(),
        ensures
            match mode {
                None => r.mode is None,
                Some(MultiAgentMode::ExplicitRequestOnly) => r.mode == Some(MultiAgentMode::ExplicitRequestOnly),
                Some(MultiAgentMode::Proactive) => r.mode == Some(MultiAgentMode::Proactive),
                Some(MultiAgentMode::Custom(h)) => r.mode matches Some(MultiAgentMode::Custom(c))
                    && budget.is_cut_of(h@, c),
            },
    {
        let mode = match mode {
            None => None,
            Some(MultiAgentMode::Custom(h)) => Some(MultiAgentMode::Custom(budget.cut_to_budget(h.as_str()))),
            Some(MultiAgentMode::ExplicitRequestOnly) => Some(MultiAgentMode::ExplicitRequestOnly),
            Some(MultiAgentMode::Proactive) => Some(MultiAgentMode::Proactive),
        };
        MultiAgentModeState { mode }
    }
}

/// What the model last saw of a section.
pub enum PreviousSectionState<T> {
    /// Nothing is known of it.
    Unknown,
    /// It was never sent.
    Absent,
    /// It was sent with this snapshot.
    Known(T),
}

/// A mode as the model sees it: a custom mode with an empty hint is none.
pub open spec fn rendered(mode: Option<MultiAgentMode>) -> Option<MultiAgentMode> {
    match mode {
        Some(MultiAgentMode::Custom(h)) => if h@.len() == 0 {
            None
        } else {
            mode
        },
        _ => mode,
    }
}

/// Two modes are the same as the model sees them.
pub open spec fn same_mode(a: MultiAgentMode, b: MultiAgentMode) -> bool {
    match (a, b) {
        (MultiAgentMode::ExplicitRequestOnly, MultiAgentMode::ExplicitRequestOnly) => true,
        (MultiAgentMode::Proactive, MultiAgentMode::Proactive) => true,
        (MultiAgentMode::Custom(x), MultiAgentMode::Custom(y)) => x@ == y@,
        _ => false,
    }
}

/// The mode to send, given the current and the previously seen mode: none
/// when the model already sees the current one; the current one when it
/// changed; explicit-request-only when a proactive or custom mode was
/// dropped, or when nothing is known of what the model saw.
pub open spec fn mode_to_render(
    current: Option<MultiAgentMode>,
    previous: PreviousSectionState<Option<MultiAgentMode>>,
) -> Option<MultiAgentMode> {
    match rendered(current) {
        Some(m) => match previous {
            PreviousSectionState::Known(p) => match rendered(p) {
                Some(pm) => if same_mode(pm, m) {
                    None
                } else {
                    Some(m)
                },
                None => Some(m),
            },
            _ => Some(m),
        },
        None => match previous {
            PreviousSectionState::Known(p) => match rendered(p) {
                Some(MultiAgentMode::Proactive) => Some(MultiAgentMode::ExplicitRequestOnly),
                Some(MultiAgentMode::Custom(_)) => Some(MultiAgentMode::ExplicitRequestOnly),
                _ => None,
            },
            PreviousSectionState::Unknown => Some(MultiAgentMode::ExplicitRequestOnly),
            PreviousSectionState::Absent => None,
        },
    }
}

/// The views of the two modes agree.
pub open spec fn same_opt_mode(a: Option<MultiAgentMode>, b: Option<MultiAgentMode>) -> bool {
    match (a, b) {
        (Some(x), Some(y)) => same_mode(x, y),
        (None, None) => true,
        _ => false,
    }
}

fn copy_mode(m: &MultiAgentMode) -> (r: MultiAgentMode)
    ensures
        same_mode(r, *m),
{
    match m {
        MultiAgentMode::ExplicitRequestOnly => MultiAgentMode::ExplicitRequestOnly,
        MultiAgentMode::Proactive => MultiAgentMode::Proactive,
        MultiAgentMode::Custom(h) => MultiAgentMode::Custom(h.clone()),
    }
}

fn is_rendered(m: &MultiAgentMode) -> (r: bool)
    ensures
        r == (rendered(Some(*m)) is Some),
{
    match m {
        MultiAgentMode::Custom(h) => !h.as_str().is_empty(),
        _ => true,
    }
}

fn modes_equal(a: &MultiAgentMode, b: &MultiAgentMode) -> (r: bool)
    ensures
        r == same_mode(*a, *b),
{
    match (a, b) {
        (MultiAgentMode::ExplicitRequestOnly, MultiAgentMode::ExplicitRequestOnly) => true,
        (MultiAgentMode::Proactive, MultiAgentMode::Proactive) => true,
        (MultiAgentMode::Custom(x), MultiAgentMode::Custom(y)) => str_eq(x.as_str(), y.as_str()),
        _ => false,
    }
}

/// The multi-agent mode section to send, if any (see [`mode_to_render`]).
pub fn render_mode_diff(
    current: &Option<MultiAgentMode>,
    previous: &PreviousSectionState<Option<MultiAgentMode>>,
) -> (r: Option<MultiAgentMode>)
    ensures
        same_opt_mode(r, mode_to_render(*current, *previous)),
{
    let cur = match current {
        Some(m) => if is_rendered(m) {
            Some(m)
        } else {
            None
        },
        None => None,
    };
    match cur {
        Some(m) => {
            match previous {
                PreviousSectionState::Known(Some(p)) => {
                    if is_rendered(p) && modes_equal(p, m) {
                        None
                    } else {
                        Some(copy_mode(m))
                    }
                },
                _ => Some(copy_mode(m)),
            }
        },
        None => {
            match previous {
                PreviousSectionState::Known(Some(p)) => {
                    match p {
                        MultiAgentMode::Proactive => Some(MultiAgentMode::ExplicitRequestOnly),
                        MultiAgentMode::Custom(h) => if h.as_str().is_empty() {
                            None
                        } else {
                            Some(MultiAgentMode::ExplicitRequestOnly)
                        },
                        MultiAgentMode::ExplicitRequestOnly => None,
                    }
                },
                PreviousSectionState::Known(None) => None,
                PreviousSectionState::Unknown => Some(MultiAgentMode::ExplicitRequestOnly),
                PreviousSectionState::Absent => None,
            }
        },
    }
}

/// The runtime's policy on continuing work as the context fills.
pub open spec fn continuation_instructions() -> Seq<char> {
    "The runtime manages context compaction or rollover. Context-window capacity is not a task deadline or the goal's token budget. Cumulative token usage across requests is not the current context-window size. Continue the authorized work and tool calls while work remains; do not stop, defer it to a new conversation, or claim this turn's context is exhausted based on your own estimate. After compaction, use the retained summary and current state to continue the same task. Do not mark an unfinished goal complete or blocked because the context is filling up or a response is ending. Actual runtime errors, user stop requests, permissions, and explicit goal or usage limits still apply; report real failures accurately instead of claiming success."@
}

/// Whether the continuation policy must be sent again: unless the model
/// already saw exactly it.
pub fn continuation_needs_render(previous: &PreviousSectionState<String>) -> (r: bool)
    ensures
        r == !(previous matches PreviousSectionState::Known(m) && m@ == continuation_instructions()),
{
    match previous {
        PreviousSectionState::Known(m) => !str_eq(
            m.as_str(),
            "The runtime manages context compaction or rollover. Context-window capacity is not a task deadline or the goal's token budget. Cumulative token usage across requests is not the current context-window size. Continue the authorized work and tool calls while work remains; do not stop, defer it to a new conversation, or claim this turn's context is exhausted based on your own estimate. After compaction, use the retained summary and current state to continue the same task. Do not mark an unfinished goal complete or blocked because the context is filling up or a response is ending. Actual runtime errors, user stop requests, permissions, and explicit goal or usage limits still apply; report real failures accurately instead of claiming success.",
        ),
        _ => true,
    }
}


/// Once the model has seen the current mode, nothing more is sent for it.
pub proof fn law_mode_diff_settles(current: Option<MultiAgentMode>)
    ensures
        mode_to_render(current, PreviousSectionState::Known(current)) is None,
{
}

/// A mode that changed to another one the model can see is sent as the new
/// mode.
pub proof fn law_changed_mode_is_sent(current: MultiAgentMode, previous: Option<MultiAgentMode>)
    requires
        rendered(Some(current)) is Some,
        !same_opt_mode(rendered(previous), Some(current)),
    ensures
        mode_to_render(Some(current), PreviousSectionState::Known(previous)) == Some(current),
{
}

} // verus!
