//! What goes over the wire to the chat front end: transcript parts, tool
//! states and prompt cards, with their models.

use vstd::prelude::*;

use crate::json;
use crate::json::{Json, JsonV};
use crate::text;

verus! {

/// The state of a tool call.
#[derive(Debug)]
pub struct WireToolState {
    pub status: String,
    pub input: Option<Json>,
    pub output: Option<String>,
    pub error: Option<String>,
    pub title: Option<String>,
}

/// The model of a [`WireToolState`].
#[verifier::ext_equal]
pub struct ToolStateV {
    pub status: Seq<char>,
    pub input: Option<JsonV>,
    pub output: Option<Seq<char>>,
    pub error: Option<Seq<char>>,
    pub title: Option<Seq<char>>,
}

impl View for WireToolState {
    type V = ToolStateV;

    open spec fn view(&self) -> ToolStateV {
        ToolStateV {
            status: self.status@,
            input: json::opt_model(self.input),
            output: text::opt_text(self.output),
            error: text::opt_text(self.error),
            title: text::opt_text(self.title),
        }
    }
}

/// One option of a question card.
#[derive(Debug)]
pub struct WireQuestionOption {
    pub label: String,
    pub description: Option<String>,
}

/// The model of a [`WireQuestionOption`].
#[verifier::ext_equal]
pub struct OptionV {
    pub label: Seq<char>,
    pub description: Option<Seq<char>>,
}

impl View for WireQuestionOption {
    type V = OptionV;

    open spec fn view(&self) -> OptionV {
        OptionV { label: self.label@, description: text::opt_text(self.description) }
    }
}

/// The models of a sequence of options.
pub open spec fn option_models(v: Seq<WireQuestionOption>) -> Seq<OptionV> {
    Seq::new(v.len(), |i: int| v[i]@)
}

/// A card that asks the user something.
#[derive(Debug)]
pub struct WirePrompt {
    pub kind: String,
    pub tool: Option<String>,
    pub tool_input: Option<Json>,
    /// The request that the answer is sent to.
    pub native_id: Option<String>,
    pub question: Option<String>,
    pub header: Option<String>,
    pub options: Vec<WireQuestionOption>,
    pub multi_select: bool,
    pub plan_exit: bool,
}

/// The model of a [`WirePrompt`].
#[verifier::ext_equal]
pub struct PromptV {
    pub kind: Seq<char>,
    pub tool: Option<Seq<char>>,
    pub tool_input: Option<JsonV>,
    pub native_id: Option<Seq<char>>,
    pub question: Option<Seq<char>>,
    pub header: Option<Seq<char>>,
    pub options: Seq<OptionV>,
    pub multi_select: bool,
    pub plan_exit: bool,
}

impl View for WirePrompt {
    type V = PromptV;

    open spec fn view(&self) -> PromptV {
        PromptV {
            kind: self.kind@,
            tool: text::opt_text(self.tool),
            tool_input: json::opt_model(self.tool_input),
            native_id: text::opt_text(self.native_id),
            question: text::opt_text(self.question),
            header: text::opt_text(self.header),
            options: option_models(self.options@),
            multi_select: self.multi_select,
            plan_exit: self.plan_exit,
        }
    }
}

/// The model of an optional card.
pub open spec fn opt_prompt(o: Option<WirePrompt>) -> Option<PromptV> {
    match o {
        Some(p) => Some(p@),
        None => None,
    }
}

/// The card with nothing on it.
pub open spec fn blank_prompt() -> PromptV {
    PromptV {
        kind: Seq::empty(),
        tool: None,
        tool_input: None,
        native_id: None,
        question: None,
        header: None,
        options: Seq::empty(),
        multi_select: false,
        plan_exit: false,
    }
}

impl Default for WirePrompt {
    fn default() -> (r: WirePrompt)
        ensures
            r@ == blank_prompt(),
    {
        let options: Vec<WireQuestionOption> = Vec::new();
        assert(option_models(options@) =~= Seq::empty());
        WirePrompt {
            kind: String::new(),
            tool: None,
            tool_input: None,
            native_id: None,
            question: None,
            header: None,
            options,
            multi_select: false,
            plan_exit: false,
        }
    }
}

/// One part of a transcript.
#[derive(Debug)]
pub struct WirePart {
    pub id: String,
    pub kind: String,
    pub text: Option<String>,
    pub tool: Option<String>,
    pub state: Option<WireToolState>,
    pub prompt: Option<WirePrompt>,
    /// The transcript of a sub-agent that this part started.
    pub children: Vec<WirePart>,
}

/// The model of a [`WirePart`].
#[verifier::ext_equal]
pub struct PartV {
    pub id: Seq<char>,
    pub kind: Seq<char>,
    pub text: Option<Seq<char>>,
    pub tool: Option<Seq<char>>,
    pub state: Option<ToolStateV>,
    pub prompt: Option<PromptV>,
    pub children: Seq<PartV>,
}

/// The model of a part.
pub open spec fn part_model(p: WirePart) -> PartV
    decreases p,
{
    PartV {
        id: p.id@,
        kind: p.kind@,
        text: text::opt_text(p.text),
        tool: text::opt_text(p.tool),
        state: match p.state {
            Some(s) => Some(s@),
            None => None,
        },
        prompt: opt_prompt(p.prompt),
        children: Seq::new(
            p.children@.len(),
            |i: int|
                if 0 <= i < p.children@.len() {
                    part_model(p.children@[i])
                } else {
                    arbitrary()
                },
        ),
    }
}

impl View for WirePart {
    type V = PartV;

    open spec fn view(&self) -> PartV {
        part_model(*self)
    }
}

/// The models of a sequence of parts.
pub open spec fn part_models(v: Seq<WirePart>) -> Seq<PartV> {
    Seq::new(v.len(), |i: int| v[i]@)
}

/// The model of an optional part.
pub open spec fn opt_part(o: Option<WirePart>) -> Option<PartV> {
    match o {
        Some(p) => Some(p@),
        None => None,
    }
}

/// A part's children are modelled one by one.
pub broadcast proof fn lemma_children(p: WirePart)
    ensures
        #[trigger] part_model(p).children == part_models(p.children@),
{
    assert(part_model(p).children =~= part_models(p.children@));
}

/// A part that is only text.
pub open spec fn text_part(id: Seq<char>, content: Seq<char>) -> PartV {
    PartV {
        id,
        kind: "text"@,
        text: Some(content),
        tool: None,
        state: None,
        prompt: None,
        children: Seq::empty(),
    }
}

/// A part that is a card.
pub open spec fn prompt_part(id: Seq<char>, prompt: PromptV) -> PartV {
    PartV {
        id,
        kind: "prompt"@,
        text: None,
        tool: None,
        state: None,
        prompt: Some(prompt),
        children: Seq::empty(),
    }
}

impl WirePart {
    /// A part that is only text.
    pub fn text(id: &str, content: &str) -> (r: WirePart)
        ensures
            r@ == text_part(id@, content@),
    {
        let r: WirePart = WirePart {
            id: id.to_owned(),
            kind: "text".to_owned(),
            text: Some(content.to_owned()),
            tool: None,
            state: None,
            prompt: None,
            children: Vec::new(),
        };
        assert(r@.children =~= Seq::empty());
        r
    }

    /// A part that is a card.
    pub fn prompt(id: &str, prompt: WirePrompt) -> (r: WirePart)
        ensures
            r@ == prompt_part(id@, prompt@),
    {
        let r: WirePart = WirePart {
            id: id.to_owned(),
            kind: "prompt".to_owned(),
            text: None,
            tool: None,
            state: None,
            prompt: Some(prompt),
            children: Vec::new(),
        };
        assert(r@.children =~= Seq::empty());
        r
    }
}

/// How much of a model's context a turn uses.
#[derive(Debug, Clone, Copy, PartialEq, Eq, Structural)]
pub struct ContextUsage {
    pub used_tokens: u64,
    pub context_window: Option<u64>,
}

/// What is known of whether the turn's message reached the agent.
#[derive(Debug, Clone, Copy, PartialEq, Eq, Structural)]
pub enum DeliveryState {
    NotSent,
    Unknown,
    Accepted,
}

/// How permission requests are answered.
#[derive(Debug, Clone, Copy, PartialEq, Eq, Structural)]
pub enum PermissionMode {
    Ask,
    Auto,
}

/// The user's answer to a card.
#[derive(Debug)]
pub struct PromptAnswer {
    pub session_id: String,
    pub prompt_id: String,
    pub approve: bool,
    pub resume_mode: Option<PermissionMode>,
    pub answers: Vec<String>,
    pub note: Option<String>,
    pub annotations: Vec<String>,
}

} // verus!
