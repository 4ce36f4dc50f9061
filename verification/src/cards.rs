//! Agent payloads to transcript parts and prompt cards, and the small rules
//! that go with them.

use vstd::prelude::*;

use crate::collections;
use crate::collections::{StrMap, StrSet};
use crate::json;
use crate::json::{Json, JsonV};
use crate::text;
use crate::wire;
use crate::wire::{
    OptionV, PartV, PermissionMode, PromptAnswer, PromptV, ToolStateV, WirePart, WirePrompt,
    WireQuestionOption, WireToolState,
};

verus! {

broadcast use {json::group_json, wire::lemma_children};

/// The reasoning level that stands for "the model's own default".
pub const REASONING_DEFAULT_ID: &'static str = "default";

// ---------------------------------------------------------------------------
// Parts
// ---------------------------------------------------------------------------

/// The member of an optional document.
pub open spec fn opt_get(doc: Option<JsonV>, key: Seq<char>) -> Option<JsonV> {
    match doc {
        Some(d) => d.get(key),
        None => None,
    }
}

/// The string member of an optional document.
pub open spec fn opt_str_at(doc: Option<JsonV>, key: Seq<char>) -> Option<Seq<char>> {
    match doc {
        Some(d) => d.str_at(key),
        None => None,
    }
}

/// The text, or a fallback.
pub open spec fn text_or(t: Option<Seq<char>>, fallback: Seq<char>) -> Seq<char> {
    match t {
        Some(s) => s,
        None => fallback,
    }
}

/// The state that a tool part reports.
pub open spec fn tool_state(state: Option<JsonV>) -> ToolStateV {
    ToolStateV {
        status: text_or(opt_str_at(state, "status"@), "running"@),
        input: opt_get(state, "input"@),
        output: opt_str_at(state, "output"@),
        error: opt_str_at(state, "error"@),
        title: opt_str_at(state, "title"@),
    }
}

/// The transcript part that an agent part stands for: text, reasoning and
/// tool calls have one, if the part has an id.
pub open spec fn wire_part(part: JsonV) -> Option<PartV> {
    match (part.str_at("id"@), part.str_at("type"@)) {
        (Some(id), Some(kind)) => {
            if kind == "text"@ || kind == "reasoning"@ {
                Some(
                    PartV {
                        id,
                        kind,
                        text: part.str_at("text"@),
                        tool: None,
                        state: None,
                        prompt: None,
                        children: Seq::empty(),
                    },
                )
            } else if kind == "tool"@ {
                Some(
                    PartV {
                        id,
                        kind,
                        text: None,
                        tool: part.str_at("tool"@),
                        state: Some(tool_state(part.get("state"@))),
                        prompt: None,
                        children: Seq::empty(),
                    },
                )
            } else {
                None
            }
        },
        _ => None,
    }
}

/// The string member of an optional document.
fn opt_text_at(doc: Option<&Json>, key: &str) -> (r: Option<String>)
    ensures
        text::opt_text(r) == opt_str_at(json::ref_model(doc), key@),
{
    match doc {
        Some(d) => d.text_at(key),
        None => None,
    }
}

/// The text, or a fallback.
pub fn owned_or(t: Option<String>, fallback: &str) -> (r: String)
    ensures
        r@ == text_or(text::opt_text(t), fallback@),
{
    match t {
        Some(s) => s,
        None => fallback.to_owned(),
    }
}

/// The transcript part that an agent part stands for.
pub fn to_wire_part(part: &Json) -> (r: Option<WirePart>)
    ensures
        wire::opt_part(r) == wire_part(part@),
{
    let id: String = match part.text_at("id") {
        Some(id) => id,
        None => {
            return None;
        },
    };
    let kind: String = match part.text_at("type") {
        Some(kind) => kind,
        None => {
            return None;
        },
    };
    if text::str_eq(kind.as_str(), "text") || text::str_eq(kind.as_str(), "reasoning") {
        let r: WirePart = WirePart {
            id,
            kind,
            text: part.text_at("text"),
            tool: None,
            state: None,
            prompt: None,
            children: Vec::new(),
        };
        assert(r@.children =~= Seq::empty());
        Some(r)
    } else if text::str_eq(kind.as_str(), "tool") {
        let state: Option<&Json> = part.get("state");
        let input: Option<Json> = match state {
            Some(s) => crate::document::copy_opt(s.get("input")),
            None => None,
        };
        let r: WirePart = WirePart {
            id,
            kind,
            text: None,
            tool: part.text_at("tool"),
            state: Some(
                WireToolState {
                    status: owned_or(opt_text_at(state, "status"), "running"),
                    input,
                    output: opt_text_at(state, "output"),
                    error: opt_text_at(state, "error"),
                    title: opt_text_at(state, "title"),
                },
            ),
            prompt: None,
            children: Vec::new(),
        };
        assert(r@.children =~= Seq::empty());
        Some(r)
    } else {
        None
    }
}

/// A `task` row that no child session has been linked to.
pub open spec fn free_task(part: PartV, claimed: Seq<(Seq<char>, Seq<char>)>) -> bool {
    part.tool == Some("task"@) && !collections::has_value(claimed, part.id)
}

/// The id of the last `task` row that no child session has been linked to.
pub open spec fn newest_task(
    parts: Seq<PartV>,
    claimed: Seq<(Seq<char>, Seq<char>)>,
) -> Option<Seq<char>>
    decreases parts.len(),
{
    if parts.len() == 0 {
        None
    } else if free_task(parts.last(), claimed) {
        Some(parts.last().id)
    } else {
        newest_task(parts.drop_last(), claimed)
    }
}

/// The row that a freshly started sub-agent session belongs to.
pub fn newest_task_part_id(parts: &Vec<WirePart>, claimed: &StrMap) -> (r: Option<String>)
    ensures
        text::opt_text(r) == newest_task(wire::part_models(parts@), claimed@),
{
    let ghost all = wire::part_models(parts@);
    let mut i: usize = parts.len();
    assert(all.take(i as int) =~= all);
    while i > 0
        invariant
            i <= parts@.len(),
            all == wire::part_models(parts@),
            newest_task(all, claimed@) == newest_task(all.take(i as int), claimed@),
        decreases i,
    {
        assert(all.take(i as int).last() == parts@[i - 1]@);
        if text::opt_is(text::opt_as_str(&parts[i - 1].tool), "task") && !claimed.contains_value(
            parts[i - 1].id.as_str(),
        ) {
            return Some(parts[i - 1].id.clone());
        }
        assert(all.take(i as int).drop_last() =~= all.take(i - 1));
        i -= 1;
    }
    None
}

// ---------------------------------------------------------------------------
// Cards
// ---------------------------------------------------------------------------

/// A member that is present and not `null`.
pub open spec fn non_null(doc: Option<JsonV>) -> Option<JsonV> {
    match doc {
        Some(d) => if d is Null {
            None
        } else {
            Some(d)
        },
        None => None,
    }
}

/// The card for a permission request: it needs the request's id.
pub open spec fn permission_prompt(props: JsonV) -> Option<PromptV> {
    match props.str_at("id"@) {
        Some(id) => Some(
            PromptV {
                kind: "permission"@,
                tool: props.str_at("permission"@),
                tool_input: non_null(props.get("metadata"@)),
                native_id: Some(id),
                ..wire::blank_prompt()
            },
        ),
        None => None,
    }
}

/// A copy of a member that is present and not `null`.
pub fn copy_non_null(doc: Option<&Json>) -> (r: Option<Json>)
    ensures
        json::opt_model(r) == non_null(json::ref_model(doc)),
{
    match doc {
        Some(d) => if d.is_null() {
            None
        } else {
            Some(d.copy())
        },
        None => None,
    }
}

/// The card for a permission request.
pub fn permission_card(props: &Json) -> (r: Option<WirePrompt>)
    ensures
        wire::opt_prompt(r) == permission_prompt(props@),
{
    match props.text_at("id") {
        Some(id) => {
            let mut card: WirePrompt = WirePrompt::default();
            card.kind = "permission".to_owned();
            card.tool = props.text_at("permission");
            card.tool_input = copy_non_null(props.get("metadata"));
            card.native_id = Some(id);
            Some(card)
        },
        None => None,
    }
}

/// The options of a question that carry a label.
pub open spec fn labelled_options(options: Seq<JsonV>) -> Seq<OptionV>
    decreases options.len(),
{
    if options.len() == 0 {
        Seq::empty()
    } else {
        match options.last().str_at("label"@) {
            Some(label) => labelled_options(options.drop_last()).push(
                OptionV { label, description: options.last().str_at("description"@) },
            ),
            None => labelled_options(options.drop_last()),
        }
    }
}

/// The options of a question that carry a label.
fn read_options(options: &Vec<Json>) -> (r: Vec<WireQuestionOption>)
    ensures
        wire::option_models(r@) == labelled_options(json::models(options@)),
{
    let ghost all = json::models(options@);
    let mut out: Vec<WireQuestionOption> = Vec::new();
    let mut i: usize = 0;
    assert(all.take(0) =~= Seq::empty());
    assert(wire::option_models(out@) =~= Seq::empty());
    while i < options.len()
        invariant
            i <= options@.len(),
            all == json::models(options@),
            wire::option_models(out@) == labelled_options(all.take(i as int)),
        decreases options@.len() - i,
    {
        assert(all.take(i + 1).drop_last() =~= all.take(i as int));
        assert(all.take(i + 1).last() == options@[i as int]@);
        match options[i].text_at("label") {
            Some(label) => {
                let ghost before = wire::option_models(out@);
                let option: WireQuestionOption = WireQuestionOption {
                    label,
                    description: options[i].text_at("description"),
                };
                out.push(option);
                assert(wire::option_models(out@) =~= before.push(option@));
            },
            None => {},
        }
        i += 1;
    }
    assert(all.take(i as int) =~= all);
    out
}

/// The tool call that a question belongs to.
pub open spec fn asking_call(props: JsonV) -> Option<Seq<char>> {
    opt_str_at(props.get("tool"@), "callID"@)
}

/// The card for a question: it needs the request's id and a first question.
/// It is the plan's exit exactly if the call that asks is one of `exits`.
pub open spec fn question_prompt(props: JsonV, exits: Set<Seq<char>>) -> Option<PromptV> {
    match (props.str_at("id"@), props.array_at("questions"@)) {
        (Some(id), Some(questions)) => if questions.len() > 0 {
            let q = questions[0];
            Some(
                PromptV {
                    kind: "question"@,
                    question: q.str_at("question"@),
                    header: q.str_at("header"@),
                    options: labelled_options(q.items_at("options"@)),
                    multi_select: q.bool_at("multiple"@) == Some(true),
                    plan_exit: match asking_call(props) {
                        Some(call) => exits.contains(call),
                        None => false,
                    },
                    native_id: Some(id),
                    ..wire::blank_prompt()
                },
            )
        } else {
            None
        },
        _ => None,
    }
}

/// The card for a question.
pub fn question_card(props: &Json, plan_exit_calls: &StrSet) -> (r: Option<WirePrompt>)
    ensures
        wire::opt_prompt(r) == question_prompt(props@, plan_exit_calls@),
{
    let id: String = match props.text_at("id") {
        Some(id) => id,
        None => {
            return None;
        },
    };
    let questions: &Vec<Json> = match props.array_at("questions") {
        Some(questions) => questions,
        None => {
            return None;
        },
    };
    if questions.len() == 0 {
        return None;
    }
    let q: &Json = &questions[0];
    assert(json::models(questions@)[0] == q@);
    let options: Vec<WireQuestionOption> = match q.array_at("options") {
        Some(options) => read_options(options),
        None => Vec::new(),
    };
    assert(q@.array_at("options"@) is None ==> wire::option_models(options@)
        =~= labelled_options(Seq::empty()));
    let call: Option<String> = match props.get("tool") {
        Some(tool) => tool.text_at("callID"),
        None => None,
    };
    let mut card: WirePrompt = WirePrompt::default();
    card.kind = "question".to_owned();
    card.question = q.text_at("question");
    card.header = q.text_at("header");
    card.options = options;
    card.multi_select = match q.bool_at("multiple") {
        Some(b) => b,
        None => false,
    };
    card.plan_exit = match call {
        Some(call_id) => plan_exit_calls.contains(call_id.as_str()),
        None => false,
    };
    card.native_id = Some(id);
    Some(card)
}

// ---------------------------------------------------------------------------
// Modes
// ---------------------------------------------------------------------------

/// The agent that a turn runs: the read-only planner in plan mode.
pub fn opencode_agent(plan_mode: bool) -> (r: &'static str)
    ensures
        r@ == agent_name(plan_mode),
{
    if plan_mode {
        "plan"
    } else {
        "build"
    }
}

/// The agent that a turn runs.
pub open spec fn agent_name(plan_mode: bool) -> Seq<char> {
    if plan_mode {
        "plan"@
    } else {
        "build"@
    }
}

/// Permission requests are answered without asking the user.
pub fn opencode_auto_approve(mode: Option<PermissionMode>) -> (r: bool)
    ensures
        r == (mode == Some(PermissionMode::Auto)),
{
    match mode {
        Some(PermissionMode::Auto) => true,
        _ => false,
    }
}

/// The variant that a reasoning level asks for: every level but the default
/// asks for the variant of its own name.
pub open spec fn variant_for(level: Option<Seq<char>>) -> Option<Seq<char>> {
    if level == Some(REASONING_DEFAULT_ID@) {
        None
    } else {
        level
    }
}

/// The variant that a reasoning level asks for.
pub fn opencode_variant<'a>(level: Option<&'a str>) -> (r: Option<&'a str>)
    ensures
        text::opt_str(r) == variant_for(text::opt_str(level)),
{
    match level {
        Some(l) => if text::str_eq(l, REASONING_DEFAULT_ID) {
            None
        } else {
            Some(l)
        },
        None => None,
    }
}

/// One of the answers is "yes", in any case.
pub open spec fn says_yes(answers: Seq<Seq<char>>) -> bool {
    exists|i: int|
        0 <= i < answers.len() && text::lower_text(#[trigger] answers[i]) == text::lower_text(
            "yes"@,
        )
}

/// The plan mode after an answer, if the card was the plan's exit: "yes"
/// leaves plan mode, anything else stays in it.
pub fn plan_exit_transition(prompt: &WirePrompt, answer: &PromptAnswer) -> (r: Option<bool>)
    ensures
        r == (if prompt@.plan_exit {
            Some(!says_yes(text::texts(answer.answers@)))
        } else {
            None
        }),
{
    if !prompt.plan_exit {
        return None;
    }
    let ghost all = text::texts(answer.answers@);
    let mut i: usize = 0;
    while i < answer.answers.len()
        invariant
            i <= answer.answers@.len(),
            prompt.plan_exit,
            all == text::texts(answer.answers@),
            forall|j: int|
                0 <= j < i ==> text::lower_text(#[trigger] all[j]) != text::lower_text("yes"@),
        decreases answer.answers@.len() - i,
    {
        if text::eq_ignore_case(answer.answers[i].as_str(), "yes") {
            assert(text::lower_text(all[i as int]) == text::lower_text("yes"@));
            return Some(false);
        }
        i += 1;
    }
    Some(true)
}

// ---------------------------------------------------------------------------
// Replies and titles
// ---------------------------------------------------------------------------

/// Told to the user when the agent gives no reason.
pub const ERROR_FALLBACK: &'static str = "OpenCode reported an error";

/// Told to the user when the agent compacted the context and stopped.
pub const COMPACTED: &'static str =
    "OpenCode compacted the context but did not resume this turn. Continue the chat to resume.";

/// The error that a final message carries: its `info.error`, unless that is
/// `null`, or else that the message is only a summary of the context.
pub open spec fn response_error(message: JsonV) -> Option<Seq<char>> {
    let info = message.member("info"@);
    match non_null(info.get("error"@)) {
        Some(error) => {
            let detail = match error.member("data"@).get("message"@) {
                Some(m) => Some(m),
                None => error.get("message"@),
            };
            Some(
                text_or(
                    match detail {
                        Some(m) => m.as_str(),
                        None => None,
                    },
                    ERROR_FALLBACK@,
                ),
            )
        },
        None => if info.bool_at("summary"@) == Some(true) {
            Some(COMPACTED@)
        } else {
            None
        },
    }
}

/// The error that a final message carries.
pub fn opencode_response_error(message: &Json) -> (r: Option<String>)
    ensures
        text::opt_text(r) == response_error(message@),
{
    let info: &Json = match message.get("info") {
        Some(info) => info,
        None => {
            return None;
        },
    };
    match info.get("error") {
        Some(error) => if !error.is_null() {
            let nested: Option<&Json> = match error.get("data") {
                Some(data) => data.get("message"),
                None => None,
            };
            let detail: Option<&Json> = match nested {
                Some(m) => Some(m),
                None => error.get("message"),
            };
            let told: Option<&str> = match detail {
                Some(m) => m.as_str(),
                None => None,
            };
            return Some(owned_or(text::opt_owned(told), ERROR_FALLBACK));
        },
        None => {},
    }
    match info.bool_at("summary") {
        Some(true) => Some(COMPACTED.to_owned()),
        _ => None,
    }
}

/// A final message belongs to the turn if it was created in it.
pub open spec fn response_is_current(message: JsonV, turn_started_at: i64) -> bool {
    match message.member("info"@).member("time"@).i64_at("created"@) {
        Some(created) => created >= turn_started_at,
        None => false,
    }
}

/// A final message belongs to the turn if it was created in it.
pub fn opencode_response_is_current(message: &Json, turn_started_at: i64) -> (r: bool)
    ensures
        r == response_is_current(message@, turn_started_at),
{
    match message.get("info") {
        Some(info) => match info.get("time") {
            Some(time) => match time.i64_at("created") {
                Some(created) => created >= turn_started_at,
                None => false,
            },
            None => false,
        },
        None => false,
    }
}

/// A token count, zero if it is missing.
pub open spec fn count_at(doc: JsonV, key: Seq<char>) -> nat {
    match doc.u64_at(key) {
        Some(n) => n as nat,
        None => 0,
    }
}

/// The tokens that occupy the context.
pub open spec fn token_total(tokens: JsonV) -> nat {
    count_at(tokens, "input"@) + count_at(tokens, "output"@) + count_at(tokens, "reasoning"@)
        + count_at(tokens.member("cache"@), "read"@) + count_at(tokens.member("cache"@), "write"@)
}

/// The total of an optional token object.
pub open spec fn opt_token_total(tokens: Option<JsonV>) -> nat {
    match tokens {
        Some(t) => token_total(t),
        None => 0,
    }
}

/// A token count, zero if it is missing.
fn count_of(doc: &Json, key: &str) -> (r: u64)
    ensures
        r == count_at(doc@, key@),
{
    match doc.u64_at(key) {
        Some(n) => n,
        None => 0,
    }
}

/// The five counts of a token object.
fn token_counts(tokens: &Json) -> (r: (u64, u64, u64, u64, u64))
    ensures
        r.0 == count_at(tokens@, "input"@),
        r.1 == count_at(tokens@, "output"@),
        r.2 == count_at(tokens@, "reasoning"@),
        r.3 == count_at(tokens@.member("cache"@), "read"@),
        r.4 == count_at(tokens@.member("cache"@), "write"@),
{
    let cache: (u64, u64) = match tokens.get("cache") {
        Some(c) => (count_of(c, "read"), count_of(c, "write")),
        None => (0, 0),
    };
    (
        count_of(tokens, "input"),
        count_of(tokens, "output"),
        count_of(tokens, "reasoning"),
        cache.0,
        cache.1,
    )
}

/// The total fits the counter.
pub fn tokens_in_range(tokens: Option<&Json>) -> (r: bool)
    ensures
        r == (opt_token_total(json::ref_model(tokens)) <= u64::MAX),
{
    match tokens {
        Some(t) => {
            let n: (u64, u64, u64, u64, u64) = token_counts(t);
            let total: u128 = n.0 as u128 + n.1 as u128 + n.2 as u128 + n.3 as u128 + n.4 as u128;
            total <= u64::MAX as u128
        },
        None => true,
    }
}

/// The tokens in use; the all-zero placeholder of an early update counts as
/// no report.
pub fn opencode_used_tokens(tokens: Option<&Json>) -> (r: Option<u64>)
    requires
        opt_token_total(json::ref_model(tokens)) <= u64::MAX,
    ensures
        match r {
            Some(n) => n > 0 && n == opt_token_total(json::ref_model(tokens)),
            None => opt_token_total(json::ref_model(tokens)) == 0,
        },
{
    match tokens {
        Some(t) => {
            let n: (u64, u64, u64, u64, u64) = token_counts(t);
            let total: u64 = n.0 + n.1 + n.2 + n.3 + n.4;
            if total > 0 {
                Some(total)
            } else {
                None
            }
        },
        None => None,
    }
}

/// The title that the agent gives every new session.
pub open spec fn seed_title(title: Seq<char>) -> bool {
    text::starts_with(text::trim_start(title), "New session - "@)
}

/// The title that the agent gives every new session, to be replaced later.
pub fn is_opencode_seed_title(title: &str) -> (r: bool)
    ensures
        r == seed_title(title@),
{
    let trimmed: String = text::trim_start_text(title);
    text::starts_with_text(trimmed.as_str(), "New session - ")
}

// ---------------------------------------------------------------------------
// Laws
// ---------------------------------------------------------------------------

/// A card can always be answered: it carries the id of the request it came
/// from.
pub proof fn cards_carry_their_request(props: JsonV, exits: Set<Seq<char>>)
    ensures
        permission_prompt(props) matches Some(card) ==> card.native_id == props.str_at("id"@)
            && card.native_id is Some,
        question_prompt(props, exits) matches Some(card) ==> card.native_id == props.str_at("id"@)
            && card.native_id is Some,
        permission_prompt(props) is Some <==> props.str_at("id"@) is Some,
        question_prompt(props, exits) is Some ==> props.str_at("id"@) is Some,
{
}

/// The row that a child session is linked to is a `task` row that no other
/// child session has.
pub proof fn newest_task_is_free(parts: Seq<PartV>, claimed: Seq<(Seq<char>, Seq<char>)>)
    ensures
        match newest_task(parts, claimed) {
            Some(id) => exists|i: int|
                0 <= i < parts.len() && (#[trigger] parts[i]).id == id && free_task(
                    parts[i],
                    claimed,
                ) && forall|j: int|
                    i < j < parts.len() ==> !free_task(#[trigger] parts[j], claimed),
            None => forall|i: int|
                0 <= i < parts.len() ==> !free_task(#[trigger] parts[i], claimed),
        },
    decreases parts.len(),
{
    if parts.len() > 0 {
        let init = parts.drop_last();
        if free_task(parts.last(), claimed) {
            assert(parts[parts.len() - 1].id == newest_task(parts, claimed)->0);
        } else {
            newest_task_is_free(init, claimed);
            match newest_task(init, claimed) {
                Some(id) => {
                    let i = choose|i: int|
                        0 <= i < init.len() && (#[trigger] init[i]).id == id && free_task(
                            init[i],
                            claimed,
                        ) && forall|j: int|
                            i < j < init.len() ==> !free_task(#[trigger] init[j], claimed);
                    assert(parts[i] == init[i]);
                    assert forall|j: int| i < j < parts.len() implies !free_task(
                        #[trigger] parts[j],
                        claimed,
                    ) by {
                        if j < init.len() {
                            assert(parts[j] == init[j]);
                        }
                    }
                },
                None => {
                    assert forall|i: int| 0 <= i < parts.len() implies !free_task(
                        #[trigger] parts[i],
                        claimed,
                    ) by {
                        if i < init.len() {
                            assert(parts[i] == init[i]);
                        }
                    }
                },
            }
        }
    }
}

// ---------------------------------------------------------------------------
// What the cards are for
// ---------------------------------------------------------------------------

proof fn lemma_kinds()
    ensures
        "text"@ != "reasoning"@,
        "text"@ != "tool"@,
        "reasoning"@ != "tool"@,
{
    reveal_strlit("text");
    reveal_strlit("reasoning");
    reveal_strlit("tool");
    assert("text"@.len() != "reasoning"@.len());
    assert("text"@[1] != "tool"@[1]);
    assert("reasoning"@.len() != "tool"@.len());
}

/// A permission card shows what is asked for: the permission, and its metadata
/// as it came, if it has any. It says nothing else.
pub proof fn permission_cards_show_the_request(props: JsonV, id: Seq<char>)
    requires
        props.str_at("id"@) == Some(id),
    ensures
        permission_prompt(props) matches Some(card) && card == (PromptV {
            kind: "permission"@,
            tool: props.str_at("permission"@),
            tool_input: if props.get("metadata"@) == Some(JsonV::Null) {
                None
            } else {
                props.get("metadata"@)
            },
            native_id: Some(id),
            question: None,
            header: None,
            options: Seq::empty(),
            multi_select: false,
            plan_exit: false,
        }),
{
}

proof fn lemma_labelled(options: Seq<JsonV>, i: int, label: Seq<char>) -> (n: int)
    requires
        0 <= i < options.len(),
        options[i].str_at("label"@) == Some(label),
    ensures
        0 <= n < labelled_options(options).len(),
        labelled_options(options)[n] == (OptionV {
            label,
            description: options[i].str_at("description"@),
        }),
    decreases options.len(),
{
    let init = options.drop_last();
    if i == options.len() - 1 {
        labelled_options(init).len() as int
    } else {
        assert(init[i] == options[i]);
        lemma_labelled(init, i, label)
    }
}

/// A question card asks the first question, in its words and under its
/// heading, with the request's id. Several answers can be picked exactly if the
/// question says so.
pub proof fn question_cards_ask_the_question(
    props: JsonV,
    exits: Set<Seq<char>>,
    id: Seq<char>,
    questions: Seq<JsonV>,
)
    requires
        props.str_at("id"@) == Some(id),
        props.get("questions"@) == Some(JsonV::Array(questions)),
        questions.len() > 0,
    ensures
        ({
            let q = questions[0];
            let call = props.member("tool"@).str_at("callID"@);
            question_prompt(props, exits) matches Some(card) && {
                &&& card.kind == "question"@
                &&& card.native_id == Some(id)
                &&& card.question == q.str_at("question"@)
                &&& card.header == q.str_at("header"@)
                &&& card.multi_select <==> q.get("multiple"@) == Some(JsonV::Bool(true))
                &&& card.plan_exit <==> call is Some && exits.contains(call->0)
                &&& card.tool is None
                &&& card.tool_input is None
            }
        }),
{
}

/// Every labelled option of a question stands on its card, with its
/// description.
pub proof fn question_options_are_shown(
    props: JsonV,
    exits: Set<Seq<char>>,
    id: Seq<char>,
    questions: Seq<JsonV>,
    i: int,
    label: Seq<char>,
) -> (n: int)
    requires
        props.str_at("id"@) == Some(id),
        props.get("questions"@) == Some(JsonV::Array(questions)),
        questions.len() > 0,
        0 <= i < questions[0].items_at("options"@).len(),
        questions[0].items_at("options"@)[i].str_at("label"@) == Some(label),
    ensures
        question_prompt(props, exits) matches Some(card) && 0 <= n < card.options.len()
            && card.options[n].label == label && card.options[n].description
            == questions[0].items_at("options"@)[i].str_at("description"@),
{
    lemma_labelled(questions[0].items_at("options"@), i, label)
}

/// Options are shown in the order in which they came, and only those that have
/// a label.
pub proof fn options_keep_their_order(a: Seq<JsonV>, b: Seq<JsonV>, option: JsonV)
    ensures
        labelled_options(a + b) == labelled_options(a) + labelled_options(b),
        labelled_options(seq![option]).len() == (if option.str_at("label"@) is Some {
            1nat
        } else {
            0nat
        }),
    decreases b.len(),
{
    reveal_with_fuel(labelled_options, 2);
    assert(seq![option].drop_last() =~= Seq::empty());
    assert(seq![option].last() == option);
    if b.len() == 0 {
        assert(a + b =~= a);
        assert(labelled_options(a) + labelled_options(b) =~= labelled_options(a));
    } else {
        options_keep_their_order(a, b.drop_last(), option);
        assert((a + b).drop_last() =~= a + b.drop_last());
        assert((a + b).last() == b.last());
        assert(labelled_options(a + b) =~= labelled_options(a) + labelled_options(b));
    }
}

/// The parts of a transcript: text and reasoning with their text, a tool call
/// with the tool and its state, each under the agent's id. What the agent sends
/// besides, and what has no id, is no part.
pub proof fn parts_stand_for_what_was_sent(part: JsonV)
    ensures
        ({
            let kind = part.str_at("type"@);
            let shown = kind == Some("text"@) || kind == Some("reasoning"@) || kind == Some(
                "tool"@,
            );
            &&& wire_part(part) is Some <==> shown && part.str_at("id"@) is Some
            &&& wire_part(part) matches Some(p) ==> {
                &&& part.str_at("id"@) == Some(p.id)
                &&& kind == Some(p.kind)
                &&& p.children.len() == 0
                &&& p.prompt is None
                &&& p.kind == "tool"@ ==> {
                    &&& p.text is None
                    &&& p.tool == part.str_at("tool"@)
                    &&& p.state matches Some(state) && {
                        let said = part.member("state"@);
                        &&& state.input == said.get("input"@)
                        &&& state.output == said.str_at("output"@)
                        &&& state.error == said.str_at("error"@)
                        &&& state.title == said.str_at("title"@)
                        &&& said.str_at("status"@) is Some ==> Some(state.status) == said.str_at(
                            "status"@,
                        )
                        &&& said.str_at("status"@) is None ==> state.status == "running"@
                    }
                }
                &&& p.kind != "tool"@ ==> p.text == part.str_at("text"@) && p.tool is None
                    && p.state is None
            }
        }),
{
    lemma_kinds();
}

/// The row for a started sub-agent is a `task` call that no session has yet,
/// and the last such one. There is none exactly if there is no such call.
pub proof fn the_last_free_call_is_taken(
    parts: Seq<PartV>,
    claimed: Seq<(Seq<char>, Seq<char>)>,
)
    ensures
        ({
            let free = |p: PartV|
                p.tool == Some("task"@) && !(exists|k: int|
                    0 <= k < claimed.len() && (#[trigger] claimed[k]).1 == p.id);
            match newest_task(parts, claimed) {
                Some(id) => exists|i: int|
                    0 <= i < parts.len() && (#[trigger] parts[i]).id == id && free(parts[i])
                        && forall|j: int| i < j < parts.len() ==> !free(#[trigger] parts[j]),
                None => forall|j: int| 0 <= j < parts.len() ==> !free(#[trigger] parts[j]),
            }
        }),
    decreases parts.len(),
{
    if parts.len() > 0 {
        let init = parts.drop_last();
        the_last_free_call_is_taken(init, claimed);
        let free = |p: PartV|
            p.tool == Some("task"@) && !(exists|k: int|
                0 <= k < claimed.len() && (#[trigger] claimed[k]).1 == p.id);
        assert(free(parts.last()) == free_task(parts.last(), claimed));
        assert(parts[parts.len() - 1] == parts.last());
        assert forall|j: int| 0 <= j < init.len() implies init[j] == #[trigger] parts[j] by {}
        if free_task(parts.last(), claimed) {
            assert(newest_task(parts, claimed) == Some(parts[parts.len() - 1].id));
        } else {
            match newest_task(init, claimed) {
                Some(id) => {
                    let i = choose|i: int|
                        0 <= i < init.len() && (#[trigger] init[i]).id == id && free(init[i])
                            && forall|j: int| i < j < init.len() ==> !free(#[trigger] init[j]);
                    assert(parts[i].id == id && free(parts[i]));
                    assert forall|j: int| i < j < parts.len() implies !free(#[trigger] parts[j]) by {
                        if j < init.len() {
                            assert(init[j] == parts[j]);
                        }
                    }
                },
                None => {
                    assert forall|j: int| 0 <= j < parts.len() implies !free(
                        #[trigger] parts[j],
                    ) by {
                        if j < init.len() {
                            assert(init[j] == parts[j]);
                        }
                    }
                },
            }
        }
    }
}

/// Every reasoning level but the default asks for the variant of its name, and
/// no level asks for none.
pub proof fn levels_ask_for_their_variant(level: Seq<char>)
    ensures
        level != "default"@ ==> variant_for(Some(level)) == Some(level),
        variant_for(Some("default"@)) is None,
        variant_for(None) is None,
{
}

/// The plan is left exactly if one of the answers is the word yes, whatever
/// the case of its letters.
pub proof fn yes_in_any_case(answers: Seq<Seq<char>>)
    ensures
        says_yes(answers) <==> exists|i: int|
            0 <= i < answers.len() && (#[trigger] answers[i]).len() == 3 && (answers[i][0] == 'y'
                || answers[i][0] == 'Y') && (answers[i][1] == 'e' || answers[i][1] == 'E') && (
            answers[i][2] == 's' || answers[i][2] == 'S'),
{
    reveal_strlit("yes");
    let yes = text::lower_text("yes"@);
    assert("yes"@.len() == 3 && "yes"@[0] == 'y' && "yes"@[1] == 'e' && "yes"@[2] == 's');
    assert(yes.len() == 3 && yes[0] == 'y' && yes[1] == 'e' && yes[2] == 's');
    assert forall|a: Seq<char>| (#[trigger] text::lower_text(a) == yes) <==> (a.len() == 3 && (a[0]
        == 'y' || a[0] == 'Y') && (a[1] == 'e' || a[1] == 'E') && (a[2] == 's' || a[2]
        == 'S')) by {
        let low = text::lower_text(a);
        if low == yes {
            assert(low[0] == text::lower(a[0]));
            assert(low[1] == text::lower(a[1]));
            assert(low[2] == text::lower(a[2]));
        }
        if a.len() == 3 && (a[0] == 'y' || a[0] == 'Y') && (a[1] == 'e' || a[1] == 'E') && (a[2]
            == 's' || a[2] == 'S') {
            assert(low =~= yes);
        }
    }
}

/// A final message with an error ends the turn with what the error says: the
/// message in its data, or else its own, or else that there was one. A message
/// that only sums the conversation up ends it as well. Any other message ends
/// it well.
pub proof fn errors_say_what_went_wrong(message: JsonV, error: JsonV, said: Seq<char>)
    ensures
        ({
            let info = message.member("info"@);
            &&& info.get("error"@) == Some(error) && error !is Null ==> {
                &&& error.member("data"@).get("message"@) == Some(JsonV::Str(said))
                    ==> response_error(message) == Some(said)
                &&& error.member("data"@).get("message"@) is None && error.get("message"@) == Some(
                    JsonV::Str(said),
                ) ==> response_error(message) == Some(said)
                &&& error.member("data"@).get("message"@) is None && error.get("message"@) is None
                    ==> response_error(message) == Some("OpenCode reported an error"@)
                &&& response_error(message) is Some
            }
            &&& info.get("error"@) is None || info.get("error"@) == Some(JsonV::Null) ==> (
            response_error(message) is Some <==> info.get("summary"@) == Some(JsonV::Bool(true)))
        }),
{
}

/// A final message belongs to the turn exactly if it was created when the turn
/// had started.
pub proof fn earlier_messages_are_stale(message: JsonV, started: i64, later: i64)
    ensures
        response_is_current(message, started) <==> (message.member("info"@).member("time"@).i64_at(
            "created"@,
        ) matches Some(created) && started <= created),
        started <= later && response_is_current(message, later) ==> response_is_current(
            message,
            started,
        ),
{
}

/// The tokens of a message are its input, output, reasoning and cached ones, a
/// missing count being zero.
pub proof fn every_token_counts(tokens: JsonV)
    ensures
        ({
            let count = |doc: JsonV, key: Seq<char>|
                match doc.get(key) {
                    Some(JsonV::Number(n)) => match n.unsigned {
                        Some(u) => u as int,
                        None => 0,
                    },
                    _ => 0,
                };
            let cache = tokens.member("cache"@);
            token_total(tokens) == count(tokens, "input"@) + count(tokens, "output"@) + count(
                tokens,
                "reasoning"@,
            ) + count(cache, "read"@) + count(cache, "write"@)
        }),
{
}

/// The title that every session starts with is known by its first words, with
/// any white space before them; no other title is taken for it.
pub proof fn seed_titles_begin_alike(title: Seq<char>, blank: Seq<char>, rest: Seq<char>)
    requires
        forall|i: int| 0 <= i < blank.len() ==> text::is_white(#[trigger] blank[i]),
    ensures
        seed_title(blank + "New session - "@ + rest),
        seed_title(title) ==> text::contains(title, "New session - "@),
    decreases blank.len(),
{
    reveal_strlit("New session - ");
    let words = "New session - "@;
    let all = blank + words + rest;
    if blank.len() == 0 {
        assert(all =~= words + rest);
        assert(all[0] == 'N');
        assert(text::trim_start(all) == all);
        assert(all.take(words.len() as int) =~= words);
    } else {
        let fewer = blank.drop_first();
        assert forall|i: int| 0 <= i < fewer.len() implies text::is_white(#[trigger] fewer[i]) by {
            assert(fewer[i] == blank[i + 1]);
        }
        seed_titles_begin_alike(title, fewer, rest);
        assert(all[0] == blank[0]);
        assert(all.drop_first() =~= fewer + words + rest);
    }
    if seed_title(title) {
        lemma_inside(title, words);
    }
}

proof fn lemma_inside(title: Seq<char>, words: Seq<char>)
    requires
        text::starts_with(text::trim_start(title), words),
    ensures
        text::contains(title, words),
    decreases title.len(),
{
    if title.len() > 0 && text::is_white(title[0]) {
        let rest = title.drop_first();
        lemma_inside(rest, words);
        let i = choose|i: int| text::occurs_at(rest, words, i);
        assert(title.subrange(i + 1, i + 1 + words.len()) =~= rest.subrange(i, i + words.len()));
        assert(text::occurs_at(title, words, i + 1));
    } else {
        assert(title.subrange(0, words.len() as int) =~= title.take(words.len() as int));
        assert(text::occurs_at(title, words, 0));
    }
}

} // verus!
