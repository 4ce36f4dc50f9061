//! Requests to the agent's server: their addresses and bodies, and how an
//! answered card is delivered.

use vstd::prelude::*;

use crate::cards;
use crate::config::OpenCodeVersion;
use crate::document;
use crate::forms;
use crate::json;
use crate::json::{Json, JsonV};
use crate::text;
use crate::turn::{TurnCtx, TurnV};
use crate::wire::{PromptAnswer, PromptV, WirePrompt};

verus! {

broadcast use json::group_json;

/// A request: a document to post, or an address to read.
#[derive(Debug)]
pub struct HttpRequest {
    pub url: String,
    /// What is posted; nothing is posted when only reading.
    pub body: Option<Json>,
}

/// The model of an [`HttpRequest`].
#[verifier::ext_equal]
pub struct RequestV {
    pub url: Seq<char>,
    pub body: Option<JsonV>,
}

impl View for HttpRequest {
    type V = RequestV;

    open spec fn view(&self) -> RequestV {
        RequestV { url: self.url@, body: json::opt_model(self.body) }
    }
}

/// The model of an optional request.
pub open spec fn opt_request(r: Option<HttpRequest>) -> Option<RequestV> {
    match r {
        Some(r) => Some(r@),
        None => None,
    }
}

/// A post to this address.
pub open spec fn posting(url: Seq<char>, body: JsonV) -> RequestV {
    RequestV { url, body: Some(body) }
}

/// The empty object.
pub open spec fn empty_object() -> JsonV {
    JsonV::Object(Seq::empty())
}

fn make_empty() -> (r: Json)
    ensures
        r@ == empty_object(),
{
    let entries: Vec<(String, Json)> = Vec::new();
    assert(json::entry_models(entries@) =~= Seq::empty());
    Json::Object(entries)
}

fn post_to(url: String, body: Json) -> (r: HttpRequest)
    ensures
        r@ == posting(url@, body@),
{
    HttpRequest { url, body: Some(body) }
}

/// The address of something in a session of the second generation.
pub open spec fn session_url(base: Seq<char>, session: Seq<char>, rest: Seq<char>) -> Seq<char> {
    base + "/api/session/"@ + session + rest
}

/// The address of something in a session of the second generation.
pub fn v2_url(base: &str, session: &str, rest: &str) -> (r: String)
    ensures
        r@ == session_url(base@, session@, rest@),
{
    let at: String = text::concat3(base, "/api/session/", session);
    text::concat2(at.as_str(), rest)
}

// ---------------------------------------------------------------------------
// Permissions
// ---------------------------------------------------------------------------

/// The decision on a permission request, for the session that asked.
pub open spec fn permission_reply(
    base: Seq<char>,
    version: OpenCodeVersion,
    session: Seq<char>,
    id: Seq<char>,
    response: Seq<char>,
) -> RequestV {
    match version {
        OpenCodeVersion::V1 => posting(
            base + "/session/"@ + session + "/permissions/"@ + id,
            json::object1("response"@, JsonV::Str(response)),
        ),
        OpenCodeVersion::V2 => posting(
            base + "/api/session/"@ + session + "/permission/"@ + id + "/reply"@,
            json::object1("reply"@, JsonV::Str(response)),
        ),
    }
}

/// The decision on a permission request.
pub fn post_permission(
    base: &str,
    version: OpenCodeVersion,
    native_session: &str,
    permission_id: &str,
    response: &str,
) -> (r: HttpRequest)
    ensures
        r@ == permission_reply(base@, version, native_session@, permission_id@, response@),
{
    match version {
        OpenCodeVersion::V1 => {
            let at: String = text::concat3(base, "/session/", native_session);
            let url: String = text::concat3(at.as_str(), "/permissions/", permission_id);
            post_to(url, document::make_object1("response", document::json_str(response)))
        },
        OpenCodeVersion::V2 => {
            let at: String = text::concat3(base, "/api/session/", native_session);
            let on: String = text::concat3(at.as_str(), "/permission/", permission_id);
            let url: String = text::concat2(on.as_str(), "/reply");
            post_to(url, document::make_object1("reply", document::json_str(response)))
        },
    }
}

// ---------------------------------------------------------------------------
// Questions
// ---------------------------------------------------------------------------

/// The texts as items of an array.
pub open spec fn text_items(texts: Seq<Seq<char>>) -> Seq<JsonV> {
    texts.map_values(|t: Seq<char>| JsonV::Str(t))
}

fn items_of(texts: &Vec<String>) -> (r: Vec<Json>)
    ensures
        json::models(r@) == text_items(text::texts(texts@)),
{
    let ghost all = text_items(text::texts(texts@));
    let mut out: Vec<Json> = Vec::new();
    let mut i: usize = 0;
    assert(json::models(out@) =~= all.take(0));
    while i < texts.len()
        invariant
            i <= texts@.len(),
            all == text_items(text::texts(texts@)),
            all.len() == texts@.len(),
            json::models(out@) == all.take(i as int),
        decreases texts@.len() - i,
    {
        let ghost before = json::models(out@);
        let item: Json = document::json_str(texts[i].as_str());
        assert(text::texts(texts@)[i as int] == texts@[i as int]@);
        assert(all[i as int] == item@);
        out.push(item);
        assert(json::models(out@) =~= before.push(item@));
        i += 1;
        assert(json::models(out@) =~= all.take(i as int));
    }
    assert(all.take(i as int) =~= all);
    out
}

/// How a reply to a card goes on.
#[derive(Debug)]
pub enum ReplyStep {
    /// Send this, and the reply is delivered.
    Send(HttpRequest),
    /// Read the form as it is now; the reply depends on it.
    ReadForm(HttpRequest),
}

/// The model of a [`ReplyStep`].
#[verifier::ext_equal]
pub enum StepV {
    Send(RequestV),
    ReadForm(RequestV),
}

impl View for ReplyStep {
    type V = StepV;

    open spec fn view(&self) -> StepV {
        match *self {
            ReplyStep::Send(r) => StepV::Send(r@),
            ReplyStep::ReadForm(r) => StepV::ReadForm(r@),
        }
    }
}

/// The address of a pending form.
pub open spec fn form_url(
    base: Seq<char>,
    session: Seq<char>,
    form: Seq<char>,
    rest: Seq<char>,
) -> Seq<char> {
    base + "/api/session/"@ + session + "/form/"@ + form + rest
}

fn v2_form_url(base: &str, session: &str, form: &str, rest: &str) -> (r: String)
    ensures
        r@ == form_url(base@, session@, form@, rest@),
{
    let at: String = text::concat3(base, "/api/session/", session);
    let on: String = text::concat3(at.as_str(), "/form/", form);
    text::concat2(on.as_str(), rest)
}

/// How the answer to a question is delivered. No answer rejects the question
/// (or cancels the form); to answer a form it has to be read first.
pub open spec fn question_step(
    base: Seq<char>,
    version: OpenCodeVersion,
    session: Seq<char>,
    id: Seq<char>,
    answers: Seq<Seq<char>>,
) -> StepV {
    match version {
        OpenCodeVersion::V1 => if answers.len() == 0 {
            StepV::Send(posting(base + "/question/"@ + id + "/reject"@, empty_object()))
        } else {
            StepV::Send(
                posting(
                    base + "/question/"@ + id + "/reply"@,
                    json::object1(
                        "answers"@,
                        JsonV::Array(seq![JsonV::Array(text_items(answers))]),
                    ),
                ),
            )
        },
        OpenCodeVersion::V2 => if answers.len() == 0 {
            StepV::Send(posting(form_url(base, session, id, "/cancel"@), empty_object()))
        } else {
            StepV::ReadForm(
                RequestV { url: form_url(base, session, id, "/state"@), body: None },
            )
        },
    }
}

/// Told when a card carries no request to reply to.
pub const NO_REPLY_ID: &'static str = "opencode prompt has no reply id";

/// How the answer to a question is delivered.
pub fn reply_question(
    base: &str,
    version: OpenCodeVersion,
    native_session: &str,
    prompt: &WirePrompt,
    answer: &PromptAnswer,
) -> (r: Result<ReplyStep, String>)
    ensures
        match (r, prompt@.native_id) {
            (Ok(step), Some(id)) => step@ == question_step(
                base@,
                version,
                native_session@,
                id,
                text::texts(answer.answers@),
            ),
            (Err(e), None) => e@ == NO_REPLY_ID@,
            _ => false,
        },
{
    let id: &str = match text::opt_as_str(&prompt.native_id) {
        Some(id) => id,
        None => {
            return Err(NO_REPLY_ID.to_owned());
        },
    };
    assert(text::texts(answer.answers@).len() == answer.answers@.len());
    let none: bool = answer.answers.len() == 0;
    match version {
        OpenCodeVersion::V1 => {
            let at: String = text::concat3(base, "/question/", id);
            if none {
                let url: String = text::concat2(at.as_str(), "/reject");
                Ok(ReplyStep::Send(post_to(url, make_empty())))
            } else {
                let url: String = text::concat2(at.as_str(), "/reply");
                let inner: Json = Json::Array(items_of(&answer.answers));
                let mut outer: Vec<Json> = Vec::new();
                outer.push(inner);
                assert(json::models(outer@) =~= seq![inner@]);
                let body: Json = document::make_object1("answers", Json::Array(outer));
                Ok(ReplyStep::Send(post_to(url, body)))
            }
        },
        OpenCodeVersion::V2 => {
            if none {
                let url: String = v2_form_url(base, native_session, id, "/cancel");
                Ok(ReplyStep::Send(post_to(url, make_empty())))
            } else {
                let url: String = v2_form_url(base, native_session, id, "/state");
                Ok(ReplyStep::ReadForm(HttpRequest { url, body: None }))
            }
        },
    }
}

/// The form in an answer: under `data`, or the answer itself.
pub open spec fn form_in(state: JsonV) -> JsonV {
    match state.get("data"@) {
        Some(form) => form,
        None => state,
    }
}

/// Told when a picked label no longer stands for a choice.
pub const FORM_CHANGED: &'static str = "could not map the answer onto the pending form — it may have changed";

/// The answer to a form that is in `state` now, or that it cannot be answered.
pub open spec fn form_reply(
    base: Seq<char>,
    session: Seq<char>,
    form: Seq<char>,
    state: JsonV,
    answers: Seq<Seq<char>>,
) -> Result<RequestV, Seq<char>> {
    match forms::answer_entries(form_in(state), answers) {
        Some(entries) => Ok(
            posting(
                form_url(base, session, form, "/reply"@),
                json::object1("answer"@, JsonV::Object(entries)),
            ),
        ),
        None => Err(FORM_CHANGED@),
    }
}

/// The model of a request that may not be possible.
pub open spec fn request_model(r: Result<HttpRequest, String>) -> Result<RequestV, Seq<char>> {
    match r {
        Ok(request) => Ok(request@),
        Err(e) => Err(e@),
    }
}

/// The answer to a form, given the form as it is now: the picked labels as
/// field values. It cannot be answered where a label no longer resolves.
pub fn answer_form(
    base: &str,
    native_session: &str,
    form_id: &str,
    state: &Json,
    answers: &Vec<String>,
) -> (r: Result<HttpRequest, String>)
    ensures
        request_model(r) == form_reply(
            base@,
            native_session@,
            form_id@,
            state@,
            text::texts(answers@),
        ),
{
    let form: &Json = match state.get("data") {
        Some(form) => form,
        None => state,
    };
    match forms::v2_form_answer(form, answers) {
        Some(map) => {
            let url: String = v2_form_url(base, native_session, form_id, "/reply");
            Ok(post_to(url, document::make_object1("answer", map)))
        },
        None => Err(FORM_CHANGED.to_owned()),
    }
}

// ---------------------------------------------------------------------------
// Answered cards
// ---------------------------------------------------------------------------

/// Told when the turn that asked has ended.
pub const NOT_RUNNING: &'static str = "this turn is no longer running — its prompt can't be answered";

/// Told when the agent's server is gone.
pub const NO_SERVER: &'static str = "opencode serve is not running — cannot deliver the reply";

/// Told when the agent's session is not known.
pub const NO_SESSION: &'static str = "opencode session has no native id — cannot deliver the reply";

/// The live server of a session.
#[derive(Clone, Copy, Debug)]
pub struct Endpoint<'a> {
    pub base: &'a str,
    pub version: OpenCodeVersion,
}

/// How an answered card is delivered, or why it cannot be: it needs a request
/// to reply to, a turn that still waits, a live server, and a session. A
/// permission is granted for good or rejected.
pub open spec fn reply_result(
    prompt: PromptV,
    approve: bool,
    answers: Seq<Seq<char>>,
    busy: bool,
    endpoint: Option<(Seq<char>, OpenCodeVersion)>,
    session: Option<Seq<char>>,
) -> Result<StepV, Seq<char>> {
    match prompt.native_id {
        None => Err(NO_REPLY_ID@),
        Some(id) => if !busy {
            Err(NOT_RUNNING@)
        } else {
            match endpoint {
                None => Err(NO_SERVER@),
                Some((base, version)) => {
                    if prompt.kind == "permission"@ {
                        match session {
                            None => Err(NO_SESSION@),
                            Some(s) => Ok(
                                StepV::Send(
                                    permission_reply(
                                        base,
                                        version,
                                        s,
                                        id,
                                        if approve {
                                            "always"@
                                        } else {
                                            "reject"@
                                        },
                                    ),
                                ),
                            ),
                        }
                    } else if prompt.kind == "question"@ {
                        match session {
                            None => Err(NO_SESSION@),
                            Some(s) => Ok(question_step(base, version, s, id, answers)),
                        }
                    } else {
                        Err("opencode cannot reply to a `"@ + prompt.kind + "` prompt inline"@)
                    }
                },
            }
        },
    }
}

/// The model of an optional endpoint.
pub open spec fn endpoint_model(e: Option<Endpoint>) -> Option<(Seq<char>, OpenCodeVersion)> {
    match e {
        Some(e) => Some((e.base@, e.version)),
        None => None,
    }
}

/// The model of the result of a reply.
pub open spec fn reply_model(r: Result<ReplyStep, String>) -> Result<StepV, Seq<char>> {
    match r {
        Ok(s) => Ok(s@),
        Err(e) => Err(e@),
    }
}

/// How an answered card is delivered.
pub fn reply_inline(
    prompt: &WirePrompt,
    answer: &PromptAnswer,
    busy: bool,
    endpoint: Option<Endpoint>,
    native_session: Option<&str>,
) -> (r: Result<ReplyStep, String>)
    ensures
        reply_model(r) == reply_result(
            prompt@,
            answer.approve,
            text::texts(answer.answers@),
            busy,
            endpoint_model(endpoint),
            text::opt_str(native_session),
        ),
{
    let id: &str = match text::opt_as_str(&prompt.native_id) {
        Some(id) => id,
        None => {
            return Err(NO_REPLY_ID.to_owned());
        },
    };
    if !busy {
        return Err(NOT_RUNNING.to_owned());
    }
    let at: Endpoint = match endpoint {
        Some(e) => e,
        None => {
            return Err(NO_SERVER.to_owned());
        },
    };
    if text::str_eq(prompt.kind.as_str(), "permission") {
        match native_session {
            Some(s) => {
                let response: &str = if answer.approve {
                    "always"
                } else {
                    "reject"
                };
                Ok(ReplyStep::Send(post_permission(at.base, at.version, s, id, response)))
            },
            None => Err(NO_SESSION.to_owned()),
        }
    } else if text::str_eq(prompt.kind.as_str(), "question") {
        match native_session {
            Some(s) => reply_question(at.base, at.version, s, prompt, answer),
            None => Err(NO_SESSION.to_owned()),
        }
    } else {
        Err(
            text::concat3(
                "opencode cannot reply to a `",
                prompt.kind.as_str(),
                "` prompt inline",
            ),
        )
    }
}

// ---------------------------------------------------------------------------
// Resuming
// ---------------------------------------------------------------------------

/// What comes of answering a card.
#[derive(Clone, Copy, Debug, PartialEq, Eq, Structural)]
pub enum ResumeStep {
    /// Store this plan mode, then deliver the reply.
    StorePlan(bool),
    /// Deliver the reply.
    Reply,
    /// The answer has been dealt with.
    Handled,
    /// The reply was not delivered. The plan is to be active again.
    RestorePlan,
    /// The reply was not delivered.
    Failed,
}

/// What an answer starts with: one that leaves or keeps the plan stores that
/// before the agent can act on it.
pub open spec fn resume_start(prompt: PromptV, answers: Seq<Seq<char>>) -> ResumeStep {
    if prompt.plan_exit {
        ResumeStep::StorePlan(!cards::says_yes(answers))
    } else {
        ResumeStep::Reply
    }
}

/// What follows the delivery of a reply. Where it failed after the plan mode
/// was stored, the plan is active again, as the card still shows.
pub open spec fn resume_end(start: ResumeStep, delivered: bool) -> ResumeStep {
    if delivered {
        ResumeStep::Handled
    } else if start is StorePlan {
        ResumeStep::RestorePlan
    } else {
        ResumeStep::Failed
    }
}

/// What an answer starts with.
pub fn resume_from_prompt(prompt: &WirePrompt, answer: &PromptAnswer) -> (r: ResumeStep)
    ensures
        r == resume_start(prompt@, text::texts(answer.answers@)),
{
    match cards::plan_exit_transition(prompt, answer) {
        Some(plan_mode) => ResumeStep::StorePlan(plan_mode),
        None => ResumeStep::Reply,
    }
}

/// What follows the delivery of a reply.
pub fn after_reply(start: ResumeStep, delivered: bool) -> (r: ResumeStep)
    ensures
        r == resume_end(start, delivered),
{
    if delivered {
        ResumeStep::Handled
    } else {
        match start {
            ResumeStep::StorePlan(_) => ResumeStep::RestorePlan,
            _ => ResumeStep::Failed,
        }
    }
}

// ---------------------------------------------------------------------------
// Sessions and messages
// ---------------------------------------------------------------------------

/// The body that opens a session of the second generation: the agent and, if
/// a model of a provider is chosen, that model with its reasoning variant.
pub open spec fn session_create(t: TurnV) -> JsonV {
    let agent = seq![("agent"@, JsonV::Str(cards::agent_name(t.plan_mode)))];
    JsonV::Object(
        match chosen_model(t) {
            Some((provider, id)) => {
                let bare = json::bind(
                    seq![("providerID"@, JsonV::Str(provider))],
                    "id"@,
                    JsonV::Str(id),
                );
                let reference = match cards::variant_for(t.reasoning_level) {
                    Some(variant) => json::bind(bare, "variant"@, JsonV::Str(variant)),
                    None => bare,
                };
                json::bind(agent, "model"@, JsonV::Object(reference))
            },
            None => agent,
        },
    )
}

/// The provider and the model that are chosen.
pub open spec fn chosen_model(t: TurnV) -> Option<(Seq<char>, Seq<char>)> {
    match t.model {
        Some(model) => text::split_once(model, '/'),
        None => None,
    }
}

fn split_model(ctx: &TurnCtx) -> (r: Option<(String, String)>)
    ensures
        match r {
            Some((provider, id)) => chosen_model(ctx@) == Some((provider@, id@)),
            None => chosen_model(ctx@) is None,
        },
{
    match &ctx.model {
        Some(model) => text::split_once_text(model.as_str(), '/'),
        None => None,
    }
}

fn entry(key: &str, value: Json) -> (r: Vec<(String, Json)>)
    ensures
        json::entry_models(r@) == seq![(key@, value@)],
{
    let mut entries: Vec<(String, Json)> = Vec::new();
    entries.push((key.to_owned(), value));
    assert(json::entry_models(entries@) =~= seq![(key@, value@)]);
    entries
}

/// The body that opens a session of the second generation.
pub fn v2_session_create(ctx: &TurnCtx) -> (r: Json)
    ensures
        r@ == session_create(ctx@),
{
    let mut body: Vec<(String, Json)> = entry(
        "agent",
        document::json_str(cards::opencode_agent(ctx.plan_mode)),
    );
    match split_model(ctx) {
        Some((provider, id)) => {
            let mut reference: Vec<(String, Json)> = entry("providerID", Json::Str(provider));
            document::bind_in(&mut reference, "id", Json::Str(id));
            match cards::opencode_variant(text::opt_as_str(&ctx.reasoning_level)) {
                Some(variant) => {
                    document::bind_in(&mut reference, "variant", document::json_str(variant));
                },
                None => {},
            }
            document::bind_in(&mut body, "model", Json::Object(reference));
        },
        None => {},
    }
    Json::Object(body)
}

/// The body of a message: its text, the agent and, as far as they are chosen,
/// the model and the reasoning variant.
pub open spec fn message_body(t: TurnV) -> JsonV {
    let part = json::object2("type"@, JsonV::Str("text"@), "text"@, JsonV::Str(t.text));
    let bare = json::bind(
        seq![("parts"@, JsonV::Array(seq![part]))],
        "agent"@,
        JsonV::Str(cards::agent_name(t.plan_mode)),
    );
    let with_model = match chosen_model(t) {
        Some((provider, id)) => json::bind(
            bare,
            "model"@,
            json::object2("providerID"@, JsonV::Str(provider), "modelID"@, JsonV::Str(id)),
        ),
        None => bare,
    };
    JsonV::Object(
        match cards::variant_for(t.reasoning_level) {
            Some(variant) => json::bind(with_model, "variant"@, JsonV::Str(variant)),
            None => with_model,
        },
    )
}

/// The message of a turn of the first generation.
pub open spec fn message_post(t: TurnV, base: Seq<char>, session: Seq<char>) -> RequestV {
    posting(base + "/session/"@ + session + "/message"@, message_body(t))
}

/// The message of a turn, sent to a session of the first generation.
pub fn message_request(ctx: &TurnCtx, base: &str, native_id: &str) -> (r: HttpRequest)
    ensures
        r@ == message_post(ctx@, base@, native_id@),
{
    let part: Json = document::make_object2(
        "type",
        document::json_str("text"),
        "text",
        document::json_str(ctx.text.as_str()),
    );
    let mut parts: Vec<Json> = Vec::new();
    parts.push(part);
    assert(json::models(parts@) =~= seq![part@]);
    let mut body: Vec<(String, Json)> = entry("parts", Json::Array(parts));
    document::bind_in(
        &mut body,
        "agent",
        document::json_str(cards::opencode_agent(ctx.plan_mode)),
    );
    match split_model(ctx) {
        Some((provider, id)) => {
            let reference: Json = document::make_object2(
                "providerID",
                Json::Str(provider),
                "modelID",
                Json::Str(id),
            );
            document::bind_in(&mut body, "model", reference);
        },
        None => {},
    }
    match cards::opencode_variant(text::opt_as_str(&ctx.reasoning_level)) {
        Some(variant) => {
            document::bind_in(&mut body, "variant", document::json_str(variant));
        },
        None => {},
    }
    let at: String = text::concat3(base, "/session/", native_id);
    let url: String = text::concat2(at.as_str(), "/message");
    post_to(url, Json::Object(body))
}

/// The message of a turn of the second generation.
pub open spec fn prompt_post(t: TurnV, base: Seq<char>, session: Seq<char>) -> RequestV {
    posting(session_url(base, session, "/prompt"@), json::object1("text"@, JsonV::Str(t.text)))
}

/// The prompt of a turn, sent to a session of the second generation.
pub fn prompt_request(ctx: &TurnCtx, base: &str, native_id: &str) -> (r: HttpRequest)
    ensures
        r@ == prompt_post(ctx@, base@, native_id@),
{
    let url: String = v2_url(base, native_id, "/prompt");
    post_to(url, document::make_object1("text", document::json_str(ctx.text.as_str())))
}

/// The request that waits until a session of the second generation is idle.
pub fn wait_request(base: &str, native_id: &str) -> (r: HttpRequest)
    ensures
        r@ == posting(session_url(base@, native_id@, "/wait"@), empty_object()),
{
    post_to(v2_url(base, native_id, "/wait"), make_empty())
}

/// The request that opens a session.
pub open spec fn opening(t: TurnV, base: Seq<char>, version: OpenCodeVersion) -> RequestV {
    match version {
        OpenCodeVersion::V1 => posting(base + "/session"@, empty_object()),
        OpenCodeVersion::V2 => posting(base + "/api/session"@, session_create(t)),
    }
}

/// The request that opens a session, unless the turn has one.
pub fn session_request(ctx: &TurnCtx, base: &str, version: OpenCodeVersion) -> (r: Option<
    HttpRequest,
>)
    ensures
        opt_request(r) == (match ctx@.native_session_id {
            Some(_) => None,
            None => Some(opening(ctx@, base@, version)),
        }),
{
    match ctx.native_session_id {
        Some(_) => None,
        None => Some(
            match version {
                OpenCodeVersion::V1 => post_to(text::concat2(base, "/session"), make_empty()),
                OpenCodeVersion::V2 => post_to(
                    text::concat2(base, "/api/session"),
                    v2_session_create(ctx),
                ),
            },
        ),
    }
}

/// The stream of events that a turn reads: only the first generation has one.
pub fn events_request(base: &str, version: OpenCodeVersion) -> (r: Option<HttpRequest>)
    ensures
        opt_request(r) == (match version {
            OpenCodeVersion::V1 => Some(RequestV { url: base@ + "/event"@, body: None }),
            OpenCodeVersion::V2 => None,
        }),
{
    match version {
        OpenCodeVersion::V1 => Some(
            HttpRequest { url: text::concat2(base, "/event"), body: None },
        ),
        OpenCodeVersion::V2 => None,
    }
}

/// Told when the transcript of an unknown session is asked for.
pub const NO_TRANSCRIPT: &'static str = "opencode session has no native id — cannot read the transcript";

/// The export of the turn's session.
pub open spec fn export_read(t: TurnV, base: Seq<char>) -> Result<RequestV, Seq<char>> {
    match t.native_session_id {
        Some(id) => Ok(RequestV { url: session_url(base, id, "/export"@), body: None }),
        None => Err(NO_TRANSCRIPT@),
    }
}

/// The export of the turn's session.
pub fn v2_export(ctx: &TurnCtx, base: &str) -> (r: Result<HttpRequest, String>)
    ensures
        request_model(r) == export_read(ctx@, base@),
{
    match &ctx.native_session_id {
        Some(id) => Ok(HttpRequest { url: v2_url(base, id.as_str(), "/export"), body: None }),
        None => Err(NO_TRANSCRIPT.to_owned()),
    }
}

// ---------------------------------------------------------------------------
// Laws
// ---------------------------------------------------------------------------

/// An answer is delivered to the request that the card was made for, or not at
/// all: a card without a request, a turn that has ended, a server that is gone
/// and a session that is not known all refuse it.
pub proof fn unanswerable_cards_send_nothing(
    prompt: PromptV,
    approve: bool,
    answers: Seq<Seq<char>>,
    busy: bool,
    endpoint: Option<(Seq<char>, OpenCodeVersion)>,
    session: Option<Seq<char>>,
)
    ensures
        reply_result(prompt, approve, answers, busy, endpoint, session) is Ok <==> (
        prompt.native_id is Some && busy && endpoint is Some && session is Some && (prompt.kind
            == "permission"@ || prompt.kind == "question"@)),
{
}

/// The plan mode that is stored once an answer has been dealt with.
pub open spec fn plan_stored(before: bool, start: ResumeStep, end: ResumeStep) -> bool {
    if end == ResumeStep::RestorePlan {
        true
    } else {
        match start {
            ResumeStep::StorePlan(mode) => mode,
            _ => before,
        }
    }
}

/// A plan is left exactly if its exit was answered with yes and the answer was
/// delivered; a delivery that fails leaves it active.
pub proof fn plans_are_left_by_a_delivered_yes(
    prompt: PromptV,
    answers: Seq<Seq<char>>,
    delivered: bool,
)
    ensures
        ({
            let start = resume_start(prompt, answers);
            let end = resume_end(start, delivered);
            plan_stored(true, start, end) == !(prompt.plan_exit && cards::says_yes(answers)
                && delivered)
        }),
{
}

proof fn lemma_members()
    ensures
        "agent"@ != "model"@,
        "agent"@ != "parts"@,
        "agent"@ != "variant"@,
        "agent"@ != "type"@,
        "agent"@ != "text"@,
        "agent"@ != "providerID"@,
        "agent"@ != "modelID"@,
        "agent"@ != "id"@,
        "model"@ != "parts"@,
        "model"@ != "variant"@,
        "model"@ != "type"@,
        "model"@ != "text"@,
        "model"@ != "providerID"@,
        "model"@ != "modelID"@,
        "model"@ != "id"@,
        "parts"@ != "variant"@,
        "parts"@ != "type"@,
        "parts"@ != "text"@,
        "parts"@ != "providerID"@,
        "parts"@ != "modelID"@,
        "parts"@ != "id"@,
        "variant"@ != "type"@,
        "variant"@ != "text"@,
        "variant"@ != "providerID"@,
        "variant"@ != "modelID"@,
        "variant"@ != "id"@,
        "type"@ != "text"@,
        "type"@ != "providerID"@,
        "type"@ != "modelID"@,
        "type"@ != "id"@,
        "text"@ != "providerID"@,
        "text"@ != "modelID"@,
        "text"@ != "id"@,
        "providerID"@ != "modelID"@,
        "providerID"@ != "id"@,
        "modelID"@ != "id"@,
{
    reveal_strlit("agent");
    reveal_strlit("model");
    reveal_strlit("parts");
    reveal_strlit("variant");
    reveal_strlit("type");
    reveal_strlit("text");
    reveal_strlit("providerID");
    reveal_strlit("modelID");
    reveal_strlit("id");
    assert("agent"@[0] != "model"@[0]);
    assert("agent"@[0] != "parts"@[0]);
    assert("agent"@.len() != "variant"@.len());
    assert("agent"@.len() != "type"@.len());
    assert("agent"@.len() != "text"@.len());
    assert("agent"@.len() != "providerID"@.len());
    assert("agent"@.len() != "modelID"@.len());
    assert("agent"@.len() != "id"@.len());
    assert("model"@[0] != "parts"@[0]);
    assert("model"@.len() != "variant"@.len());
    assert("model"@.len() != "type"@.len());
    assert("model"@.len() != "text"@.len());
    assert("model"@.len() != "providerID"@.len());
    assert("model"@.len() != "modelID"@.len());
    assert("model"@.len() != "id"@.len());
    assert("parts"@.len() != "variant"@.len());
    assert("parts"@.len() != "type"@.len());
    assert("parts"@.len() != "text"@.len());
    assert("parts"@.len() != "providerID"@.len());
    assert("parts"@.len() != "modelID"@.len());
    assert("parts"@.len() != "id"@.len());
    assert("variant"@.len() != "type"@.len());
    assert("variant"@.len() != "text"@.len());
    assert("variant"@.len() != "providerID"@.len());
    assert("variant"@[0] != "modelID"@[0]);
    assert("variant"@.len() != "id"@.len());
    assert("type"@[1] != "text"@[1]);
    assert("type"@.len() != "providerID"@.len());
    assert("type"@.len() != "modelID"@.len());
    assert("type"@.len() != "id"@.len());
    assert("text"@.len() != "providerID"@.len());
    assert("text"@.len() != "modelID"@.len());
    assert("text"@.len() != "id"@.len());
    assert("providerID"@.len() != "modelID"@.len());
    assert("providerID"@.len() != "id"@.len());
    assert("modelID"@.len() != "id"@.len());
}

proof fn lemma_kinds()
    ensures
        "permission"@ != "question"@,
{
    reveal_strlit("permission");
    reveal_strlit("question");
    assert("permission"@.len() != "question"@.len());
}

/// The decision on a permission goes to the request that the card was made
/// for, in the session that asked: approval lasts for the session, and anything
/// else rejects the request.
pub proof fn decisions_reach_the_request(
    prompt: PromptV,
    approve: bool,
    answers: Seq<Seq<char>>,
    base: Seq<char>,
    version: OpenCodeVersion,
    session: Seq<char>,
    id: Seq<char>,
)
    requires
        prompt.kind == "permission"@,
        prompt.native_id == Some(id),
    ensures
        ({
            let r = reply_result(prompt, approve, answers, true, Some((base, version)), Some(session));
            let word = if approve {
                "always"@
            } else {
                "reject"@
            };
            r matches Ok(StepV::Send(request)) && match version {
                OpenCodeVersion::V1 => request.url == base + "/session/"@ + session
                    + "/permissions/"@ + id && (request.body matches Some(body) && body.str_at(
                    "response"@,
                ) == Some(word)),
                OpenCodeVersion::V2 => request.url == base + "/api/session/"@ + session
                    + "/permission/"@ + id + "/reply"@ && (request.body matches Some(body)
                    && body.str_at("reply"@) == Some(word)),
            }
        }),
{
    reveal_with_fuel(json::find, 2);
}

/// The answers to a question go to the request that the card was made for, in
/// the order in which they were given; no answer rejects the question. A form
/// is read first, and no answer cancels it.
pub proof fn answers_reach_the_request(
    prompt: PromptV,
    approve: bool,
    answers: Seq<Seq<char>>,
    base: Seq<char>,
    session: Seq<char>,
    id: Seq<char>,
    i: int,
)
    requires
        prompt.kind == "question"@,
        prompt.native_id == Some(id),
    ensures
        ({
            let result = |version: OpenCodeVersion|
                reply_result(prompt, approve, answers, true, Some((base, version)), Some(session));
            let first = result(OpenCodeVersion::V1);
            let second = result(OpenCodeVersion::V2);
            let at = base + "/api/session/"@ + session + "/form/"@ + id;
            &&& answers.len() == 0 ==> {
                &&& first matches Ok(StepV::Send(request)) && request.url == base + "/question/"@
                    + id + "/reject"@ && request.body == Some(JsonV::Object(Seq::empty()))
                &&& second matches Ok(StepV::Send(request)) && request.url == at + "/cancel"@
                    && request.body == Some(JsonV::Object(Seq::empty()))
            }
            &&& answers.len() > 0 ==> {
                &&& first matches Ok(StepV::Send(request)) && request.url == base + "/question/"@
                    + id + "/reply"@ && (request.body matches Some(body) && {
                    let given = body.items_at("answers"@);
                    &&& given.len() == 1
                    &&& given[0] matches JsonV::Array(items) && items.len() == answers.len() && (0
                        <= i < answers.len() ==> items[i] == JsonV::Str(answers[i]))
                })
                &&& second matches Ok(StepV::ReadForm(request)) && request.url == at + "/state"@
                    && request.body is None
            }
        }),
{
    lemma_kinds();
    reveal_with_fuel(json::find, 2);
}

/// Why a card cannot be answered: it has no request, nothing is running, the
/// server or the session is gone, or it is of a kind that is not answered here.
pub proof fn refusals_tell_why(
    prompt: PromptV,
    approve: bool,
    answers: Seq<Seq<char>>,
    busy: bool,
    endpoint: Option<(Seq<char>, OpenCodeVersion)>,
    session: Option<Seq<char>>,
)
    ensures
        ({
            let r = reply_result(prompt, approve, answers, busy, endpoint, session);
            let asks = prompt.kind == "permission"@ || prompt.kind == "question"@;
            &&& prompt.native_id is None ==> r == Err::<StepV, Seq<char>>(NO_REPLY_ID@)
            &&& prompt.native_id is Some && !busy ==> r == Err::<StepV, Seq<char>>(NOT_RUNNING@)
            &&& prompt.native_id is Some && busy && endpoint is None ==> r == Err::<
                StepV,
                Seq<char>,
            >(NO_SERVER@)
            &&& prompt.native_id is Some && busy && endpoint is Some && asks && session is None
                ==> r == Err::<StepV, Seq<char>>(NO_SESSION@)
            &&& prompt.native_id is Some && busy && endpoint is Some && !asks ==> r == Err::<
                StepV,
                Seq<char>,
            >("opencode cannot reply to a `"@ + prompt.kind + "` prompt inline"@)
        }),
{
}

/// A form is found under `data`, or is the answer itself.
pub proof fn forms_are_found_either_way(state: JsonV, form: JsonV)
    ensures
        state.get("data"@) == Some(form) ==> form_in(state) == form,
        state.get("data"@) is None ==> form_in(state) == state,
{
}

/// Answering the plan's exit stores the plan mode before the answer is
/// delivered: yes leaves the plan, anything else stays. Where the delivery
/// fails the plan is active again. Any other card stores nothing.
pub proof fn plan_answers_are_stored_first(
    prompt: PromptV,
    answers: Seq<Seq<char>>,
    i: int,
)
    ensures
        prompt.plan_exit && 0 <= i < answers.len() && answers[i] == "Yes"@ ==> resume_start(
            prompt,
            answers,
        ) == ResumeStep::StorePlan(false),
        prompt.plan_exit && answers.len() == 0 ==> resume_start(prompt, answers)
            == ResumeStep::StorePlan(true),
        prompt.plan_exit && answers == seq!["No"@] ==> resume_start(prompt, answers)
            == ResumeStep::StorePlan(true),
        !prompt.plan_exit ==> resume_start(prompt, answers) == ResumeStep::Reply,
        resume_end(resume_start(prompt, answers), true) == ResumeStep::Handled,
        resume_end(resume_start(prompt, answers), false) == (if prompt.plan_exit {
            ResumeStep::RestorePlan
        } else {
            ResumeStep::Failed
        }),
{
    cards::yes_in_any_case(answers);
    reveal_strlit("Yes");
    reveal_strlit("No");
    if 0 <= i < answers.len() && answers[i] == "Yes"@ {
        assert(answers[i].len() == 3 && answers[i][0] == 'Y' && answers[i][1] == 'e'
            && answers[i][2] == 's');
    }
    if answers == seq!["No"@] {
        assert(answers[0].len() == 2);
    }
}

/// The model of a turn is named by its provider and the rest: everything
/// before the first slash, and everything behind it.
pub proof fn models_split_at_the_first_slash(t: TurnV, provider: Seq<char>, id: Seq<char>)
    requires
        !provider.contains('/'),
    ensures
        t.model == Some(provider + seq!['/'] + id) ==> chosen_model(t) == Some((provider, id)),
        t.model is None ==> chosen_model(t) is None,
        t.model matches Some(m) ==> (!m.contains('/') ==> chosen_model(t) is None),
{
    let full = provider + seq!['/'] + id;
    let n = provider.len() as int;
    text::lemma_first_index(full, '/');
    let at = text::first_index(full, '/');
    assert(full[n] == '/');
    assert forall|j: int| 0 <= j < n implies full[j] != '/' by {
        assert(full[j] == provider[j]);
        if provider[j] == '/' {
            assert(provider.contains('/'));
        }
    }
    assert(at == n);
    assert(full.take(n) =~= provider);
    assert(full.skip(n + 1) =~= id);
    match t.model {
        Some(m) => {
            text::lemma_first_index(m, '/');
            if !m.contains('/') && text::first_index(m, '/') < m.len() {
                assert(m[text::first_index(m, '/')] == '/');
            }
        },
        None => {},
    }
}

/// The message of a turn carries the user's text and nothing else, goes to the
/// agent of the turn's mode, and names the chosen model and the variant, each
/// exactly if there is one.
pub proof fn messages_carry_the_turn(t: TurnV)
    ensures
        ({
            let body = message_body(t);
            let parts = body.items_at("parts"@);
            &&& parts.len() == 1
            &&& parts[0].str_at("type"@) == Some("text"@)
            &&& parts[0].str_at("text"@) == Some(t.text)
            &&& body.str_at("agent"@) == Some(
                if t.plan_mode {
                    "plan"@
                } else {
                    "build"@
                },
            )
            &&& chosen_model(t) matches Some((provider, id)) ==> body.member("model"@).str_at(
                "providerID"@,
            ) == Some(provider) && body.member("model"@).str_at("modelID"@) == Some(id)
            &&& chosen_model(t) is None ==> body.get("model"@) is None
            &&& t.reasoning_level is None || t.reasoning_level == Some("default"@) ==> body.get(
                "variant"@,
            ) is None
            &&& t.reasoning_level is Some && t.reasoning_level != Some("default"@) ==> body.str_at(
                "variant"@,
            ) == t.reasoning_level
        }),
{
    lemma_members();
    reveal_with_fuel(json::find, 2);
    let part = json::object2("type"@, JsonV::Str("text"@), "text"@, JsonV::Str(t.text));
    let kind = seq![("type"@, JsonV::Str("text"@))];
    json::find_after_bind(kind, "text"@, JsonV::Str(t.text), "type"@);
    let agent = JsonV::Str(cards::agent_name(t.plan_mode));
    let start = seq![("parts"@, JsonV::Array(seq![part]))];
    json::find_after_bind(start, "agent"@, agent, "parts"@);
    json::find_after_bind(start, "agent"@, agent, "model"@);
    json::find_after_bind(start, "agent"@, agent, "variant"@);
    let bare = json::bind(start, "agent"@, agent);
    let chosen = match chosen_model(t) {
        Some((provider, id)) => {
            let p = seq![("providerID"@, JsonV::Str(provider))];
            json::find_after_bind(p, "modelID"@, JsonV::Str(id), "providerID"@);
            let m = json::object2("providerID"@, JsonV::Str(provider), "modelID"@, JsonV::Str(id));
            json::find_after_bind(bare, "model"@, m, "parts"@);
            json::find_after_bind(bare, "model"@, m, "agent"@);
            json::find_after_bind(bare, "model"@, m, "variant"@);
            json::bind(bare, "model"@, m)
        },
        None => bare,
    };
    match cards::variant_for(t.reasoning_level) {
        Some(v) => {
            json::find_after_bind(chosen, "variant"@, JsonV::Str(v), "parts"@);
            json::find_after_bind(chosen, "variant"@, JsonV::Str(v), "agent"@);
            json::find_after_bind(chosen, "variant"@, JsonV::Str(v), "model"@);
        },
        None => {},
    }
}

/// A session of the second generation is opened for the agent of the turn's
/// mode, with the chosen model and its variant, each exactly if there is one;
/// one of the first generation is opened with nothing said. Each generation has
/// its own place.
pub proof fn sessions_are_opened_for_the_turn(t: TurnV, base: Seq<char>)
    ensures
        ({
            let first = opening(t, base, OpenCodeVersion::V1);
            let second = opening(t, base, OpenCodeVersion::V2);
            let body = second.body->0;
            let model = body.member("model"@);
            &&& first.url == base + "/session"@
            &&& first.body == Some(JsonV::Object(Seq::empty()))
            &&& second.url == base + "/api/session"@
            &&& second.body is Some
            &&& body.str_at("agent"@) == Some(
                if t.plan_mode {
                    "plan"@
                } else {
                    "build"@
                },
            )
            &&& chosen_model(t) is None ==> body.get("model"@) is None
            &&& chosen_model(t) matches Some((provider, id)) ==> {
                &&& model.str_at("providerID"@) == Some(provider)
                &&& model.str_at("id"@) == Some(id)
                &&& t.reasoning_level is None || t.reasoning_level == Some("default"@)
                    ==> model.get("variant"@) is None
                &&& t.reasoning_level is Some && t.reasoning_level != Some("default"@)
                    ==> model.str_at("variant"@) == t.reasoning_level
            }
        }),
{
    lemma_members();
    reveal_with_fuel(json::find, 2);
    let agent = seq![("agent"@, JsonV::Str(cards::agent_name(t.plan_mode)))];
    match chosen_model(t) {
        Some((provider, id)) => {
            let p = seq![("providerID"@, JsonV::Str(provider))];
            json::find_after_bind(p, "id"@, JsonV::Str(id), "providerID"@);
            json::find_after_bind(p, "id"@, JsonV::Str(id), "variant"@);
            let bare = json::bind(p, "id"@, JsonV::Str(id));
            let reference = match cards::variant_for(t.reasoning_level) {
                Some(v) => {
                    json::find_after_bind(bare, "variant"@, JsonV::Str(v), "providerID"@);
                    json::find_after_bind(bare, "variant"@, JsonV::Str(v), "id"@);
                    json::bind(bare, "variant"@, JsonV::Str(v))
                },
                None => bare,
            };
            json::find_after_bind(agent, "model"@, JsonV::Object(reference), "agent"@);
        },
        None => {},
    }
}

/// An answered form is replied to under its id, with what was picked for each
/// of its fields; a label that is no longer on its card makes that impossible.
pub proof fn answered_forms_are_replied_to(
    base: Seq<char>,
    session: Seq<char>,
    id: Seq<char>,
    state: JsonV,
    labels: Seq<Seq<char>>,
    key: Seq<char>,
)
    ensures
        ({
            let form = form_in(state);
            let reply = form_reply(base, session, id, state, labels);
            let fits = forall|i: int|
                0 <= i < labels.len() ==> forms::on_card(form, #[trigger] labels[i]);
            &&& reply is Ok <==> fits
            &&& reply matches Ok(request) ==> {
                &&& request.url == base + "/api/session/"@ + session + "/form/"@ + id + "/reply"@
                &&& request.body matches Some(body) && body.member("answer"@).get(key)
                    == forms::field_answer(form, labels, key)
            }
            &&& reply is Err ==> reply == Err::<RequestV, Seq<char>>(FORM_CHANGED@)
        }),
{
    reveal_with_fuel(json::find, 2);
    let form = form_in(state);
    forms::stale_labels_fail(form, labels);
    if forall|i: int| 0 <= i < labels.len() ==> forms::on_card(form, #[trigger] labels[i]) {
        forms::card_labels_answer_the_form(form, labels, key);
    }
}

/// A turn's message goes to its session: the first generation gets the whole
/// message, the second its text. The transcript is read from the same session,
/// and cannot be read without one.
pub proof fn messages_go_to_the_session(t: TurnV, base: Seq<char>, session: Seq<char>)
    ensures
        ({
            let at = base + "/api/session/"@ + session;
            let first = message_post(t, base, session);
            let second = prompt_post(t, base, session);
            &&& first.url == base + "/session/"@ + session + "/message"@
            &&& first.body == Some(message_body(t))
            &&& second.url == at + "/prompt"@
            &&& second.body matches Some(body) && body.str_at("text"@) == Some(t.text)
            &&& t.native_session_id == Some(session) ==> export_read(t, base) == Ok::<
                RequestV,
                Seq<char>,
            >((RequestV { url: at + "/export"@, body: None }))
            &&& t.native_session_id is None ==> export_read(t, base) is Err
        }),
{
    reveal_with_fuel(json::find, 2);
}

} // verus!
