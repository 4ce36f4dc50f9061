//! A turn that streams: the agent's event stream, its requests for
//! permission and its questions, and the reply that ends the turn.

use vstd::prelude::*;

use crate::cards;
use crate::collections::{StrMap, StrSet};
use crate::events;
use crate::events::StreamV;
use crate::json;
use crate::json::{Json, JsonV};
use crate::native;
use crate::text;
use crate::turn;
use crate::turn::{FailureV, Flush, TurnCtx, TurnV};
use crate::wire;
use crate::wire::{DeliveryState, PartV, PermissionMode, PromptV, WirePart, WirePrompt};

verus! {

broadcast use {json::group_json, wire::lemma_children};

// ---------------------------------------------------------------------------
// Lines of the stream
// ---------------------------------------------------------------------------

/// The lines of a text that are complete: those with a line feed behind them.
pub open spec fn complete(s: Seq<char>) -> Seq<Seq<char>>
    decreases s.len(),
{
    let i = text::first_index(s, '\n');
    if 0 <= i < s.len() {
        seq![s.take(i)] + complete(s.skip(i + 1))
    } else {
        Seq::empty()
    }
}

/// What stands behind the last complete line.
pub open spec fn leftover(s: Seq<char>) -> Seq<char>
    decreases s.len(),
{
    let i = text::first_index(s, '\n');
    if 0 <= i < s.len() {
        leftover(s.skip(i + 1))
    } else {
        s
    }
}

/// What the data lines among these lines carry.
pub open spec fn payloads(lines: Seq<Seq<char>>) -> Seq<Seq<char>>
    decreases lines.len(),
{
    if lines.len() == 0 {
        Seq::empty()
    } else {
        let line = text::trim(lines.last());
        let init = payloads(lines.drop_last());
        if text::starts_with(line, "data: "@) {
            init.push(line.skip("data: "@.len() as int))
        } else {
            init
        }
    }
}

/// What a piece of the stream comes to, given the text that was not yet a
/// line: the data that it completes, and the text that is not yet a line then.
pub open spec fn fed(buf: Seq<char>, chunk: Seq<char>) -> (Seq<Seq<char>>, Seq<char>) {
    (payloads(complete(buf + chunk)), leftover(buf + chunk))
}

/// What is known of a stream: the text that is not yet a line, the messages
/// and sessions that it is about, and the calls that ask to leave the plan.
#[derive(Debug)]
pub struct TurnStream {
    pub buf: String,
    pub assistant_msgs: StrSet,
    pub sub_sessions: StrMap,
    pub plan_exit_calls: StrSet,
}

/// The model of a [`TurnStream`].
#[verifier::ext_equal]
pub struct TurnStreamV {
    pub buf: Seq<char>,
    pub assistant_msgs: Set<Seq<char>>,
    pub sub_sessions: Seq<(Seq<char>, Seq<char>)>,
    pub exits: Set<Seq<char>>,
}

impl View for TurnStream {
    type V = TurnStreamV;

    open spec fn view(&self) -> TurnStreamV {
        TurnStreamV {
            buf: self.buf@,
            assistant_msgs: self.assistant_msgs@,
            sub_sessions: self.sub_sessions@,
            exits: self.plan_exit_calls@,
        }
    }
}

impl TurnStream {
    /// A stream of which nothing has been read.
    pub fn new() -> (r: TurnStream)
        ensures
            r@ == (TurnStreamV {
                buf: Seq::empty(),
                assistant_msgs: Set::empty(),
                sub_sessions: Seq::empty(),
                exits: Set::empty(),
            }),
    {
        TurnStream {
            buf: String::new(),
            assistant_msgs: StrSet::new(),
            sub_sessions: StrMap::new(),
            plan_exit_calls: StrSet::new(),
        }
    }

    /// Take in a piece of the stream: what the data lines carry that it
    /// completes. What is not yet a line is kept for the next piece.
    pub fn feed(&mut self, chunk: &str) -> (r: Vec<String>)
        ensures
            text::texts(r@) == fed(old(self)@.buf, chunk@).0,
            final(self)@ == (TurnStreamV { buf: fed(old(self)@.buf, chunk@).1, ..old(self)@ }),
    {
        let joined: String = text::concat2(self.buf.as_str(), chunk);
        let v: Vec<char> = text::chars_of(joined.as_str());
        let ghost all = complete(v@);
        let mut out: Vec<String> = Vec::new();
        let mut from: usize = 0;
        let ghost mut done: int = 0;
        proof {
            assert(v@.skip(0) =~= v@);
            assert(all.take(0) =~= Seq::empty());
            assert(all.skip(0) =~= all);
            assert(text::texts(out@) =~= Seq::empty());
        }
        let mut at: usize = text::find_from(&v, '\n', 0);
        while at < v.len()
            invariant
                from <= at <= v@.len(),
                at == from + text::first_index(v@.skip(from as int), '\n'),
                all == complete(v@),
                0 <= done <= all.len(),
                complete(v@.skip(from as int)) == all.skip(done),
                leftover(v@.skip(from as int)) == leftover(v@),
                text::texts(out@) == payloads(all.take(done)),
            decreases v@.len() - from,
        {
            let ghost rest = v@.skip(from as int);
            assert(rest.take(at - from) =~= v@.subrange(from as int, at as int));
            assert(rest.skip(at - from + 1) =~= v@.skip(at + 1));
            assert(all.skip(done)[0] == rest.take(at - from));
            assert(all.skip(done).skip(1) =~= complete(v@.skip(at + 1)));
            assert(all.skip(done).skip(1) =~= all.skip(done + 1));
            assert(all.take(done + 1).drop_last() =~= all.take(done));
            assert(all.take(done + 1).last() == rest.take(at - from));
            let raw: String = text::slice_text(&v, from, at);
            let line: String = text::trim_text(raw.as_str());
            match text::strip_prefix_text(line.as_str(), "data: ") {
                Some(data) => {
                    text::push_text(&mut out, data.as_str());
                },
                None => {},
            }
            from = at + 1;
            proof {
                done = done + 1;
            }
            at = text::find_from(&v, '\n', from);
        }
        assert(all.skip(done).len() == 0);
        assert(all.take(done) =~= all);
        assert(v@.skip(from as int) =~= v@.subrange(from as int, v@.len() as int));
        self.buf = text::slice_text(&v, from, v.len());
        out
    }
}

// ---------------------------------------------------------------------------
// Cards
// ---------------------------------------------------------------------------

/// The id under which a card stands in the transcript: that of the request.
pub open spec fn card_id(t: TurnV, card: PromptV) -> Seq<char> {
    cards::text_or(card.native_id, "prompt-"@ + text::decimal(t.parts.len()))
}

/// The turn with a card, which is shown at once.
pub open spec fn surfaced(t: TurnV, card: PromptV) -> TurnV {
    TurnV {
        parts: turn::upsert(t.parts, wire::prompt_part(card_id(t, card), card)),
        flush: Flush::Now,
        ..t
    }
}

/// Show a card at once.
pub fn surface_card(ctx: &mut TurnCtx, card: WirePrompt)
    ensures
        final(ctx)@ == surfaced(old(ctx)@, card@),
{
    assert(wire::part_models(ctx.assistant.parts@).len() == ctx.assistant.parts@.len());
    let id: String = match text::opt_as_str(&card.native_id) {
        Some(id) => id.to_owned(),
        None => {
            let number: String = text::decimal_of(ctx.assistant.parts.len() as u64);
            text::concat2("prompt-", number.as_str())
        },
    };
    ctx.upsert_part(WirePart::prompt(id.as_str(), card));
    ctx.flush_now();
}

/// The turn with an error that is shown at once.
pub open spec fn errored(t: TurnV, message: Seq<char>) -> TurnV {
    TurnV { errors: t.errors.push(message), flush: Flush::Now, ..t }
}

/// Told when a permission request has no id.
pub const BAD_PERMISSION: &'static str = "opencode asked for a permission we couldn't parse";

/// Told when a question has no id or no text.
pub const BAD_QUESTION: &'static str = "opencode asked a question we couldn't parse";

/// What comes of an event that may ask something.
#[derive(Debug)]
pub enum PromptStep {
    /// The event asks nothing of this session.
    NotConsumed,
    /// The event has been dealt with.
    Consumed,
    /// The request with this id is to be granted. If that fails, the card is
    /// shown.
    AutoReply(String, WirePrompt),
}

/// The model of a [`PromptStep`].
#[verifier::ext_equal]
pub enum PromptStepV {
    NotConsumed,
    Consumed,
    AutoReply(Seq<char>, PromptV),
}

impl View for PromptStep {
    type V = PromptStepV;

    open spec fn view(&self) -> PromptStepV {
        match *self {
            PromptStep::NotConsumed => PromptStepV::NotConsumed,
            PromptStep::Consumed => PromptStepV::Consumed,
            PromptStep::AutoReply(id, card) => PromptStepV::AutoReply(id@, card@),
        }
    }
}

/// What an event that may ask something does. A permission is granted without
/// asking where that is the session's policy, and shown otherwise; a question
/// is always shown.
pub open spec fn prompt_effect(
    t: TurnV,
    native_id: Seq<char>,
    event: JsonV,
    exits: Set<Seq<char>>,
) -> (TurnV, PromptStepV) {
    let props = event.member("properties"@);
    let kind = event.str_at("type"@);
    if props.str_at("sessionID"@) != Some(native_id) {
        (t, PromptStepV::NotConsumed)
    } else if kind == Some("permission.asked"@) {
        match cards::permission_prompt(props) {
            Some(card) => if t.permission_mode == Some(PermissionMode::Auto) {
                (t, PromptStepV::AutoReply(card_id(t, card), card))
            } else {
                (surfaced(t, card), PromptStepV::Consumed)
            },
            None => (errored(t, BAD_PERMISSION@), PromptStepV::Consumed),
        }
    } else if kind == Some("question.asked"@) {
        match cards::question_prompt(props, exits) {
            Some(card) => (surfaced(t, card), PromptStepV::Consumed),
            None => (errored(t, BAD_QUESTION@), PromptStepV::Consumed),
        }
    } else {
        (t, PromptStepV::NotConsumed)
    }
}

/// Deal with an event that may ask something.
pub fn handle_prompt_event(
    ctx: &mut TurnCtx,
    native_id: &str,
    event: &Json,
    plan_exit_calls: &StrSet,
) -> (r: PromptStep)
    ensures
        (final(ctx)@, r@) == prompt_effect(old(ctx)@, native_id@, event@, plan_exit_calls@),
{
    let null: Json = Json::Null;
    let props: &Json = events::member_or(event, "properties", &null);
    if !text::opt_is(props.str_at("sessionID"), native_id) {
        return PromptStep::NotConsumed;
    }
    if text::opt_is(event.str_at("type"), "permission.asked") {
        match cards::permission_card(props) {
            Some(card) => {
                if cards::opencode_auto_approve(ctx.permission_mode) {
                    match text::opt_as_str(&card.native_id) {
                        Some(id) => {
                            let id: String = id.to_owned();
                            return PromptStep::AutoReply(id, card);
                        },
                        None => {},
                    }
                }
                surface_card(ctx, card);
            },
            None => {
                ctx.push_error(BAD_PERMISSION);
                ctx.flush_now();
            },
        }
        PromptStep::Consumed
    } else if text::opt_is(event.str_at("type"), "question.asked") {
        match cards::question_card(props, plan_exit_calls) {
            Some(card) => {
                surface_card(ctx, card);
            },
            None => {
                ctx.push_error(BAD_QUESTION);
                ctx.flush_now();
            },
        }
        PromptStep::Consumed
    } else {
        PromptStep::NotConsumed
    }
}

// ---------------------------------------------------------------------------
// Events
// ---------------------------------------------------------------------------

/// The call with which this session's plan is to be left, if the event is
/// about one.
pub open spec fn exit_call(native_id: Seq<char>, event: JsonV) -> Option<Seq<char>> {
    let part = event.member("properties"@).member("part"@);
    if part.str_at("sessionID"@) == Some(native_id) && part.str_at("type"@) == Some("tool"@)
        && part.str_at("tool"@) == Some("plan_exit"@) {
        part.str_at("callID"@)
    } else {
        None
    }
}

/// The calls with those that the event is about.
pub open spec fn with_exit(exits: Set<Seq<char>>, native_id: Seq<char>, event: JsonV) -> Set<
    Seq<char>,
> {
    match exit_call(native_id, event) {
        Some(call) => exits.insert(call),
        None => exits,
    }
}

fn note_plan_exit(exits: &mut StrSet, native_id: &str, event: &Json)
    ensures
        final(exits)@ == with_exit(old(exits)@, native_id@, event@),
{
    let null: Json = Json::Null;
    let props: &Json = events::member_or(event, "properties", &null);
    let part: &Json = events::member_or(props, "part", &null);
    if text::opt_is(part.str_at("sessionID"), native_id) && text::opt_is(
        part.str_at("type"),
        "tool",
    ) && text::opt_is(part.str_at("tool"), "plan_exit") {
        match part.str_at("callID") {
            Some(call) => {
                let _ = exits.insert(call);
            },
            None => {},
        }
    }
}

/// What an event does to a turn and its stream: a call that asks to leave the
/// plan is noted, then the event is a request or an update.
pub open spec fn stream_effect(
    t: TurnV,
    s: TurnStreamV,
    native_id: Seq<char>,
    event: JsonV,
    now: i64,
) -> (TurnV, TurnStreamV, PromptStepV) {
    let noted = TurnStreamV { exits: with_exit(s.exits, native_id, event), ..s };
    let (asked, step) = prompt_effect(t, native_id, event, noted.exits);
    if step is NotConsumed {
        let after = events::event_effect(
            StreamV { turn: t, assistant_msgs: s.assistant_msgs, sub_sessions: s.sub_sessions },
            native_id,
            event,
            now,
        );
        (
            after.turn,
            TurnStreamV {
                assistant_msgs: after.assistant_msgs,
                sub_sessions: after.sub_sessions,
                ..noted
            },
            step,
        )
    } else {
        (asked, noted, step)
    }
}

/// Deal with an event of the stream.
pub fn on_event(
    ctx: &mut TurnCtx,
    stream: &mut TurnStream,
    native_id: &str,
    event: &Json,
    now: i64,
) -> (r: PromptStep)
    requires
        events::in_range(native_id@, event@, now),
    ensures
        (final(ctx)@, final(stream)@, r@) == stream_effect(
            old(ctx)@,
            old(stream)@,
            native_id@,
            event@,
            now,
        ),
{
    note_plan_exit(&mut stream.plan_exit_calls, native_id, event);
    let step: PromptStep = handle_prompt_event(ctx, native_id, event, &stream.plan_exit_calls);
    match step {
        PromptStep::NotConsumed => {
            events::handle_event(
                ctx,
                native_id,
                event,
                &mut stream.assistant_msgs,
                &mut stream.sub_sessions,
                now,
            );
        },
        _ => {},
    }
    step
}

/// What comes of the data of one line.
#[derive(Debug)]
pub enum DataStep {
    /// The data is no document.
    Ignored,
    /// A number in the event is too large to count with.
    OutOfRange,
    /// The event has been dealt with, or leaves something to do.
    Done(PromptStep),
}

/// What the data of one line does to a turn and its stream, given the
/// document in it.
pub open spec fn data_effect(
    t: TurnV,
    s: TurnStreamV,
    native_id: Seq<char>,
    event: Option<JsonV>,
    now: i64,
    r: DataStep,
    after: (TurnV, TurnStreamV),
) -> bool {
    match event {
        None => r is Ignored && after == (t, s),
        Some(e) => if events::in_range(native_id, e, now) {
            let (turn_after, stream_after, step) = stream_effect(t, s, native_id, e, now);
            after == (turn_after, stream_after) && (r matches DataStep::Done(p) && p@ == step)
        } else {
            r is OutOfRange && after == (t, s)
        },
    }
}

/// Deal with the data of one line.
pub fn on_data(
    ctx: &mut TurnCtx,
    stream: &mut TurnStream,
    native_id: &str,
    data: &str,
    now: i64,
) -> (r: DataStep)
    ensures
        data_effect(
            old(ctx)@,
            old(stream)@,
            native_id@,
            native::parsed(data@),
            now,
            r,
            (final(ctx)@, final(stream)@),
        ),
{
    match native::parse_json(data) {
        Some(event) => {
            if events::event_in_range(native_id, &event, now) {
                DataStep::Done(on_event(ctx, stream, native_id, &event, now))
            } else {
                DataStep::OutOfRange
            }
        },
        None => DataStep::Ignored,
    }
}

// ---------------------------------------------------------------------------
// The end of a turn
// ---------------------------------------------------------------------------

/// Told when the stream ends before the turn does.
pub const STREAM_ENDED: &'static str = "opencode event stream ended mid-turn";

/// Told when the reply is one of an earlier turn.
pub const STALE: &'static str = "OpenCode returned an earlier assistant message instead of replying to this turn. Update OpenCode or start a new chat.";

/// The parts with those of the reply merged in. A row keeps what its
/// sub-agent streamed into it.
pub open spec fn with_reply(parts: Seq<PartV>, items: Seq<JsonV>) -> Seq<PartV>
    decreases items.len(),
{
    if items.len() == 0 {
        parts
    } else {
        let init = with_reply(parts, items.drop_last());
        match cards::wire_part(items.last()) {
            Some(part) => turn::upsert_keeping(init, part),
            None => init,
        }
    }
}

/// How the reply ends a turn: with its error, as stale, or with its parts.
pub open spec fn reply_effect(t: TurnV, message: JsonV, started: i64) -> (TurnV, Option<Seq<char>>) {
    let arrived = TurnV { delivery: DeliveryState::Accepted, ..t };
    match cards::response_error(message) {
        Some(e) => (
            TurnV {
                native_retry_exhausted: true,
                failure: Some(FailureV { code: "opencode_terminal"@, message: e }),
                ..arrived
            },
            Some(e),
        ),
        None => {
            let settled = TurnV { retry: None, ..arrived };
            if cards::response_is_current(message, started) {
                (
                    TurnV {
                        parts: with_reply(settled.parts, message.items_at("parts"@)),
                        ..settled
                    },
                    None,
                )
            } else {
                (
                    TurnV {
                        failure: Some(
                            FailureV { code: "opencode_stale_response"@, message: STALE@ },
                        ),
                        ..settled
                    },
                    Some(STALE@),
                )
            }
        },
    }
}

/// End a turn with the reply to its message.
pub fn finish_turn(ctx: &mut TurnCtx, message: &Json, turn_started_at: i64) -> (r: Result<
    (),
    String,
>)
    ensures
        final(ctx)@ == reply_effect(old(ctx)@, message@, turn_started_at).0,
        match r {
            Ok(_) => reply_effect(old(ctx)@, message@, turn_started_at).1 is None,
            Err(e) => reply_effect(old(ctx)@, message@, turn_started_at).1 == Some(e@),
        },
{
    ctx.mark_delivery(DeliveryState::Accepted);
    match cards::opencode_response_error(message) {
        Some(error) => {
            ctx.mark_native_retry_exhausted();
            ctx.mark_terminal_failure("opencode_terminal", error.as_str());
            return Err(error);
        },
        None => {},
    }
    ctx.clear_retry_status();
    if !cards::opencode_response_is_current(message, turn_started_at) {
        ctx.mark_terminal_failure("opencode_stale_response", STALE);
        return Err(STALE.to_owned());
    }
    match message.array_at("parts") {
        Some(items) => {
            let ghost before = ctx@;
            let ghost all = json::models(items@);
            let mut i: usize = 0;
            assert(all.take(0) =~= Seq::empty());
            while i < items.len()
                invariant
                    i <= items@.len(),
                    all == json::models(items@),
                    ctx@ == (TurnV {
                        parts: with_reply(before.parts, all.take(i as int)),
                        ..before
                    }),
                decreases items@.len() - i,
            {
                assert(all.take(i + 1).drop_last() =~= all.take(i as int));
                assert(all.take(i + 1).last() == items@[i as int]@);
                match cards::to_wire_part(&items[i]) {
                    Some(part) => {
                        ctx.upsert_part_preserving_children(part);
                    },
                    None => {},
                }
                i += 1;
            }
            assert(all.take(i as int) =~= all);
        },
        None => {},
    }
    Ok(())
}

// ---------------------------------------------------------------------------
// Laws
// ---------------------------------------------------------------------------

proof fn lemma_first_in(s: Seq<char>, t: Seq<char>)
    requires
        text::first_index(s, '\n') < s.len(),
    ensures
        text::first_index(s + t, '\n') == text::first_index(s, '\n'),
{
    text::lemma_first_index(s, '\n');
    text::lemma_first_index(s + t, '\n');
    let i = text::first_index(s, '\n');
    let k = text::first_index(s + t, '\n');
    assert((s + t)[i] == s[i]);
    if k < i {
        assert((s + t)[k] == s[k]);
    }
}

/// How the stream is cut into pieces does not matter: two pieces give the
/// lines that they give together.
pub proof fn pieces_do_not_matter(s: Seq<char>, t: Seq<char>)
    ensures
        complete(s + t) == complete(s) + complete(leftover(s) + t),
        leftover(s + t) == leftover(leftover(s) + t),
    decreases s.len(),
{
    let i = text::first_index(s, '\n');
    text::lemma_first_index(s, '\n');
    if i < s.len() {
        lemma_first_in(s, t);
        assert((s + t).take(i) =~= s.take(i));
        assert((s + t).skip(i + 1) =~= s.skip(i + 1) + t);
        pieces_do_not_matter(s.skip(i + 1), t);
        assert(complete(s + t) =~= complete(s) + complete(leftover(s) + t));
    } else {
        assert(complete(s) + complete(s + t) =~= complete(s + t));
    }
}

/// The payloads of two runs of lines are those of one after the other.
pub proof fn lemma_payloads(a: Seq<Seq<char>>, b: Seq<Seq<char>>)
    ensures
        payloads(a + b) == payloads(a) + payloads(b),
    decreases b.len(),
{
    if b.len() == 0 {
        assert(a + b =~= a);
        assert(payloads(a) + payloads(b) =~= payloads(a));
    } else {
        lemma_payloads(a, b.drop_last());
        assert((a + b).drop_last() =~= a + b.drop_last());
        assert((a + b).last() == b.last());
        assert(payloads(a + b) =~= payloads(a) + payloads(b));
    }
}

/// Feeding two pieces gives the data that feeding them as one gives, and
/// leaves the same text over.
pub proof fn pieces_carry_the_same_data(buf: Seq<char>, a: Seq<char>, b: Seq<char>)
    ensures
        payloads(complete(buf + (a + b))) == payloads(complete(buf + a)) + payloads(
            complete(leftover(buf + a) + b),
        ),
        leftover(buf + (a + b)) == leftover(leftover(buf + a) + b),
{
    assert(buf + (a + b) =~= (buf + a) + b);
    pieces_do_not_matter(buf + a, b);
    lemma_payloads(complete(buf + a), complete(leftover(buf + a) + b));
}

/// What another session asks is left alone.
pub proof fn foreign_prompts_are_left_alone(
    t: TurnV,
    native_id: Seq<char>,
    event: JsonV,
    exits: Set<Seq<char>>,
)
    requires
        event.member("properties"@).str_at("sessionID"@) != Some(native_id),
    ensures
        prompt_effect(t, native_id, event, exits) == (t, PromptStepV::NotConsumed),
{
}

/// A card that was shown stands in the transcript under the id of its request,
/// so that the answer finds its way back.
pub proof fn shown_cards_carry_their_request(t: TurnV, card: PromptV, id: Seq<char>)
    requires
        card.native_id == Some(id),
    ensures
        ({
            let parts = surfaced(t, card).parts;
            let i = turn::part_index(parts, id);
            &&& 0 <= i < parts.len()
            &&& parts[i] == wire::prompt_part(id, card)
        }),
{
    turn::upserted_part_is_found(t.parts, wire::prompt_part(id, card));
}

/// A question is shown whatever the session's policy; only permissions are
/// granted without asking, and only where that is the policy.
pub proof fn only_permissions_are_granted(
    t: TurnV,
    native_id: Seq<char>,
    event: JsonV,
    exits: Set<Seq<char>>,
)
    ensures
        ({
            let (after, step) = prompt_effect(t, native_id, event, exits);
            &&& step is AutoReply ==> t.permission_mode == Some(PermissionMode::Auto)
                && event.str_at("type"@) == Some("permission.asked"@) && after == t
            &&& event.str_at("type"@) == Some("question.asked"@) && event.member(
                "properties"@,
            ).str_at("sessionID"@) == Some(native_id) ==> (match cards::question_prompt(
                event.member("properties"@),
                exits,
            ) {
                Some(card) => after == surfaced(t, card),
                None => after == errored(t, BAD_QUESTION@),
            })
        }),
{
    reveal_strlit("permission.asked");
    reveal_strlit("question.asked");
    assert("permission.asked"@.len() != "question.asked"@.len());
}

/// A reply of an earlier turn adds nothing to the transcript.
pub proof fn stale_replies_add_nothing(t: TurnV, message: JsonV, started: i64)
    requires
        !cards::response_is_current(message, started),
    ensures
        reply_effect(t, message, started).0.parts == t.parts,
        reply_effect(t, message, started).1 is Some,
{
}

/// What a server sends for some pieces of data: for each a line that says so,
/// and an empty line.
pub open spec fn sent(all: Seq<Seq<char>>) -> Seq<char>
    decreases all.len(),
{
    if all.len() == 0 {
        Seq::empty()
    } else {
        sent(all.drop_last()) + "data: "@ + all.last() + "\n\n"@
    }
}

/// Data that fits on a line, without white space at its end.
pub open spec fn fits_a_line(data: Seq<char>) -> bool {
    data.len() > 0 && !data.contains('\n') && !text::is_white(data.last())
}

proof fn lemma_one_line(line: Seq<char>)
    requires
        !line.contains('\n'),
    ensures
        complete(line + seq!['\n']) == seq![line],
        leftover(line + seq!['\n']) == Seq::<char>::empty(),
{
    let s = line + seq!['\n'];
    text::lemma_first_index(s, '\n');
    let n = line.len() as int;
    assert(s[n] == '\n');
    let i = text::first_index(s, '\n');
    if i < n {
        assert(line[i] == '\n');
        assert(line.contains('\n'));
    }
    assert(s.take(n) =~= line);
    assert(s.skip(n + 1) =~= Seq::empty());
    reveal_with_fuel(complete, 2);
    reveal_with_fuel(leftover, 2);
    assert(complete(s) =~= seq![line]);
}

proof fn lemma_data_line(data: Seq<char>)
    requires
        fits_a_line(data),
    ensures
        !("data: "@ + data).contains('\n'),
        payloads(seq!["data: "@ + data]) == seq![data],
        payloads(seq![Seq::<char>::empty()]) == Seq::<Seq<char>>::empty(),
{
    reveal_strlit("data: ");
    let line = "data: "@ + data;
    if line.contains('\n') {
        let k = choose|k: int| 0 <= k < line.len() && line[k] == '\n';
        assert(data[k - 6] == '\n');
        assert(data.contains('\n'));
    }
    assert(line.last() == data.last());
    assert(line[0] == 'd');
    text::trimmed_texts_stay(line);
    reveal_with_fuel(payloads, 2);
    let one = seq![line];
    assert(one.last() == line);
    assert(one.drop_last() =~= Seq::empty());
    assert(line.take(6) =~= "data: "@);
    assert(line.skip(6) =~= data);
    assert(payloads(one) =~= seq![data]);
    let nothing = Seq::<char>::empty();
    let none = seq![nothing];
    assert(none.last() == nothing);
    assert(none.drop_last() =~= Seq::empty());
    text::trimmed_texts_stay(nothing);
}

/// What a server sends is read as it was sent, piece by piece, in order, and
/// nothing is left over; a line that is not complete waits for the rest.
pub proof fn sent_data_reads_back(all: Seq<Seq<char>>, rest: Seq<char>)
    requires
        forall|i: int| 0 <= i < all.len() ==> fits_a_line(#[trigger] all[i]),
        !rest.contains('\n'),
    ensures
        payloads(complete(sent(all) + rest)) == all,
        leftover(sent(all) + rest) == rest,
    decreases all.len(),
{
    text::lemma_first_index(rest, '\n');
    if all.len() == 0 {
        assert(sent(all) + rest =~= rest);
        assert(payloads(complete(sent(all) + rest)) =~= all);
    } else {
        let init = all.drop_last();
        let data = all.last();
        assert(fits_a_line(all[all.len() - 1]));
        assert forall|i: int| 0 <= i < init.len() implies fits_a_line(#[trigger] init[i]) by {
            assert(init[i] == all[i]);
        }
        let none = Seq::<char>::empty();
        sent_data_reads_back(init, none);
        assert(sent(init) + none =~= sent(init));
        reveal_strlit("\n\n");
        let nl = seq!['\n'];
        let line = "data: "@ + data;
        lemma_data_line(data);
        lemma_one_line(line);
        lemma_one_line(none);
        pieces_do_not_matter(sent(init), line + nl);
        let a = sent(init) + (line + nl);
        assert(none + (line + nl) =~= line + nl);
        lemma_payloads(complete(sent(init)), seq![line]);
        pieces_do_not_matter(a, none + nl);
        let b = a + (none + nl);
        assert(none + (none + nl) =~= none + nl);
        lemma_payloads(complete(a), seq![none]);
        pieces_do_not_matter(b, rest);
        assert(none + rest =~= rest);
        lemma_payloads(complete(b), complete(rest));
        assert(sent(all) =~= b);
        assert(complete(rest) =~= Seq::empty());
        assert(payloads(complete(sent(all) + rest)) =~= all);
    }
}

/// A line that does not say it is data carries none.
pub proof fn other_lines_carry_nothing(line: Seq<char>)
    requires
        !text::contains(line, "data: "@),
    ensures
        payloads(seq![line]) == Seq::<Seq<char>>::empty(),
{
    reveal_with_fuel(payloads, 2);
    let one = seq![line];
    assert(one.last() == line);
    assert(one.drop_last() =~= Seq::empty());
    let (i, j) = text::trimming_takes_white_space_only(line);
    let word = "data: "@;
    if text::starts_with(text::trim(line), word) {
        assert(line.subrange(i, i + word.len()) =~= text::trim(line).take(word.len() as int));
        assert(text::occurs_at(line, word, i));
    }
}

proof fn lemma_asked()
    ensures
        "permission.asked"@ != "question.asked"@,
{
    reveal_strlit("permission.asked");
    reveal_strlit("question.asked");
    assert("permission.asked"@.len() != "question.asked"@.len());
}

/// A permission that this session asks for is shown at once where the user is
/// asked, as a part under the request's id, and is to be granted where
/// permissions are approved, with the turn as it was. Either way the card names
/// the permission and has its metadata. A request without an id is told as an
/// error.
pub proof fn asked_permissions_are_shown_or_granted(
    t: TurnV,
    native_id: Seq<char>,
    event: JsonV,
    exits: Set<Seq<char>>,
    id: Seq<char>,
)
    requires
        event.str_at("type"@) == Some("permission.asked"@),
        event.member("properties"@).str_at("sessionID"@) == Some(native_id),
    ensures
        ({
            let props = event.member("properties"@);
            let (after, step) = prompt_effect(t, native_id, event, exits);
            let card = PromptV {
                kind: "permission"@,
                tool: props.str_at("permission"@),
                tool_input: if props.get("metadata"@) == Some(JsonV::Null) {
                    None
                } else {
                    props.get("metadata"@)
                },
                native_id: Some(id),
                question: None,
                header: None,
                options: Seq::empty(),
                multi_select: false,
                plan_exit: false,
            };
            let part = PartV {
                id,
                kind: "prompt"@,
                text: None,
                tool: None,
                state: None,
                prompt: Some(card),
                children: Seq::empty(),
            };
            let auto = t.permission_mode == Some(PermissionMode::Auto);
            &&& props.str_at("id"@) == Some(id) && !auto ==> step is Consumed && after == (TurnV {
                parts: turn::upsert(t.parts, part),
                flush: Flush::Now,
                ..t
            })
            &&& props.str_at("id"@) == Some(id) && auto ==> step == PromptStepV::AutoReply(id, card)
                && after == t
            &&& props.str_at("id"@) is None ==> step is Consumed && after == (TurnV {
                errors: t.errors.push("opencode asked for a permission we couldn't parse"@),
                flush: Flush::Now,
                ..t
            })
        }),
{
    lemma_asked();
}

/// A question that this session asks is shown at once, whatever the policy, as
/// a part under the request's id with its first question. One that cannot be
/// read is told as an error.
pub proof fn asked_questions_are_shown(
    t: TurnV,
    native_id: Seq<char>,
    event: JsonV,
    exits: Set<Seq<char>>,
    id: Seq<char>,
    questions: Seq<JsonV>,
)
    requires
        event.str_at("type"@) == Some("question.asked"@),
        event.member("properties"@).str_at("sessionID"@) == Some(native_id),
    ensures
        ({
            let props = event.member("properties"@);
            let (after, step) = prompt_effect(t, native_id, event, exits);
            let i = turn::part_index(t.parts, id);
            &&& step is Consumed
            &&& props.str_at("id"@) == Some(id) && props.get("questions"@) == Some(
                JsonV::Array(questions),
            ) && questions.len() > 0 ==> {
                let shown = after.parts[i];
                &&& 0 <= i < after.parts.len()
                &&& shown.id == id && shown.kind == "prompt"@
                &&& shown.prompt matches Some(card) && card.kind == "question"@ && card.question
                    == questions[0].str_at("question"@) && card.native_id == Some(id)
                &&& forall|j: int|
                    0 <= j < t.parts.len() && j != i ==> #[trigger] after.parts[j] == t.parts[j]
                &&& after == (TurnV { parts: after.parts, flush: Flush::Now, ..t })
            }
            &&& props.str_at("id"@) is None || props.items_at("questions"@).len() == 0 ==> after
                == (TurnV {
                errors: t.errors.push("opencode asked a question we couldn't parse"@),
                flush: Flush::Now,
                ..t
            })
        }),
{
    lemma_asked();
    turn::lemma_part_index(t.parts, id);
}

/// The plan's exit is recognised by the call that asks: once the session has
/// called the tool for it, the question of that call is the plan's exit, and a
/// question of a call that was not noted is not.
pub proof fn plan_exits_are_recognised(
    t: TurnV,
    s: TurnStreamV,
    native_id: Seq<char>,
    calling: JsonV,
    asking: JsonV,
    now: i64,
    call: Seq<char>,
)
    requires
        ({
            let part = calling.member("properties"@).member("part"@);
            &&& part.str_at("sessionID"@) == Some(native_id)
            &&& part.str_at("type"@) == Some("tool"@)
            &&& part.str_at("tool"@) == Some("plan_exit"@)
            &&& part.str_at("callID"@) is Some
        }),
        calling.str_at("type"@) == Some("message.part.updated"@),
        asking.str_at("type"@) == Some("question.asked"@),
        asking.member("properties"@).str_at("sessionID"@) == Some(native_id),
        asking.member("properties"@).member("tool"@).str_at("callID"@) == Some(call),
        asking.member("properties"@).get("part"@) is None,
    ensures
        ({
            let noted = calling.member("properties"@).member("part"@).str_at("callID"@)->0;
            let (t1, s1, _) = stream_effect(t, s, native_id, calling, now);
            let (t2, s2, step) = stream_effect(t1, s1, native_id, asking, now);
            let props = asking.member("properties"@);
            &&& s1.exits == s.exits.insert(noted)
            &&& s2.exits == s1.exits
            &&& cards::question_prompt(props, s2.exits) matches Some(card) ==> t2 == surfaced(
                t1,
                card,
            ) && (card.plan_exit <==> call == noted || s.exits.contains(call))
        }),
{
    lemma_asked();
    reveal_strlit("message.part.updated");
    reveal_strlit("permission.asked");
    reveal_strlit("question.asked");
    assert("message.part.updated"@.len() != "permission.asked"@.len());
    assert("message.part.updated"@.len() != "question.asked"@.len());
}

/// An event that asks nothing does to the turn what events do, and one that
/// asks something changes nothing else of the stream.
pub proof fn other_events_reach_the_turn(
    t: TurnV,
    s: TurnStreamV,
    native_id: Seq<char>,
    event: JsonV,
    now: i64,
)
    ensures
        ({
            let (after, stream, step) = stream_effect(t, s, native_id, event, now);
            let asks = event.str_at("type"@) == Some("permission.asked"@) || event.str_at("type"@)
                == Some("question.asked"@);
            let here = event.member("properties"@).str_at("sessionID"@) == Some(native_id);
            let told = events::event_effect(
                StreamV { turn: t, assistant_msgs: s.assistant_msgs, sub_sessions: s.sub_sessions },
                native_id,
                event,
                now,
            );
            &&& step is NotConsumed <==> !(asks && here)
            &&& step is NotConsumed ==> after == told.turn && stream.assistant_msgs
                == told.assistant_msgs && stream.sub_sessions == told.sub_sessions
            &&& !(step is NotConsumed) ==> stream.assistant_msgs == s.assistant_msgs
                && stream.sub_sessions == s.sub_sessions
            &&& stream.buf == s.buf
            &&& s.exits.subset_of(stream.exits)
        }),
{
    lemma_asked();
}

/// How the reply ends a turn. Whatever it is, it shows that the message
/// arrived. An error ends the turn with what it says, as a failure that is not
/// tried again here; the transcript stays. A reply of this turn ends it well,
/// and no retry is shown any more.
pub proof fn replies_end_the_turn(t: TurnV, message: JsonV, started: i64)
    ensures
        ({
            let (after, error) = reply_effect(t, message, started);
            let said = cards::response_error(message);
            let current = message.member("info"@).member("time"@).i64_at("created"@) matches Some(
                created,
            ) && started <= created;
            &&& after.delivery == DeliveryState::Accepted
            &&& error is None <==> said is None && current
            &&& said matches Some(e) ==> error == Some(e) && after == (TurnV {
                delivery: DeliveryState::Accepted,
                native_retry_exhausted: true,
                failure: Some(FailureV { code: "opencode_terminal"@, message: e }),
                ..t
            })
            &&& said is None && !current ==> error is Some && after == (TurnV {
                delivery: DeliveryState::Accepted,
                retry: None,
                failure: Some(FailureV { code: "opencode_stale_response"@, message: error->0 }),
                ..t
            })
            &&& error is None ==> after == (TurnV {
                delivery: DeliveryState::Accepted,
                retry: None,
                parts: after.parts,
                ..t
            })
        }),
{
}

/// A reply of this turn puts its parts into the transcript, one after the
/// other: a reply with one more part does what the shorter one does, and then
/// puts that part in the place of the one with its id, which keeps what its
/// sub-agent said, or at the end.
pub proof fn replies_fill_the_transcript(
    t: TurnV,
    shorter: JsonV,
    message: JsonV,
    item: JsonV,
    started: i64,
)
    requires
        reply_effect(t, shorter, started).1 is None,
        reply_effect(t, message, started).1 is None,
        message.items_at("parts"@) == shorter.items_at("parts"@).push(item),
    ensures
        ({
            let before = reply_effect(t, shorter, started).0.parts;
            let after = reply_effect(t, message, started).0.parts;
            match cards::wire_part(item) {
                Some(part) => {
                    let i = turn::part_index(before, part.id);
                    &&& i < before.len() ==> after == before.update(
                        i,
                        PartV { children: before[i].children, ..part },
                    )
                    &&& i >= before.len() ==> after == before.push(part)
                },
                None => after == before,
            }
        }),
{
    let items = message.items_at("parts"@);
    assert(items.drop_last() =~= shorter.items_at("parts"@));
}

/// A stream that is read in two pieces, cut anywhere, gives the data that the
/// server sent, in order, and has read all of it.
pub proof fn cut_streams_read_back(all: Seq<Seq<char>>, a: Seq<char>, b: Seq<char>)
    requires
        forall|i: int| 0 <= i < all.len() ==> fits_a_line(#[trigger] all[i]),
        sent(all) == a + b,
    ensures
        ({
            let (first, kept) = fed(Seq::empty(), a);
            let (second, left) = fed(kept, b);
            &&& first + second == all
            &&& left == Seq::<char>::empty()
        }),
{
    let none = Seq::<char>::empty();
    pieces_carry_the_same_data(none, a, b);
    assert(none + (a + b) =~= sent(all) + none);
    sent_data_reads_back(all, none);
}

/// A card without a request of its own is shown under a name that counts the
/// parts before it.
pub proof fn nameless_cards_are_numbered(t: TurnV, card: PromptV)
    requires
        card.native_id is None,
    ensures
        ({
            let id = "prompt-"@ + text::decimal(t.parts.len());
            let parts = surfaced(t, card).parts;
            let i = turn::part_index(parts, id);
            &&& 0 <= i < parts.len()
            &&& parts[i].id == id
            &&& parts[i].prompt == Some(card)
            &&& surfaced(t, card).flush == Flush::Now
        }),
{
    let id = "prompt-"@ + text::decimal(t.parts.len());
    turn::upserted_part_is_found(t.parts, wire::prompt_part(id, card));
}

/// Data that is no document is ignored, and so is an event whose numbers are
/// too large, with the turn and the stream as they were; any other event is
/// dealt with.
pub proof fn only_events_are_dealt_with(
    t: TurnV,
    s: TurnStreamV,
    native_id: Seq<char>,
    event: JsonV,
    now: i64,
    r: DataStep,
    after: (TurnV, TurnStreamV),
)
    ensures
        data_effect(t, s, native_id, None, now, r, after) <==> r is Ignored && after == (t, s),
        events::in_range(native_id, event, now) ==> (data_effect(
            t,
            s,
            native_id,
            Some(event),
            now,
            r,
            after,
        ) ==> r is Done && after.0 == stream_effect(t, s, native_id, event, now).0 && after.1
            == stream_effect(t, s, native_id, event, now).1),
        !events::in_range(native_id, event, now) ==> (data_effect(
            t,
            s,
            native_id,
            Some(event),
            now,
            r,
            after,
        ) ==> r is OutOfRange && after == (t, s)),
{
}

} // verus!
