//! The agent's event stream: what each event does to the turn.

use vstd::prelude::*;

use crate::cards;
use crate::collections;
use crate::collections::{StrMap, StrSet};
use crate::json;
use crate::json::{Json, JsonV};
use crate::text;
use crate::turn;
use crate::turn::{RetryV, TurnCtx, TurnV};
use crate::wire;
use crate::wire::{ContextUsage, DeliveryState, PartV, WirePart};

verus! {

broadcast use {json::group_json, wire::lemma_children};

/// What a stream of events works on: the turn, the messages known to be the
/// assistant's, and which row each sub-agent session belongs to.
#[verifier::ext_equal]
pub struct StreamV {
    pub turn: TurnV,
    pub assistant_msgs: Set<Seq<char>>,
    pub sub_sessions: Seq<(Seq<char>, Seq<char>)>,
}

/// Timestamps above this are absolute, others are delays.
pub const ABSOLUTE_MS: i64 = 1_000_000_000_000;

// ---------------------------------------------------------------------------
// What each event does
// ---------------------------------------------------------------------------

/// The turn with its message known to be delivered.
pub open spec fn accepted(t: TurnV) -> TurnV {
    TurnV { delivery: DeliveryState::Accepted, ..t }
}

/// The turn with its transcript to be written out soon.
pub open spec fn flushing(t: TurnV) -> TurnV {
    TurnV { flush: turn::soon(t.flush), ..t }
}

/// The attempt that a retry status speaks of: the one after its own count.
pub open spec fn retry_attempt(status: JsonV) -> int {
    (match status.i64_at("attempt"@) {
        Some(n) => n as int,
        None => 1,
    }) + 1
}

/// When the next attempt is due.
pub open spec fn retry_due(status: JsonV, now: i64) -> Option<int> {
    match status.i64_at("next"@) {
        Some(next) => Some(
            if next > ABSOLUTE_MS {
                next as int
            } else {
                now + next
            },
        ),
        None => None,
    }
}

/// A status of this session: a retry is shown and proves that the message
/// arrived; any other status ends the retry, and only a busy one proves that.
pub open spec fn on_status(t: TurnV, native_id: Seq<char>, props: JsonV, now: i64) -> TurnV {
    let status = props.member("status"@);
    let kind = status.str_at("type"@);
    if props.str_at("sessionID"@) != Some(native_id) {
        t
    } else if kind == Some("retry"@) {
        TurnV {
            retry: Some(
                RetryV {
                    source: "native"@,
                    message: cards::text_or(status.str_at("message"@), "OpenCode is retrying"@),
                    attempt: retry_attempt(status) as i64,
                    max_attempts: None,
                    next_at_ms: match retry_due(status, now) {
                        Some(due) => Some(due as i64),
                        None => None,
                    },
                },
            ),
            ..accepted(t)
        }
    } else {
        TurnV {
            retry: None,
            ..if kind == Some("busy"@) {
                accepted(t)
            } else {
                t
            }
        }
    }
}

/// An error of this session proves that the message arrived; the agent may
/// still recover, so the turn goes on.
pub open spec fn on_error(t: TurnV, native_id: Seq<char>, props: JsonV) -> TurnV {
    if props.str_at("sessionID"@) == Some(native_id) {
        accepted(t)
    } else {
        t
    }
}

/// A session that this one started is linked to the newest free `task` row.
pub open spec fn on_created(s: StreamV, native_id: Seq<char>, props: JsonV) -> StreamV {
    let info = props.member("info"@);
    match (info.str_at("id"@), cards::newest_task(s.turn.parts, s.sub_sessions)) {
        (Some(child), Some(row)) => if info.str_at("parentID"@) == Some(native_id) {
            StreamV { sub_sessions: collections::put(s.sub_sessions, child, row), ..s }
        } else {
            s
        },
        _ => s,
    }
}

/// The message is the assistant's own, and not a summary of the context.
pub open spec fn is_reply(info: JsonV) -> bool {
    info.str_at("role"@) == Some("assistant"@) && info.bool_at("summary"@) != Some(true)
}

/// The session is one that a sub-agent of this turn runs in.
pub open spec fn is_sub(s: StreamV, session: Option<Seq<char>>) -> bool {
    match session {
        Some(id) => collections::lookup(s.sub_sessions, id) is Some,
        None => false,
    }
}

/// A message update: a user message of this session proves delivery, replies
/// of this session and its sub-agents are remembered, and the token counts of
/// this session's replies are reported.
pub open spec fn on_message(s: StreamV, native_id: Seq<char>, props: JsonV) -> StreamV {
    let info = props.member("info"@);
    let session = info.str_at("sessionID"@);
    let main = session == Some(native_id);
    let t1 = if main && info.str_at("role"@) == Some("user"@) {
        accepted(s.turn)
    } else {
        s.turn
    };
    let msgs = match info.str_at("id"@) {
        Some(id) => if (main || is_sub(s, session)) && is_reply(info) {
            s.assistant_msgs.insert(id)
        } else {
            s.assistant_msgs
        },
        None => s.assistant_msgs,
    };
    let used = cards::opt_token_total(info.get("tokens"@));
    let t2 = if main && is_reply(info) && used > 0 {
        TurnV {
            usage: Some(ContextUsage { used_tokens: used as u64, context_window: None }),
            ..t1
        }
    } else {
        t1
    };
    StreamV { turn: t2, assistant_msgs: msgs, sub_sessions: s.sub_sessions }
}

/// A message is known to be the assistant's.
pub open spec fn is_known(s: StreamV, message: Option<Seq<char>>) -> bool {
    match message {
        Some(id) => s.assistant_msgs.contains(id),
        None => false,
    }
}

/// The row that a sub-agent session streams into.
pub open spec fn row_of(s: StreamV, session: Option<Seq<char>>) -> Option<Seq<char>> {
    match session {
        Some(id) => collections::lookup(s.sub_sessions, id),
        None => None,
    }
}

/// The id under which a sub-agent's part stands in its row.
pub open spec fn nested_id(row: Seq<char>, id: Seq<char>) -> Seq<char> {
    row + ":"@ + id
}

/// A part of a reply: this session's go into the transcript, a sub-agent's
/// into the row it belongs to.
pub open spec fn on_part(s: StreamV, native_id: Seq<char>, props: JsonV) -> StreamV {
    let part = props.member("part"@);
    let session = part.str_at("sessionID"@);
    if !is_known(s, part.str_at("messageID"@)) {
        s
    } else {
        match (cards::wire_part(part), row_of(s, session)) {
            (Some(w), Some(row)) => StreamV {
                turn: flushing(
                    TurnV {
                        parts: turn::upsert_child(
                            s.turn.parts,
                            row,
                            PartV { id: nested_id(row, w.id), ..w },
                        ),
                        ..s.turn
                    },
                ),
                ..s
            },
            (Some(w), None) => if session == Some(native_id) {
                StreamV {
                    turn: flushing(TurnV { parts: turn::upsert(s.turn.parts, w), ..s.turn }),
                    ..s
                }
            } else {
                s
            },
            _ => s,
        }
    }
}

/// More text for a part of a reply, routed as the part itself is.
pub open spec fn on_delta(s: StreamV, native_id: Seq<char>, props: JsonV) -> StreamV {
    let session = props.str_at("sessionID"@);
    if props.str_at("field"@) != Some("text"@) || !is_known(s, props.str_at("messageID"@)) {
        s
    } else {
        match (props.str_at("partID"@), props.str_at("delta"@)) {
            (Some(id), Some(delta)) => match row_of(s, session) {
                Some(row) => StreamV {
                    turn: flushing(
                        TurnV {
                            parts: turn::append_child_text(
                                s.turn.parts,
                                row,
                                nested_id(row, id),
                                delta,
                            ),
                            ..s.turn
                        },
                    ),
                    ..s
                },
                None => if session == Some(native_id) {
                    StreamV {
                        turn: flushing(
                            TurnV {
                                parts: turn::append_text(s.turn.parts, id, delta),
                                ..s.turn
                            },
                        ),
                        ..s
                    }
                } else {
                    s
                },
            },
            _ => s,
        }
    }
}

/// The agent's own title for this session, unless it is the one that every
/// session starts with.
pub open spec fn on_session(t: TurnV, native_id: Seq<char>, props: JsonV) -> TurnV {
    let info = props.member("info"@);
    match info.str_at("title"@) {
        Some(title) => if info.str_at("id"@) == Some(native_id) && !cards::seed_title(title) {
            TurnV { title: Some(title), ..t }
        } else {
            t
        },
        None => t,
    }
}

/// What an event does.
pub open spec fn event_effect(
    s: StreamV,
    native_id: Seq<char>,
    event: JsonV,
    now: i64,
) -> StreamV {
    let props = event.member("properties"@);
    match event.str_at("type"@) {
        Some(kind) => if kind == "session.status"@ {
            StreamV { turn: on_status(s.turn, native_id, props, now), ..s }
        } else if kind == "session.error"@ {
            StreamV { turn: on_error(s.turn, native_id, props), ..s }
        } else if kind == "session.created"@ {
            on_created(s, native_id, props)
        } else if kind == "message.updated"@ {
            on_message(s, native_id, props)
        } else if kind == "message.part.updated"@ {
            on_part(s, native_id, props)
        } else if kind == "message.part.delta"@ {
            on_delta(s, native_id, props)
        } else if kind == "session.updated"@ {
            StreamV { turn: on_session(s.turn, native_id, props), ..s }
        } else {
            s
        },
        None => s,
    }
}

/// The numbers that the event brings in can be counted with: the attempt
/// after a retry's own, the time a delay ends, the sum of the tokens.
pub open spec fn in_range(native_id: Seq<char>, event: JsonV, now: i64) -> bool {
    let props = event.member("properties"@);
    let status = props.member("status"@);
    let info = props.member("info"@);
    &&& (event.str_at("type"@) == Some("session.status"@) && props.str_at("sessionID"@) == Some(
        native_id,
    ) && status.str_at("type"@) == Some("retry"@)) ==> {
        &&& retry_attempt(status) <= i64::MAX
        &&& retry_due(status, now) matches Some(due) ==> i64::MIN <= due <= i64::MAX
    }
    &&& (event.str_at("type"@) == Some("message.updated"@) && info.str_at("sessionID"@) == Some(
        native_id,
    ) && is_reply(info)) ==> cards::opt_token_total(info.get("tokens"@)) <= u64::MAX
}

// ---------------------------------------------------------------------------
// Doing it
// ---------------------------------------------------------------------------

/// The member under a key, or the given `null`.
pub fn member_or<'a>(doc: &'a Json, key: &str, null: &'a Json) -> (r: &'a Json)
    requires
        null@ is Null,
    ensures
        r@ == doc@.member(key@),
{
    match doc.get(key) {
        Some(v) => v,
        None => null,
    }
}

/// The numbers that the event brings in can be counted with.
pub fn event_in_range(native_id: &str, event: &Json, now: i64) -> (r: bool)
    ensures
        r == in_range(native_id@, event@, now),
{
    let null: Json = Json::Null;
    let props: &Json = member_or(event, "properties", &null);
    let status: &Json = member_or(props, "status", &null);
    let info: &Json = member_or(props, "info", &null);
    let retrying: bool = text::opt_is(event.str_at("type"), "session.status") && text::opt_is(
        props.str_at("sessionID"),
        native_id,
    ) && text::opt_is(status.str_at("type"), "retry");
    if retrying {
        match status.i64_at("attempt") {
            Some(n) => {
                if n == i64::MAX {
                    return false;
                }
            },
            None => {},
        }
        match status.i64_at("next") {
            Some(next) => {
                if next <= ABSOLUTE_MS {
                    let due: i128 = now as i128 + next as i128;
                    if due < i64::MIN as i128 || due > i64::MAX as i128 {
                        return false;
                    }
                }
            },
            None => {},
        }
    }
    let replying: bool = text::opt_is(event.str_at("type"), "message.updated") && text::opt_is(
        info.str_at("sessionID"),
        native_id,
    ) && reply(info);
    if replying {
        cards::tokens_in_range(info.get("tokens"))
    } else {
        true
    }
}

/// The message is the assistant's own, and not a summary of the context.
fn reply(info: &Json) -> (r: bool)
    ensures
        r == is_reply(info@),
{
    let summary: bool = match info.bool_at("summary") {
        Some(b) => b,
        None => false,
    };
    text::opt_is(info.str_at("role"), "assistant") && !summary
}

fn status_event(ctx: &mut TurnCtx, native_id: &str, props: &Json, now: i64)
    requires
        props@.str_at("sessionID"@) == Some(native_id@) && props@.member("status"@).str_at("type"@)
            == Some("retry"@) ==> retry_attempt(props@.member("status"@)) <= i64::MAX,
        props@.str_at("sessionID"@) == Some(native_id@) && props@.member("status"@).str_at("type"@)
            == Some("retry"@) ==> (retry_due(props@.member("status"@), now) matches Some(due)
            ==> i64::MIN <= due <= i64::MAX),
    ensures
        final(ctx)@ == on_status(old(ctx)@, native_id@, props@, now),
{
    if !text::opt_is(props.str_at("sessionID"), native_id) {
        return ;
    }
    let null: Json = Json::Null;
    let status: &Json = member_or(props, "status", &null);
    if text::opt_is(status.str_at("type"), "retry") {
        ctx.mark_delivery(DeliveryState::Accepted);
        let attempt: i64 = match status.i64_at("attempt") {
            Some(n) => n + 1,
            None => 2,
        };
        let next: Option<i64> = match status.i64_at("next") {
            Some(n) => Some(
                if n > ABSOLUTE_MS {
                    n
                } else {
                    now + n
                },
            ),
            None => None,
        };
        let message: String = cards::owned_or(status.text_at("message"), "OpenCode is retrying");
        ctx.show_retry_status("native", message.as_str(), attempt, None, next);
    } else {
        if text::opt_is(status.str_at("type"), "busy") {
            ctx.mark_delivery(DeliveryState::Accepted);
        }
        ctx.clear_retry_status();
    }
}

fn created_event(ctx: &TurnCtx, native_id: &str, props: &Json, sub_sessions: &mut StrMap)
    ensures
        forall|msgs: Set<Seq<char>>|
            (StreamV { turn: ctx@, assistant_msgs: msgs, sub_sessions: final(sub_sessions)@ })
                == #[trigger] on_created(
                StreamV { turn: ctx@, assistant_msgs: msgs, sub_sessions: old(sub_sessions)@ },
                native_id@,
                props@,
            ),
{
    let null: Json = Json::Null;
    let info: &Json = member_or(props, "info", &null);
    if text::opt_is(info.str_at("parentID"), native_id) {
        match info.str_at("id") {
            Some(child) => {
                match cards::newest_task_part_id(&ctx.assistant.parts, sub_sessions) {
                    Some(row) => {
                        sub_sessions.insert(child, row.as_str());
                    },
                    None => {},
                }
            },
            None => {},
        }
    }
}

fn message_event(
    ctx: &mut TurnCtx,
    native_id: &str,
    props: &Json,
    assistant_msgs: &mut StrSet,
    sub_sessions: &StrMap,
)
    requires
        props@.member("info"@).str_at("sessionID"@) == Some(native_id@) && is_reply(
            props@.member("info"@),
        ) ==> cards::opt_token_total(props@.member("info"@).get("tokens"@)) <= u64::MAX,
    ensures
        (StreamV {
            turn: final(ctx)@,
            assistant_msgs: final(assistant_msgs)@,
            sub_sessions: sub_sessions@,
        }) == on_message(
            StreamV {
                turn: old(ctx)@,
                assistant_msgs: old(assistant_msgs)@,
                sub_sessions: sub_sessions@,
            },
            native_id@,
            props@,
        ),
{
    let null: Json = Json::Null;
    let info: &Json = member_or(props, "info", &null);
    let session: Option<&str> = info.str_at("sessionID");
    let main: bool = text::opt_is(session, native_id);
    let is_assistant: bool = reply(info);
    if main && text::opt_is(info.str_at("role"), "user") {
        ctx.mark_delivery(DeliveryState::Accepted);
    }
    let sub: bool = match session {
        Some(s) => sub_sessions.get(s).is_some(),
        None => false,
    };
    if (main || sub) && is_assistant {
        match info.str_at("id") {
            Some(id) => {
                assistant_msgs.insert(id);
            },
            None => {},
        }
    }
    if main && is_assistant {
        match cards::opencode_used_tokens(info.get("tokens")) {
            Some(used) => {
                ctx.report_usage(ContextUsage { used_tokens: used, context_window: None });
            },
            None => {},
        }
    }
}

fn known(assistant_msgs: &StrSet, message: Option<&str>) -> (r: bool)
    ensures
        r == match message {
            Some(id) => assistant_msgs@.contains(id@),
            None => false,
        },
{
    match message {
        Some(id) => assistant_msgs.contains(id),
        None => false,
    }
}

fn owner_row(sub_sessions: &StrMap, session: Option<&str>) -> (r: Option<String>)
    ensures
        text::opt_text(r) == match session {
            Some(id) => collections::lookup(sub_sessions@, id@),
            None => None,
        },
{
    match session {
        Some(id) => text::opt_owned(sub_sessions.get(id)),
        None => None,
    }
}

fn part_event(
    ctx: &mut TurnCtx,
    native_id: &str,
    props: &Json,
    assistant_msgs: &StrSet,
    sub_sessions: &StrMap,
)
    ensures
        (StreamV {
            turn: final(ctx)@,
            assistant_msgs: assistant_msgs@,
            sub_sessions: sub_sessions@,
        }) == on_part(
            StreamV {
                turn: old(ctx)@,
                assistant_msgs: assistant_msgs@,
                sub_sessions: sub_sessions@,
            },
            native_id@,
            props@,
        ),
{
    let null: Json = Json::Null;
    let part: &Json = member_or(props, "part", &null);
    let session: Option<&str> = part.str_at("sessionID");
    let owned_by_assistant: bool = known(assistant_msgs, part.str_at("messageID"));
    match owner_row(sub_sessions, session) {
        Some(row) => {
            if owned_by_assistant {
                match cards::to_wire_part(part) {
                    Some(found) => {
                        let ghost w = found@;
                        let mut child: WirePart = found;
                        child.id = text::concat3(row.as_str(), ":", child.id.as_str());
                        assert(child@ =~= (PartV { id: nested_id(row@, w.id), ..w }));
                        ctx.upsert_child(row.as_str(), child);
                        ctx.maybe_flush();
                    },
                    None => {},
                }
            }
            return ;
        },
        None => {},
    }
    if !text::opt_is(session, native_id) || !owned_by_assistant {
        return ;
    }
    match cards::to_wire_part(part) {
        Some(found) => {
            ctx.upsert_part(found);
            ctx.maybe_flush();
        },
        None => {},
    }
}

fn delta_event(
    ctx: &mut TurnCtx,
    native_id: &str,
    props: &Json,
    assistant_msgs: &StrSet,
    sub_sessions: &StrMap,
)
    ensures
        (StreamV {
            turn: final(ctx)@,
            assistant_msgs: assistant_msgs@,
            sub_sessions: sub_sessions@,
        }) == on_delta(
            StreamV {
                turn: old(ctx)@,
                assistant_msgs: assistant_msgs@,
                sub_sessions: sub_sessions@,
            },
            native_id@,
            props@,
        ),
{
    if !text::opt_is(props.str_at("field"), "text") || !known(
        assistant_msgs,
        props.str_at("messageID"),
    ) {
        return ;
    }
    let session: Option<&str> = props.str_at("sessionID");
    let part_id: &str = match props.str_at("partID") {
        Some(id) => id,
        None => {
            return ;
        },
    };
    let delta: &str = match props.str_at("delta") {
        Some(delta) => delta,
        None => {
            return ;
        },
    };
    match owner_row(sub_sessions, session) {
        Some(row) => {
            let child_id: String = text::concat3(row.as_str(), ":", part_id);
            ctx.append_child_text(row.as_str(), child_id.as_str(), delta);
            ctx.maybe_flush();
            return ;
        },
        None => {},
    }
    if !text::opt_is(session, native_id) {
        return ;
    }
    ctx.append_part_text(part_id, delta);
    ctx.maybe_flush();
}

fn session_event(ctx: &mut TurnCtx, native_id: &str, props: &Json)
    ensures
        final(ctx)@ == on_session(old(ctx)@, native_id@, props@),
{
    let null: Json = Json::Null;
    let info: &Json = member_or(props, "info", &null);
    if text::opt_is(info.str_at("id"), native_id) {
        match info.str_at("title") {
            Some(title) => {
                if !cards::is_opencode_seed_title(title) {
                    ctx.set_title(title);
                }
            },
            None => {},
        }
    }
}

/// Take in one event of the agent's stream. `now` is the current time, from
/// which a retry's delay is counted.
pub fn handle_event(
    ctx: &mut TurnCtx,
    native_id: &str,
    event: &Json,
    assistant_msgs: &mut StrSet,
    sub_sessions: &mut StrMap,
    now: i64,
)
    requires
        in_range(native_id@, event@, now),
    ensures
        (StreamV {
            turn: final(ctx)@,
            assistant_msgs: final(assistant_msgs)@,
            sub_sessions: final(sub_sessions)@,
        }) == event_effect(
            StreamV {
                turn: old(ctx)@,
                assistant_msgs: old(assistant_msgs)@,
                sub_sessions: old(sub_sessions)@,
            },
            native_id@,
            event@,
            now,
        ),
{
    let null: Json = Json::Null;
    let props: &Json = member_or(event, "properties", &null);
    let kind: &str = match event.str_at("type") {
        Some(kind) => kind,
        None => {
            return ;
        },
    };
    if text::str_eq(kind, "session.status") {
        status_event(ctx, native_id, props, now);
    } else if text::str_eq(kind, "session.error") {
        if text::opt_is(props.str_at("sessionID"), native_id) {
            ctx.mark_delivery(DeliveryState::Accepted);
        }
    } else if text::str_eq(kind, "session.created") {
        created_event(ctx, native_id, props, sub_sessions);
        assert((StreamV {
            turn: ctx@,
            assistant_msgs: assistant_msgs@,
            sub_sessions: sub_sessions@,
        }) == on_created(
            StreamV {
                turn: ctx@,
                assistant_msgs: assistant_msgs@,
                sub_sessions: old(sub_sessions)@,
            },
            native_id@,
            props@,
        ));
    } else if text::str_eq(kind, "message.updated") {
        message_event(ctx, native_id, props, assistant_msgs, sub_sessions);
    } else if text::str_eq(kind, "message.part.updated") {
        part_event(ctx, native_id, props, assistant_msgs, sub_sessions);
    } else if text::str_eq(kind, "message.part.delta") {
        delta_event(ctx, native_id, props, assistant_msgs, sub_sessions);
    } else if text::str_eq(kind, "session.updated") {
        session_event(ctx, native_id, props);
    }
}

// ---------------------------------------------------------------------------
// Laws
// ---------------------------------------------------------------------------

/// The session that an event is about.
pub open spec fn event_session(event: JsonV) -> Option<Seq<char>> {
    let props = event.member("properties"@);
    match event.str_at("type"@) {
        Some(kind) => if kind == "session.status"@ || kind == "session.error"@ {
            props.str_at("sessionID"@)
        } else if kind == "session.created"@ {
            props.member("info"@).str_at("parentID"@)
        } else if kind == "message.updated"@ {
            props.member("info"@).str_at("sessionID"@)
        } else if kind == "message.part.updated"@ {
            props.member("part"@).str_at("sessionID"@)
        } else if kind == "message.part.delta"@ {
            props.str_at("sessionID"@)
        } else if kind == "session.updated"@ {
            props.member("info"@).str_at("id"@)
        } else {
            None
        },
        None => None,
    }
}

/// Two rows differ in their children at most.
pub open spec fn same_row(a: PartV, b: PartV) -> bool {
    a == (PartV { children: a.children, ..b })
}

/// The stream carries every session of the agent; events of a session that is
/// neither this one nor one of its sub-agents change nothing.
pub proof fn foreign_events_change_nothing(
    s: StreamV,
    native_id: Seq<char>,
    event: JsonV,
    now: i64,
)
    requires
        event_session(event) != Some(native_id),
        !is_sub(s, event_session(event)),
    ensures
        event_effect(s, native_id, event, now) == s,
{
}

/// A sub-agent streams into the children of its row and nowhere else: the
/// rows of the transcript, the delivery, the usage, the title and the retry
/// status stay as they are.
pub proof fn sub_agents_stay_in_their_row(
    s: StreamV,
    native_id: Seq<char>,
    event: JsonV,
    now: i64,
)
    requires
        event_session(event) != Some(native_id),
        is_sub(s, event_session(event)),
    ensures
        ({
            let after = event_effect(s, native_id, event, now);
            &&& after.turn == (TurnV {
                parts: after.turn.parts,
                flush: after.turn.flush,
                ..s.turn
            })
            &&& after.turn.parts.len() == s.turn.parts.len()
            &&& forall|i: int|
                0 <= i < s.turn.parts.len() && Some(s.turn.parts[i].id) != row_of(
                    s,
                    event_session(event),
                ) ==> #[trigger] after.turn.parts[i] == s.turn.parts[i]
            &&& forall|i: int|
                0 <= i < s.turn.parts.len() ==> same_row(
                    #[trigger] after.turn.parts[i],
                    s.turn.parts[i],
                )
            &&& after.sub_sessions == s.sub_sessions
        }),
{
    match row_of(s, event_session(event)) {
        Some(row) => {
            turn::lemma_part_index(s.turn.parts, row);
        },
        None => {},
    }
}

/// A title that every session starts with is never adopted.
pub proof fn seed_titles_are_never_adopted(
    s: StreamV,
    native_id: Seq<char>,
    event: JsonV,
    now: i64,
)
    ensures
        ({
            let after = event_effect(s, native_id, event, now).turn.title;
            after == s.turn.title || (after matches Some(title) && !cards::seed_title(title))
        }),
{
}

/// Parts and deltas of a message that is not known to be the assistant's, such
/// as the user's own or a summary of the context, never reach the transcript.
pub proof fn unknown_messages_stay_hidden(
    s: StreamV,
    native_id: Seq<char>,
    event: JsonV,
    now: i64,
)
    requires
        event.str_at("type"@) == Some("message.part.updated"@) ==> !is_known(
            s,
            event.member("properties"@).member("part"@).str_at("messageID"@),
        ),
        event.str_at("type"@) == Some("message.part.delta"@) ==> !is_known(
            s,
            event.member("properties"@).str_at("messageID"@),
        ),
    ensures
        event_effect(s, native_id, event, now).turn.parts == s.turn.parts,
{
}

/// A message becomes known as the assistant's only by an update that names it
/// as a reply; a summary of the context never does.
pub proof fn only_replies_become_known(s: StreamV, native_id: Seq<char>, event: JsonV, now: i64)
    ensures
        ({
            let after = event_effect(s, native_id, event, now);
            let info = event.member("properties"@).member("info"@);
            &&& s.assistant_msgs.subset_of(after.assistant_msgs)
            &&& forall|id: Seq<char>|
                #[trigger] after.assistant_msgs.contains(id) && !s.assistant_msgs.contains(id)
                    ==> is_reply(info) && info.str_at("id"@) == Some(id)
        }),
{
}

/// No event ends the turn: an error that the agent may still recover from
/// leaves no failure behind.
pub proof fn events_never_end_the_turn(s: StreamV, native_id: Seq<char>, event: JsonV, now: i64)
    ensures
        event_effect(s, native_id, event, now).turn.failure == s.turn.failure,
        event_effect(s, native_id, event, now).turn.errors == s.turn.errors,
        event_effect(s, native_id, event, now).turn.native_retry_exhausted
            == s.turn.native_retry_exhausted,
{
}

/// Every child session has a row of its own.
pub open spec fn rows_unshared(pairs: Seq<(Seq<char>, Seq<char>)>) -> bool {
    forall|i: int, j: int|
        0 <= i < j < pairs.len() ==> (#[trigger] pairs[i]).1 != (#[trigger] pairs[j]).1
}

/// Linking a child session to a free row keeps the rows unshared, and a
/// session that was linked stays linked.
pub proof fn rows_stay_unshared(s: StreamV, native_id: Seq<char>, event: JsonV, now: i64)
    requires
        rows_unshared(s.sub_sessions),
    ensures
        rows_unshared(event_effect(s, native_id, event, now).sub_sessions),
        forall|id: Seq<char>|
            #[trigger] collections::lookup(s.sub_sessions, id) is Some ==> collections::lookup(
                event_effect(s, native_id, event, now).sub_sessions,
                id,
            ) is Some,
{
    let after = event_effect(s, native_id, event, now);
    let info = event.member("properties"@).member("info"@);
    if after.sub_sessions != s.sub_sessions {
        let child = info.str_at("id"@)->0;
        let row = cards::newest_task(s.turn.parts, s.sub_sessions)->0;
        cards::newest_task_is_free(s.turn.parts, s.sub_sessions);
        assert(!collections::has_value(s.sub_sessions, row));
        lemma_put_unshared(s.sub_sessions, child, row);
        assert forall|id: Seq<char>| #[trigger]
            collections::lookup(s.sub_sessions, id) is Some implies collections::lookup(
            after.sub_sessions,
            id,
        ) is Some by {
            collections::lookup_after_put(s.sub_sessions, child, row, id);
        }
    }
}

proof fn lemma_put_unshared(pairs: Seq<(Seq<char>, Seq<char>)>, key: Seq<char>, row: Seq<char>)
    requires
        rows_unshared(pairs),
        !collections::has_value(pairs, row),
    ensures
        rows_unshared(collections::put(pairs, key, row)),
        forall|i: int|
            0 <= i < collections::put(pairs, key, row).len() ==> {
                ||| (#[trigger] collections::put(pairs, key, row)[i]).1 == row
                ||| i < pairs.len() && collections::put(pairs, key, row)[i].1 == pairs[i].1
            },
        collections::put(pairs, key, row).len() <= pairs.len() + 1,
        collections::lookup(pairs, key) is Some ==> collections::put(pairs, key, row).len()
            == pairs.len(),
    decreases pairs.len(),
{
    let after = collections::put(pairs, key, row);
    if pairs.len() == 0 {
    } else if collections::lookup(pairs, key) is None {
        assert forall|i: int, j: int| 0 <= i < j < after.len() implies (#[trigger] after[i]).1 != (
        #[trigger] after[j]).1 by {
            assert(pairs[i].1 != row);
            if j < pairs.len() {
                assert(pairs[i].1 != pairs[j].1);
            }
        }
    } else if pairs.last().0 == key {
        assert forall|i: int, j: int| 0 <= i < j < after.len() implies (#[trigger] after[i]).1 != (
        #[trigger] after[j]).1 by {
            assert(pairs[i].1 != row);
            if j < pairs.len() - 1 {
                assert(pairs[i].1 != pairs[j].1);
            }
        }
    } else {
        let init = pairs.drop_last();
        assert forall|i: int, j: int| 0 <= i < j < init.len() implies (#[trigger] init[i]).1 != (
        #[trigger] init[j]).1 by {
            assert(pairs[i].1 != pairs[j].1);
        }
        assert(!collections::has_value(init, row)) by {
            if collections::has_value(init, row) {
                let i = choose|i: int| 0 <= i < init.len() && (#[trigger] init[i]).1 == row;
                assert(pairs[i].1 == row);
            }
        }
        lemma_put_unshared(init, key, row);
        let head = collections::put(init, key, row);
        assert(pairs[pairs.len() - 1].1 != row);
        assert forall|i: int, j: int| 0 <= i < j < after.len() implies (#[trigger] after[i]).1 != (
        #[trigger] after[j]).1 by {
            assert(after[i] == head[i]);
            if j < head.len() {
                assert(after[j] == head[j]);
            } else {
                if head[i].1 != row {
                    assert(pairs[i].1 != pairs[pairs.len() - 1].1);
                }
            }
        }
        assert forall|i: int| 0 <= i < after.len() implies (#[trigger] after[i]).1 == row || (i
            < pairs.len() && after[i].1 == pairs[i].1) by {
            if i < head.len() {
                assert(after[i] == head[i]);
            }
        }
    }
}

// ---------------------------------------------------------------------------
// What each event is for
// ---------------------------------------------------------------------------

/// The kinds of events are told apart by their names.
proof fn lemma_kinds()
    ensures
        "session.status"@ != "session.error"@,
        "session.status"@ != "session.created"@,
        "session.status"@ != "message.updated"@,
        "session.status"@ != "message.part.updated"@,
        "session.status"@ != "message.part.delta"@,
        "session.status"@ != "session.updated"@,
        "session.error"@ != "session.created"@,
        "session.error"@ != "message.updated"@,
        "session.error"@ != "message.part.updated"@,
        "session.error"@ != "message.part.delta"@,
        "session.error"@ != "session.updated"@,
        "session.created"@ != "message.updated"@,
        "session.created"@ != "message.part.updated"@,
        "session.created"@ != "message.part.delta"@,
        "session.created"@ != "session.updated"@,
        "message.updated"@ != "message.part.updated"@,
        "message.updated"@ != "message.part.delta"@,
        "message.updated"@ != "session.updated"@,
        "message.part.updated"@ != "message.part.delta"@,
        "message.part.updated"@ != "session.updated"@,
        "message.part.delta"@ != "session.updated"@,
{
    reveal_strlit("session.status");
    reveal_strlit("session.error");
    reveal_strlit("session.created");
    reveal_strlit("message.updated");
    reveal_strlit("message.part.updated");
    reveal_strlit("message.part.delta");
    reveal_strlit("session.updated");
    assert("session.status"@.len() != "session.error"@.len());
    assert("session.status"@.len() != "session.created"@.len());
    assert("session.status"@.len() != "message.updated"@.len());
    assert("session.status"@.len() != "message.part.updated"@.len());
    assert("session.status"@.len() != "message.part.delta"@.len());
    assert("session.status"@.len() != "session.updated"@.len());
    assert("session.error"@.len() != "session.created"@.len());
    assert("session.error"@.len() != "message.updated"@.len());
    assert("session.error"@.len() != "message.part.updated"@.len());
    assert("session.error"@.len() != "message.part.delta"@.len());
    assert("session.error"@.len() != "session.updated"@.len());
    assert("session.created"@[0] != "message.updated"@[0]);
    assert("session.created"@.len() != "message.part.updated"@.len());
    assert("session.created"@.len() != "message.part.delta"@.len());
    assert("session.created"@[8] != "session.updated"@[8]);
    assert("message.updated"@.len() != "message.part.updated"@.len());
    assert("message.updated"@.len() != "message.part.delta"@.len());
    assert("message.updated"@[0] != "session.updated"@[0]);
    assert("message.part.updated"@.len() != "message.part.delta"@.len());
    assert("message.part.updated"@.len() != "session.updated"@.len());
    assert("message.part.delta"@.len() != "session.updated"@.len());
}

/// A retry of this session is shown to the user: what the agent says of it,
/// the attempt behind the one it counts, and when that is due. A due time that
/// is no timestamp is counted from now. The message has arrived.
pub proof fn retries_are_shown(s: StreamV, native_id: Seq<char>, event: JsonV, now: i64)
    requires
        in_range(native_id, event, now),
        event.str_at("type"@) == Some("session.status"@),
        event.member("properties"@).str_at("sessionID"@) == Some(native_id),
        event.member("properties"@).member("status"@).str_at("type"@) == Some("retry"@),
    ensures
        ({
            let status = event.member("properties"@).member("status"@);
            let after = event_effect(s, native_id, event, now);
            &&& after.turn.retry matches Some(shown) && {
                &&& shown.source == "native"@
                &&& shown.max_attempts is None
                &&& status.str_at("message"@) matches Some(m) ==> shown.message == m
                &&& status.str_at("message"@) is None ==> shown.message == "OpenCode is retrying"@
                &&& status.i64_at("attempt"@) matches Some(n) ==> shown.attempt == n + 1
                &&& status.i64_at("attempt"@) is None ==> shown.attempt == 2
                &&& status.i64_at("next"@) is None ==> shown.next_at_ms is None
                &&& status.i64_at("next"@) matches Some(n) ==> (shown.next_at_ms matches Some(due)
                    && due == (if n > 1_000_000_000_000 {
                    n as int
                } else {
                    now + n
                }))
            }
            &&& after.turn == (TurnV {
                delivery: DeliveryState::Accepted,
                retry: after.turn.retry,
                ..s.turn
            })
            &&& after.assistant_msgs == s.assistant_msgs && after.sub_sessions == s.sub_sessions
        }),
{
    lemma_kinds();
}

/// Any other status of this session ends the retry that is shown; only that it
/// is busy shows that the message has arrived.
pub proof fn other_statuses_end_the_retry(s: StreamV, native_id: Seq<char>, event: JsonV, now: i64)
    requires
        event.str_at("type"@) == Some("session.status"@),
        event.member("properties"@).str_at("sessionID"@) == Some(native_id),
        event.member("properties"@).member("status"@).str_at("type"@) != Some("retry"@),
    ensures
        ({
            let kind = event.member("properties"@).member("status"@).str_at("type"@);
            let after = event_effect(s, native_id, event, now);
            &&& kind == Some("busy"@) ==> after.turn == (TurnV {
                delivery: DeliveryState::Accepted,
                retry: None,
                ..s.turn
            })
            &&& kind != Some("busy"@) ==> after.turn == (TurnV { retry: None, ..s.turn })
        }),
{
    lemma_kinds();
}

/// The message has arrived once the session reports an error, or the message
/// itself comes back as the user's; neither changes the transcript.
pub proof fn arrivals_are_noted(s: StreamV, native_id: Seq<char>, event: JsonV, now: i64)
    requires
        ({
            let props = event.member("properties"@);
            ||| event.str_at("type"@) == Some("session.error"@) && props.str_at("sessionID"@)
                == Some(native_id)
            ||| event.str_at("type"@) == Some("message.updated"@) && props.member("info"@).str_at(
                "sessionID"@,
            ) == Some(native_id) && props.member("info"@).str_at("role"@) == Some("user"@)
        }),
    ensures
        event_effect(s, native_id, event, now) == (StreamV {
            turn: TurnV { delivery: DeliveryState::Accepted, ..s.turn },
            ..s
        }),
{
    lemma_kinds();
    reveal_strlit("user");
    reveal_strlit("assistant");
    assert("user"@.len() != "assistant"@.len());
}

/// A session that this one started is linked to the last `task` row that no
/// other session is linked to.
pub proof fn started_sessions_get_the_newest_free_row(
    s: StreamV,
    native_id: Seq<char>,
    event: JsonV,
    now: i64,
    child: Seq<char>,
    i: int,
)
    requires
        event.str_at("type"@) == Some("session.created"@),
        event.member("properties"@).member("info"@).str_at("parentID"@) == Some(native_id),
        event.member("properties"@).member("info"@).str_at("id"@) == Some(child),
        0 <= i < s.turn.parts.len(),
        s.turn.parts[i].tool == Some("task"@),
        forall|k: int|
            0 <= k < s.sub_sessions.len() ==> (#[trigger] s.sub_sessions[k]).1
                != s.turn.parts[i].id,
        forall|j: int|
            i < j < s.turn.parts.len() ==> (#[trigger] s.turn.parts[j]).tool != Some("task"@)
                || collections::has_value(s.sub_sessions, s.turn.parts[j].id),
    ensures
        collections::lookup(event_effect(s, native_id, event, now).sub_sessions, child) == Some(
            s.turn.parts[i].id,
        ),
        event_effect(s, native_id, event, now).turn == s.turn,
{
    lemma_kinds();
    let parts = s.turn.parts;
    let row = parts[i].id;
    assert(!collections::has_value(s.sub_sessions, row)) by {
        if collections::has_value(s.sub_sessions, row) {
            let k = choose|k: int|
                0 <= k < s.sub_sessions.len() && (#[trigger] s.sub_sessions[k]).1 == row;
            assert(s.sub_sessions[k].1 != row);
        }
    }
    cards::newest_task_is_free(parts, s.sub_sessions);
    let found = cards::newest_task(parts, s.sub_sessions);
    assert(cards::free_task(parts[i], s.sub_sessions));
    assert(found is Some);
    let k = choose|k: int|
        0 <= k < parts.len() && (#[trigger] parts[k]).id == found->0 && cards::free_task(
            parts[k],
            s.sub_sessions,
        ) && forall|j: int|
            k < j < parts.len() ==> !cards::free_task(#[trigger] parts[j], s.sub_sessions);
    if k < i {
        assert(!cards::free_task(parts[i], s.sub_sessions));
    }
    if i < k {
        assert(!cards::free_task(parts[k], s.sub_sessions));
    }
    collections::lookup_after_put(s.sub_sessions, child, row, child);
}

/// A reply of this session or of one of its sub-agents becomes known by its
/// id, so that its parts are shown.
pub proof fn replies_become_known(
    s: StreamV,
    native_id: Seq<char>,
    event: JsonV,
    now: i64,
    session: Seq<char>,
    id: Seq<char>,
)
    requires
        event.str_at("type"@) == Some("message.updated"@),
        event.member("properties"@).member("info"@).str_at("sessionID"@) == Some(session),
        session == native_id || collections::lookup(s.sub_sessions, session) is Some,
        event.member("properties"@).member("info"@).str_at("role"@) == Some("assistant"@),
        event.member("properties"@).member("info"@).bool_at("summary"@) != Some(true),
        event.member("properties"@).member("info"@).str_at("id"@) == Some(id),
    ensures
        event_effect(s, native_id, event, now).assistant_msgs == s.assistant_msgs.insert(id),
{
    lemma_kinds();
}

/// The tokens of a reply of this session, all five counts together, are what
/// the context meter shows; a reply that counts none changes nothing, and
/// neither does one of a sub-agent.
pub proof fn token_counts_are_added_up(
    s: StreamV,
    native_id: Seq<char>,
    event: JsonV,
    now: i64,
    tokens: JsonV,
)
    requires
        in_range(native_id, event, now),
        event.str_at("type"@) == Some("message.updated"@),
        event.member("properties"@).member("info"@).str_at("role"@) == Some("assistant"@),
        event.member("properties"@).member("info"@).bool_at("summary"@) != Some(true),
        event.member("properties"@).member("info"@).get("tokens"@) == Some(tokens),
    ensures
        ({
            let info = event.member("properties"@).member("info"@);
            let after = event_effect(s, native_id, event, now);
            let count = |doc: JsonV, key: Seq<char>|
                match doc.u64_at(key) {
                    Some(n) => n as int,
                    None => 0,
                };
            let cache = tokens.member("cache"@);
            let sum = count(tokens, "input"@) + count(tokens, "output"@) + count(
                tokens,
                "reasoning"@,
            ) + count(cache, "read"@) + count(cache, "write"@);
            &&& info.str_at("sessionID"@) == Some(native_id) && sum > 0 ==> (after.turn.usage
                matches Some(u) && u.used_tokens == sum && u.context_window is None)
            &&& info.str_at("sessionID"@) != Some(native_id) || sum == 0 ==> after.turn.usage
                == s.turn.usage
        }),
{
    lemma_kinds();
}

/// A part of a known reply of this session is in the transcript afterwards,
/// under its id and with what the event says of it: the text of text and of
/// reasoning, the tool and the state of a tool call.
pub proof fn parts_reach_the_transcript(
    s: StreamV,
    native_id: Seq<char>,
    event: JsonV,
    now: i64,
    id: Seq<char>,
    message: Seq<char>,
)
    requires
        event.str_at("type"@) == Some("message.part.updated"@),
        event.member("properties"@).member("part"@).str_at("sessionID"@) == Some(native_id),
        collections::lookup(s.sub_sessions, native_id) is None,
        event.member("properties"@).member("part"@).str_at("messageID"@) == Some(message),
        s.assistant_msgs.contains(message),
        event.member("properties"@).member("part"@).str_at("id"@) == Some(id),
        ({
            let kind = event.member("properties"@).member("part"@).str_at("type"@);
            kind == Some("text"@) || kind == Some("reasoning"@) || kind == Some("tool"@)
        }),
    ensures
        ({
            let part = event.member("properties"@).member("part"@);
            let after = event_effect(s, native_id, event, now).turn;
            let i = turn::part_index(s.turn.parts, id);
            let shown = after.parts[i];
            &&& 0 <= i < after.parts.len()
            &&& after.parts.len() == s.turn.parts.len() + (if i < s.turn.parts.len() {
                0int
            } else {
                1
            })
            &&& forall|j: int|
                0 <= j < s.turn.parts.len() && j != i ==> #[trigger] after.parts[j]
                    == s.turn.parts[j]
            &&& shown.id == id && Some(shown.kind) == part.str_at("type"@)
            &&& shown.prompt is None && shown.children.len() == 0
            &&& shown.kind == "tool"@ ==> {
                &&& shown.text is None
                &&& shown.tool == part.str_at("tool"@)
                &&& shown.state matches Some(state) && state_told(part.member("state"@), state)
            }
            &&& shown.kind != "tool"@ ==> shown.text == part.str_at("text"@) && shown.tool is None
                && shown.state is None
            &&& after.flush != turn::Flush::No
            &&& after == (TurnV { parts: after.parts, flush: after.flush, ..s.turn })
        }),
{
    lemma_kinds();
    let part = event.member("properties"@).member("part"@);
    turn::lemma_part_index(s.turn.parts, id);
    reveal_strlit("text");
    reveal_strlit("reasoning");
    reveal_strlit("tool");
    assert("text"@[1] != "tool"@[1]);
    assert("reasoning"@.len() != "tool"@.len());
}

/// The state of a tool call is what the document says of it; one without a
/// status is running.
pub open spec fn state_told(doc: JsonV, state: wire::ToolStateV) -> bool {
    &&& doc.str_at("status"@) matches Some(status) ==> state.status == status
    &&& doc.str_at("status"@) is None ==> state.status == "running"@
    &&& state.input == doc.get("input"@)
    &&& state.output == doc.str_at("output"@)
    &&& state.error == doc.str_at("error"@)
    &&& state.title == doc.str_at("title"@)
}

/// An event that brings more text for a part of a reply.
pub open spec fn is_delta(
    event: JsonV,
    session: Seq<char>,
    message: Seq<char>,
    id: Seq<char>,
    delta: Seq<char>,
) -> bool {
    let props = event.member("properties"@);
    &&& event.str_at("type"@) == Some("message.part.delta"@)
    &&& props.str_at("sessionID"@) == Some(session)
    &&& props.str_at("messageID"@) == Some(message)
    &&& props.str_at("partID"@) == Some(id)
    &&& props.str_at("field"@) == Some("text"@)
    &&& props.str_at("delta"@) == Some(delta)
}

/// What a number of events does, one after the other.
pub open spec fn events_effect(
    s: StreamV,
    native_id: Seq<char>,
    events: Seq<JsonV>,
    now: i64,
) -> StreamV
    decreases events.len(),
{
    if events.len() == 0 {
        s
    } else {
        event_effect(events_effect(s, native_id, events.drop_last(), now), native_id, events.last(), now)
    }
}

/// A reply that streams in reads in the order in which its pieces came: a part
/// that was not there has all of them, one behind the other, and no other part
/// changes.
pub proof fn streamed_replies_read_in_order(
    s: StreamV,
    native_id: Seq<char>,
    message: Seq<char>,
    id: Seq<char>,
    events: Seq<JsonV>,
    pieces: Seq<Seq<char>>,
    now: i64,
)
    requires
        collections::lookup(s.sub_sessions, native_id) is None,
        s.assistant_msgs.contains(message),
        turn::stands_nowhere(s.turn.parts, id),
        0 < events.len() == pieces.len(),
        forall|k: int|
            0 <= k < events.len() ==> is_delta(
                #[trigger] events[k],
                native_id,
                message,
                id,
                pieces[k],
            ),
    ensures
        ({
            let after = events_effect(s, native_id, events, now).turn.parts;
            &&& after.len() == s.turn.parts.len() + 1
            &&& after.drop_last() == s.turn.parts
            &&& after.last().id == id && after.last().text == Some(pieces.flatten())
        }),
{
    lemma_deltas(s, native_id, message, id, events, pieces, now);
    turn::streamed_pieces_read_in_order(s.turn.parts, id, pieces);
}

proof fn lemma_deltas(
    s: StreamV,
    native_id: Seq<char>,
    message: Seq<char>,
    id: Seq<char>,
    events: Seq<JsonV>,
    pieces: Seq<Seq<char>>,
    now: i64,
)
    requires
        collections::lookup(s.sub_sessions, native_id) is None,
        s.assistant_msgs.contains(message),
        events.len() == pieces.len(),
        forall|k: int|
            0 <= k < events.len() ==> is_delta(
                #[trigger] events[k],
                native_id,
                message,
                id,
                pieces[k],
            ),
    ensures
        ({
            let after = events_effect(s, native_id, events, now);
            &&& after.turn.parts == turn::streamed(s.turn.parts, id, pieces)
            &&& after.assistant_msgs == s.assistant_msgs
            &&& after.sub_sessions == s.sub_sessions
        }),
    decreases events.len(),
{
    lemma_kinds();
    if events.len() > 0 {
        let init = events.drop_last();
        assert forall|k: int| 0 <= k < init.len() implies is_delta(
            #[trigger] init[k],
            native_id,
            message,
            id,
            pieces.drop_last()[k],
        ) by {
            assert(init[k] == events[k]);
            assert(pieces.drop_last()[k] == pieces[k]);
        }
        lemma_deltas(s, native_id, message, id, init, pieces.drop_last(), now);
        let last = events.len() - 1;
        assert(is_delta(events[last], native_id, message, id, pieces[last]));
    }
}

/// What a sub-agent reports stands among the children of its row, under an id
/// that begins with the row's; what it streams goes behind the text of that
/// child.
pub proof fn sub_agents_stream_into_their_row(
    s: StreamV,
    native_id: Seq<char>,
    event: JsonV,
    now: i64,
    session: Seq<char>,
    message: Seq<char>,
    i: int,
)
    requires
        0 <= i < s.turn.parts.len(),
        turn::stands_at(s.turn.parts, s.turn.parts[i].id, i),
        collections::lookup(s.sub_sessions, session) == Some(s.turn.parts[i].id),
        s.assistant_msgs.contains(message),
    ensures
        ({
            let part = event.member("properties"@).member("part"@);
            let row = s.turn.parts[i];
            let after = event_effect(s, native_id, event, now).turn.parts;
            event.str_at("type"@) == Some("message.part.updated"@) && part.str_at("sessionID"@)
                == Some(session) && part.str_at("messageID"@) == Some(message) ==> (
            cards::wire_part(part) matches Some(w) ==> after == s.turn.parts.update(
                i,
                PartV {
                    children: turn::upsert(
                        row.children,
                        PartV { id: row.id + ":"@ + w.id, ..w },
                    ),
                    ..row
                },
            ))
        }),
        forall|id: Seq<char>, delta: Seq<char>|
            #[trigger] is_delta(event, session, message, id, delta) ==> ({
                let row = s.turn.parts[i];
                event_effect(s, native_id, event, now).turn.parts == s.turn.parts.update(
                    i,
                    PartV {
                        children: turn::append_text(row.children, row.id + ":"@ + id, delta),
                        ..row
                    },
                )
            }),
{
    lemma_kinds();
    let row = s.turn.parts[i];
    assert forall|id: Seq<char>, delta: Seq<char>|
        #[trigger] is_delta(event, session, message, id, delta) implies event_effect(
        s,
        native_id,
        event,
        now,
    ).turn.parts == s.turn.parts.update(
        i,
        PartV {
            children: turn::append_text(row.children, row.id + ":"@ + id, delta),
            ..row
        },
    ) by {
        turn::children_grow_like_transcripts(
            s.turn.parts,
            row.id,
            row,
            row.id + ":"@ + id,
            delta,
            i,
        );
    }
    let part = event.member("properties"@).member("part"@);
    match cards::wire_part(part) {
        Some(w) => {
            turn::children_grow_like_transcripts(
                s.turn.parts,
                row.id,
                PartV { id: row.id + ":"@ + w.id, ..w },
                row.id,
                row.id,
                i,
            );
        },
        None => {},
    }
}

/// A title of this session is adopted, unless it is the one that every session
/// starts with.
pub proof fn titles_are_adopted(
    s: StreamV,
    native_id: Seq<char>,
    event: JsonV,
    now: i64,
    title: Seq<char>,
)
    requires
        event.str_at("type"@) == Some("session.updated"@),
        event.member("properties"@).member("info"@).str_at("id"@) == Some(native_id),
        event.member("properties"@).member("info"@).str_at("title"@) == Some(title),
        !text::starts_with(text::trim_start(title), "New session - "@),
    ensures
        event_effect(s, native_id, event, now) == (StreamV {
            turn: TurnV { title: Some(title), ..s.turn },
            ..s
        }),
{
    lemma_kinds();
}

/// Only numbers that cannot be counted with are too large: every event that
/// brings none in is dealt with, and so is a retry whose attempt and time fit,
/// and a message whose tokens do.
pub proof fn countable_events_are_dealt_with(native_id: Seq<char>, event: JsonV, now: i64)
    ensures
        ({
            let kind = event.str_at("type"@);
            let props = event.member("properties"@);
            let status = props.member("status"@);
            let tokens = props.member("info"@).member("tokens"@);
            let cache = tokens.member("cache"@);
            let count = |doc: JsonV, key: Seq<char>|
                match doc.u64_at(key) {
                    Some(n) => n as int,
                    None => 0,
                };
            let sum = count(tokens, "input"@) + count(tokens, "output"@) + count(
                tokens,
                "reasoning"@,
            ) + count(cache, "read"@) + count(cache, "write"@);
            let deals = in_range(native_id, event, now);
            &&& kind != Some("session.status"@) && kind != Some("message.updated"@) ==> deals
            &&& kind == Some("session.status"@) && status.str_at("type"@) != Some("retry"@)
                ==> deals
            &&& kind == Some("session.status"@) && (status.i64_at("attempt"@) matches Some(n) ==> n
                < i64::MAX) && (status.i64_at("next"@) matches Some(n) ==> now + n <= i64::MAX
                && i64::MIN <= now + n) ==> deals
            &&& kind == Some("message.updated"@) && sum <= u64::MAX ==> deals
        }),
{
    lemma_kinds();
}

} // verus!
