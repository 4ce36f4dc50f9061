//! The session export of a second-generation agent: its messages as
//! transcript parts, and how a turn ends.

use vstd::prelude::*;

use crate::cards;
use crate::document;
use crate::json;
use crate::json::{Json, JsonV};
use crate::native;
use crate::text;
use crate::turn;
use crate::turn::{FailureV, TurnCtx, TurnV};
use crate::wire;
use crate::wire::{ContextUsage, PartV, ToolStateV, WirePart, WireToolState};

verus! {

broadcast use {json::group_json, wire::lemma_children};

// ---------------------------------------------------------------------------
// Envelopes and numbers
// ---------------------------------------------------------------------------

/// The items of a list answer: under `data`, or the document itself.
pub open spec fn listed_items(value: JsonV) -> Seq<JsonV> {
    match value.array_at("data"@) {
        Some(items) => items,
        None => match value.as_array() {
            Some(items) => items,
            None => Seq::empty(),
        },
    }
}

/// The models of a vector of references.
pub open spec fn ref_models(v: Seq<&Json>) -> Seq<JsonV> {
    Seq::new(v.len(), |i: int| v[i]@)
}

/// The items of a list answer.
pub fn data_array<'a>(value: &'a Json) -> (r: Vec<&'a Json>)
    ensures
        ref_models(r@) == listed_items(value@),
{
    let items: Option<&Vec<Json>> = match value.array_at("data") {
        Some(items) => Some(items),
        None => value.as_array(),
    };
    let mut out: Vec<&Json> = Vec::new();
    match items {
        Some(list) => {
            let mut i: usize = 0;
            while i < list.len()
                invariant
                    i <= list@.len(),
                    ref_models(out@) == json::models(list@).take(i as int),
                decreases list@.len() - i,
            {
                let ghost before = ref_models(out@);
                let item: &Json = &list[i];
                out.push(item);
                assert(ref_models(out@) =~= before.push(item@));
                i += 1;
                assert(ref_models(out@) =~= json::models(list@).take(i as int));
            }
            assert(json::models(list@).take(i as int) =~= json::models(list@));
        },
        None => {
            assert(ref_models(out@) =~= Seq::empty());
        },
    }
    out
}

/// The messages of a session export.
pub open spec fn exported(body: JsonV) -> Seq<JsonV> {
    body.member("data"@).items_at("messages"@)
}

/// The messages of a session export.
pub fn export_messages(body: &Json) -> (r: Vec<Json>)
    ensures
        json::models(r@) == exported(body@),
{
    let found: Option<&Vec<Json>> = match body.get("data") {
        Some(data) => data.array_at("messages"),
        None => None,
    };
    match found {
        Some(list) => document::copy_items(list),
        None => {
            let out: Vec<Json> = Vec::new();
            assert(json::models(out@) =~= Seq::empty());
            out
        },
    }
}

/// The title of an exported session.
pub open spec fn exported_title(body: JsonV) -> Option<Seq<char>> {
    body.member("data"@).member("info"@).str_at("title"@)
}

/// The title of an exported session.
pub fn export_title(body: &Json) -> (r: Option<&str>)
    ensures
        text::opt_str(r) == exported_title(body@),
{
    match body.get("data") {
        Some(data) => match data.get("info") {
            Some(info) => info.str_at("title"),
            None => None,
        },
        None => None,
    }
}

/// Creation times below this are in seconds.
pub const SECONDS_BELOW: i64 = 10_000_000_000;

/// When a message was created, in milliseconds; a time in seconds is scaled.
pub open spec fn created_ms(message: JsonV) -> int {
    let created = match message.member("time"@).get("created"@) {
        Some(JsonV::Number(n)) => n.cut_signed as int,
        _ => 0,
    };
    if 0 < created < SECONDS_BELOW {
        created * 1000
    } else {
        created
    }
}

/// When a message was created, in milliseconds.
pub fn v2_created_ms(message: &Json) -> (r: i64)
    ensures
        r == created_ms(message@),
{
    let found: Option<&Json> = match message.get("time") {
        Some(time) => time.get("created"),
        None => None,
    };
    let created: i64 = match found {
        Some(Json::Number(n)) => n.cut_signed,
        _ => 0,
    };
    if created > 0 && created < SECONDS_BELOW {
        created * 1000
    } else {
        created
    }
}

/// A count, read as an integer or else cut from a fraction; zero if it is no
/// number.
pub open spec fn lenient_count(value: Option<JsonV>) -> nat {
    match value {
        Some(JsonV::Number(n)) => match n.unsigned {
            Some(u) => u as nat,
            None => n.cut_unsigned as nat,
        },
        _ => 0,
    }
}

/// A count, read as an integer or else cut from a fraction.
pub fn v2_u64(value: Option<&Json>) -> (r: u64)
    ensures
        r == lenient_count(json::ref_model(value)),
{
    match value {
        Some(Json::Number(n)) => match n.unsigned {
            Some(u) => u,
            None => n.cut_unsigned,
        },
        _ => 0,
    }
}

// ---------------------------------------------------------------------------
// Parts
// ---------------------------------------------------------------------------

/// The texts among the contents of a tool's result.
pub open spec fn content_texts(contents: Seq<JsonV>) -> Seq<Seq<char>>
    decreases contents.len(),
{
    if contents.len() == 0 {
        Seq::empty()
    } else {
        let init = content_texts(contents.drop_last());
        let last = contents.last();
        match last.str_at("text"@) {
            Some(t) => if last.str_at("type"@) == Some("text"@) {
                init.push(t)
            } else {
                init
            },
            None => init,
        }
    }
}

/// What a tool printed: the texts of its result, one under the other.
pub open spec fn tool_output(state: JsonV) -> Option<Seq<char>> {
    match state.array_at("content"@) {
        Some(contents) => {
            let joined = text::join(content_texts(contents), "\n"@);
            if joined.len() == 0 {
                None
            } else {
                Some(joined)
            }
        },
        None => None,
    }
}

/// What an error says: its message, or else the error as it displays.
pub open spec fn told_error(error: JsonV, shown: Seq<char>) -> Option<Seq<char>> {
    let told = match error.str_at("message"@) {
        Some(m) => Some(m),
        None => if error is Null {
            None
        } else {
            Some(shown)
        },
    };
    match told {
        Some(t) => if t.len() == 0 || t == "null"@ {
            None
        } else {
            Some(t)
        },
        None => None,
    }
}

/// What went wrong in a tool.
pub open spec fn tool_error(state: JsonV) -> Option<Seq<char>> {
    match state.get("error"@) {
        Some(error) => told_error(error, native::displayed(native::kept(error))),
        None => None,
    }
}

/// The id of a content item that has none of its own.
pub open spec fn item_id(message_id: Seq<char>, index: int) -> Seq<char> {
    message_id + ":"@ + text::decimal(index as nat)
}

/// The transcript part that a content item stands for: text, reasoning and
/// tool calls have one.
pub open spec fn export_part(message_id: Seq<char>, index: int, item: JsonV) -> Option<PartV> {
    match item.str_at("type"@) {
        Some(kind) => if kind == "text"@ || kind == "reasoning"@ {
            Some(
                PartV {
                    id: item_id(message_id, index),
                    kind,
                    text: item.str_at("text"@),
                    tool: None,
                    state: None,
                    prompt: None,
                    children: Seq::empty(),
                },
            )
        } else if kind == "tool"@ {
            let state = item.member("state"@);
            Some(
                PartV {
                    id: cards::text_or(item.str_at("id"@), item_id(message_id, index)),
                    kind,
                    text: None,
                    tool: item.str_at("name"@),
                    state: Some(
                        ToolStateV {
                            status: cards::text_or(state.str_at("status"@), "running"@),
                            input: state.get("input"@),
                            output: tool_output(state),
                            error: tool_error(state),
                            title: None,
                        },
                    ),
                    prompt: None,
                    children: Seq::empty(),
                },
            )
        } else {
            None
        },
        None => None,
    }
}

/// The parts of the content items, each known by its position.
pub open spec fn content_parts(message_id: Seq<char>, content: Seq<JsonV>) -> Seq<PartV>
    decreases content.len(),
{
    if content.len() == 0 {
        Seq::empty()
    } else {
        let init = content_parts(message_id, content.drop_last());
        match export_part(message_id, content.len() - 1, content.last()) {
            Some(part) => init.push(part),
            None => init,
        }
    }
}

/// The id that the parts of a message are named after.
pub open spec fn message_id(message: JsonV) -> Seq<char> {
    cards::text_or(message.str_at("id"@), "msg"@)
}

/// The transcript parts of an exported message.
pub open spec fn export_parts(message: JsonV) -> Seq<PartV> {
    content_parts(message_id(message), message.items_at("content"@))
}

fn output_of(state: &Json) -> (r: Option<String>)
    ensures
        text::opt_text(r) == tool_output(state@),
{
    match state.array_at("content") {
        Some(contents) => {
            let ghost all = json::models(contents@);
            let mut pieces: Vec<String> = Vec::new();
            let mut i: usize = 0;
            assert(all.take(0) =~= Seq::empty());
            assert(text::texts(pieces@) =~= Seq::empty());
            while i < contents.len()
                invariant
                    i <= contents@.len(),
                    all == json::models(contents@),
                    text::texts(pieces@) == content_texts(all.take(i as int)),
                decreases contents@.len() - i,
            {
                let item: &Json = &contents[i];
                assert(all.take(i + 1).drop_last() =~= all.take(i as int));
                assert(all.take(i + 1).last() == item@);
                if text::opt_is(item.str_at("type"), "text") {
                    match item.text_at("text") {
                        Some(piece) => {
                            let ghost before = text::texts(pieces@);
                            pieces.push(piece);
                            assert(text::texts(pieces@) =~= before.push(piece@));
                        },
                        None => {},
                    }
                }
                i += 1;
            }
            assert(all.take(i as int) =~= all);
            let joined: String = text::join_texts(&pieces, "\n");
            if joined.as_str().is_empty() {
                None
            } else {
                Some(joined)
            }
        },
        None => None,
    }
}

/// What an error says, given how it displays.
pub fn error_told(error: &Json, shown: &str) -> (r: Option<String>)
    ensures
        text::opt_text(r) == told_error(error@, shown@),
{
    let told: Option<&str> = match error.str_at("message") {
        Some(m) => Some(m),
        None => if error.is_null() {
            None
        } else {
            Some(shown)
        },
    };
    match told {
        Some(t) => if t.is_empty() || text::str_eq(t, "null") {
            None
        } else {
            Some(t.to_owned())
        },
        None => None,
    }
}

fn error_of(state: &Json) -> (r: Option<String>)
    ensures
        text::opt_text(r) == tool_error(state@),
{
    match state.get("error") {
        Some(error) => {
            let shown: String = native::display_json(error);
            error_told(error, shown.as_str())
        },
        None => None,
    }
}

fn part_of(message_id: &str, index: usize, item: &Json) -> (r: Option<WirePart>)
    ensures
        wire::opt_part(r) == export_part(message_id@, index as int, item@),
{
    let kind: String = match item.text_at("type") {
        Some(kind) => kind,
        None => {
            return None;
        },
    };
    let number: String = text::decimal_of(index as u64);
    let fallback: String = text::concat3(message_id, ":", number.as_str());
    if text::str_eq(kind.as_str(), "text") || text::str_eq(kind.as_str(), "reasoning") {
        let r: WirePart = WirePart {
            id: fallback,
            kind,
            text: item.text_at("text"),
            tool: None,
            state: None,
            prompt: None,
            children: Vec::new(),
        };
        assert(r@.children =~= Seq::empty());
        Some(r)
    } else if text::str_eq(kind.as_str(), "tool") {
        let null: Json = Json::Null;
        let state: &Json = crate::events::member_or(item, "state", &null);
        let r: WirePart = WirePart {
            id: cards::owned_or(item.text_at("id"), fallback.as_str()),
            kind,
            text: None,
            tool: item.text_at("name"),
            state: Some(
                WireToolState {
                    status: cards::owned_or(state.text_at("status"), "running"),
                    input: document::copy_opt(state.get("input")),
                    output: output_of(state),
                    error: error_of(state),
                    title: None,
                },
            ),
            prompt: None,
            children: Vec::new(),
        };
        assert(r@.children =~= Seq::empty());
        Some(r)
    } else {
        None
    }
}

/// The transcript parts of an exported message.
pub fn v2_wire_parts(message: &Json) -> (r: Vec<WirePart>)
    ensures
        wire::part_models(r@) == export_parts(message@),
{
    let mid: String = cards::owned_or(message.text_at("id"), "msg");
    let mut out: Vec<WirePart> = Vec::new();
    assert(wire::part_models(out@) =~= Seq::empty());
    match message.array_at("content") {
        Some(content) => {
            let ghost all = json::models(content@);
            let mut i: usize = 0;
            assert(all.take(0) =~= Seq::empty());
            while i < content.len()
                invariant
                    i <= content@.len(),
                    all == json::models(content@),
                    wire::part_models(out@) == content_parts(mid@, all.take(i as int)),
                decreases content@.len() - i,
            {
                assert(all.take(i + 1).drop_last() =~= all.take(i as int));
                assert(all.take(i + 1).last() == content@[i as int]@);
                match part_of(mid.as_str(), i, &content[i]) {
                    Some(part) => {
                        let ghost before = wire::part_models(out@);
                        out.push(part);
                        assert(wire::part_models(out@) =~= before.push(part@));
                    },
                    None => {},
                }
                i += 1;
            }
            assert(all.take(i as int) =~= all);
        },
        None => {},
    }
    out
}

// ---------------------------------------------------------------------------
// Errors
// ---------------------------------------------------------------------------

/// What a message's error says: its message, or else the error as text.
pub open spec fn error_text(error: JsonV, serialized: Option<Seq<char>>) -> Seq<char> {
    match error.str_at("message"@) {
        Some(m) => m,
        None => cards::text_or(serialized, cards::ERROR_FALLBACK@),
    }
}

/// The error that a message ended with.
pub open spec fn message_error(message: JsonV) -> Option<Seq<char>> {
    match cards::non_null(message.get("error"@)) {
        Some(error) => Some(error_text(error, native::serialized(native::kept(error)))),
        None => None,
    }
}

/// What a message's error says, given the error as text.
pub fn error_text_of(error: &Json, serialized: Option<&str>) -> (r: String)
    ensures
        r@ == error_text(error@, text::opt_str(serialized)),
{
    match error.text_at("message") {
        Some(m) => m,
        None => cards::owned_or(text::opt_owned(serialized), cards::ERROR_FALLBACK),
    }
}

/// The error that a message ended with.
pub fn v2_message_error(message: &Json) -> (r: Option<String>)
    ensures
        text::opt_text(r) == message_error(message@),
{
    match message.get("error") {
        Some(error) => if error.is_null() {
            None
        } else {
            let serialized: Option<String> = native::serialize_json(error);
            Some(error_text_of(error, text::opt_as_str(&serialized)))
        },
        None => None,
    }
}

// ---------------------------------------------------------------------------
// Merging and finishing
// ---------------------------------------------------------------------------

/// The message is the assistant's.
pub open spec fn is_assistant(message: JsonV) -> bool {
    message.str_at("type"@) == Some("assistant"@)
}

/// The assistant's messages.
pub open spec fn assistants(messages: Seq<JsonV>) -> Seq<JsonV>
    decreases messages.len(),
{
    if messages.len() == 0 {
        Seq::empty()
    } else if is_assistant(messages.last()) {
        assistants(messages.drop_last()).push(messages.last())
    } else {
        assistants(messages.drop_last())
    }
}

/// The assistant's messages since the turn started.
pub open spec fn assistants_since(messages: Seq<JsonV>, start: i64) -> Seq<JsonV>
    decreases messages.len(),
{
    if messages.len() == 0 {
        Seq::empty()
    } else if is_assistant(messages.last()) && created_ms(messages.last()) >= start {
        assistants_since(messages.drop_last(), start).push(messages.last())
    } else {
        assistants_since(messages.drop_last(), start)
    }
}

/// The messages that belong to the turn: the assistant's since it started, or
/// the latest one if the clocks disagree and none seems to be that recent.
pub open spec fn turn_messages(messages: Seq<JsonV>, start: i64) -> Seq<JsonV> {
    let recent = assistants_since(messages, start);
    let all = assistants(messages);
    if recent.len() > 0 {
        recent
    } else if all.len() > 0 {
        seq![all.last()]
    } else {
        Seq::empty()
    }
}

/// The parts with those of some messages upserted, message by message.
pub open spec fn merge_messages(parts: Seq<PartV>, messages: Seq<JsonV>) -> Seq<PartV>
    decreases messages.len(),
{
    if messages.len() == 0 {
        parts
    } else {
        turn::upsert_all(merge_messages(parts, messages.drop_last()), export_parts(messages.last()))
    }
}

/// A turn with an export merged into its transcript.
pub open spec fn merged(t: TurnV, messages: Seq<JsonV>, start: i64) -> TurnV {
    TurnV {
        parts: merge_messages(t.parts, turn_messages(messages, start)),
        flush: turn::soon(t.flush),
        ..t
    }
}

fn merge_message(ctx: &mut TurnCtx, message: &Json)
    ensures
        final(ctx)@ == (TurnV {
            parts: turn::upsert_all(old(ctx)@.parts, export_parts(message@)),
            ..old(ctx)@
        }),
{
    let mut parts: Vec<WirePart> = v2_wire_parts(message);
    let ghost all = wire::part_models(parts@);
    let ghost before = ctx@;
    let ghost mut done: int = 0;
    assert(all.take(0) =~= Seq::empty());
    while parts.len() > 0
        invariant
            0 <= done <= all.len(),
            wire::part_models(parts@) == all.skip(done),
            ctx@ == (TurnV { parts: turn::upsert_all(before.parts, all.take(done)), ..before }),
        decreases parts@.len(),
    {
        let ghost was = parts@;
        assert(wire::part_models(was).len() == was.len());
        let part: WirePart = parts.remove(0);
        assert(wire::part_models(was)[0] == part@);
        assert(part@ == all[done]);
        assert(all.take(done + 1).drop_last() =~= all.take(done));
        ctx.upsert_part(part);
        assert(wire::part_models(parts@) =~= wire::part_models(was).skip(1));
        assert(all.skip(done).skip(1) =~= all.skip(done + 1));
        proof {
            done = done + 1;
        }
    }
    assert(all.skip(done).len() == 0);
    assert(all.take(done) =~= all);
}

/// Merge an export's messages into the transcript.
pub fn merge_v2_export(ctx: &mut TurnCtx, messages: &Vec<Json>, turn_started_at: i64)
    ensures
        final(ctx)@ == merged(old(ctx)@, json::models(messages@), turn_started_at),
{
    let ghost all = json::models(messages@);
    let ghost before = ctx@;
    let mut any: bool = false;
    let mut i: usize = 0;
    assert(all.take(0) =~= Seq::empty());
    while i < messages.len()
        invariant
            i <= messages@.len(),
            all == json::models(messages@),
            any == (assistants_since(all.take(i as int), turn_started_at).len() > 0),
            ctx@ == (TurnV {
                parts: merge_messages(
                    before.parts,
                    assistants_since(all.take(i as int), turn_started_at),
                ),
                ..before
            }),
        decreases messages@.len() - i,
    {
        let message: &Json = &messages[i];
        assert(all.take(i + 1).drop_last() =~= all.take(i as int));
        assert(all.take(i + 1).last() == message@);
        if text::opt_is(message.str_at("type"), "assistant") && v2_created_ms(message)
            >= turn_started_at {
            let ghost sofar = assistants_since(all.take(i as int), turn_started_at);
            assert(sofar.push(message@).drop_last() =~= sofar);
            merge_message(ctx, message);
            any = true;
        }
        i += 1;
    }
    assert(all.take(i as int) =~= all);
    if !any {
        assert(ctx@.parts =~= before.parts);
        match last_assistant(messages) {
            Some(message) => {
                assert(seq![message@].drop_last() =~= Seq::empty());
                assert(merge_messages(before.parts, seq![message@]) == turn::upsert_all(
                    merge_messages(before.parts, seq![message@].drop_last()),
                    export_parts(message@),
                ));
                merge_message(ctx, message);
            },
            None => {},
        }
    }
    ctx.maybe_flush();
}

/// The last of the assistant's messages.
fn last_assistant<'a>(messages: &'a Vec<Json>) -> (r: Option<&'a Json>)
    ensures
        match r {
            Some(m) => assistants(json::models(messages@)).len() > 0 && assistants(
                json::models(messages@),
            ).last() == m@,
            None => assistants(json::models(messages@)).len() == 0,
        },
{
    let ghost all = json::models(messages@);
    let mut i: usize = messages.len();
    assert(all.take(i as int) =~= all);
    while i > 0
        invariant
            i <= messages@.len(),
            all == json::models(messages@),
            assistants(all) == assistants(all.take(i as int)),
        decreases i,
    {
        assert(all.take(i as int).last() == messages@[i - 1]@);
        assert(all.take(i as int).drop_last() =~= all.take(i - 1));
        if text::opt_is(messages[i - 1].str_at("type"), "assistant") {
            return Some(&messages[i - 1]);
        }
        i -= 1;
    }
    None
}

/// The tokens that a message used.
pub open spec fn used_tokens(message: JsonV) -> nat {
    let tokens = message.member("tokens"@);
    let cache = tokens.member("cache"@);
    lenient_count(tokens.get("input"@)) + lenient_count(tokens.get("output"@)) + lenient_count(
        tokens.get("reasoning"@),
    ) + lenient_count(cache.get("read"@)) + lenient_count(cache.get("write"@))
}

/// The message did not end with an error.
pub open spec fn ended_well(message: JsonV) -> bool {
    cards::non_null(message.get("error"@)) is None && message.str_at("finish"@) != Some("error"@)
}

/// The context was compacted since the turn started.
pub open spec fn compacted_since(messages: Seq<JsonV>, start: i64) -> bool {
    exists|i: int|
        0 <= i < messages.len() && (#[trigger] messages[i]).str_at("type"@) == Some("compaction"@)
            && created_ms(messages[i]) >= start
}

/// Told when a turn ends with an error that nothing is said about.
pub const TURN_ERROR: &'static str = "OpenCode reported an error for this turn.";

/// The turn ends with a failure.
pub open spec fn failed(t: TurnV, code: Seq<char>, message: Seq<char>) -> TurnV {
    TurnV { failure: Some(FailureV { code, message }), ..t }
}

/// The turn with the session's title, unless it is the one that every session
/// starts with.
pub open spec fn titled(t: TurnV, title: Option<Seq<char>>) -> TurnV {
    match title {
        Some(name) => if cards::seed_title(name) {
            t
        } else {
            TurnV { title: Some(name), ..t }
        },
        None => t,
    }
}

/// How a turn ends: with the error of the assistant's last message, with the
/// news that the context was compacted, or well. The tokens of a last message
/// without an error are reported. A turn that ends well adopts the session's
/// title.
pub open spec fn finished(
    t: TurnV,
    messages: Seq<JsonV>,
    title: Option<Seq<char>>,
    start: i64,
) -> (TurnV, Option<Seq<char>>) {
    let all = assistants(messages);
    let last = all.last();
    let error = if all.len() == 0 {
        None
    } else {
        match message_error(last) {
            Some(e) => Some(e),
            None => if last.str_at("finish"@) == Some("error"@) {
                Some(TURN_ERROR@)
            } else {
                None
            },
        }
    };
    match error {
        Some(e) => (
            failed(TurnV { native_retry_exhausted: true, ..t }, "opencode_terminal"@, e),
            Some(e),
        ),
        None => {
            let used = used_tokens(last);
            let reported = if all.len() > 0 && used > 0 {
                TurnV {
                    usage: Some(ContextUsage { used_tokens: used as u64, context_window: None }),
                    ..t
                }
            } else {
                t
            };
            if compacted_since(messages, start) {
                (failed(reported, "opencode_compacted"@, cards::COMPACTED@), Some(cards::COMPACTED@))
            } else {
                (titled(reported, title), None)
            }
        },
    }
}

/// The tokens of a last message that ended well can be counted.
pub open spec fn finish_in_range(messages: Seq<JsonV>) -> bool {
    let all = assistants(messages);
    all.len() > 0 && ended_well(all.last()) ==> used_tokens(all.last()) <= u64::MAX
}

fn counts_of(message: &Json) -> (r: (u64, u64, u64, u64, u64))
    ensures
        r.0 + r.1 + r.2 + r.3 + r.4 == used_tokens(message@),
{
    match message.get("tokens") {
        Some(tokens) => {
            let cache: (u64, u64) = match tokens.get("cache") {
                Some(c) => (v2_u64(c.get("read")), v2_u64(c.get("write"))),
                None => (0, 0),
            };
            (
                v2_u64(tokens.get("input")),
                v2_u64(tokens.get("output")),
                v2_u64(tokens.get("reasoning")),
                cache.0,
                cache.1,
            )
        },
        None => (0, 0, 0, 0, 0),
    }
}

/// The tokens of a last message that ended well can be counted.
pub fn export_in_range(messages: &Vec<Json>) -> (r: bool)
    ensures
        r == finish_in_range(json::models(messages@)),
{
    match last_assistant(messages) {
        Some(last) => {
            let errored: bool = match last.get("error") {
                Some(e) => !e.is_null(),
                None => false,
            };
            if errored || text::opt_is(last.str_at("finish"), "error") {
                return true;
            }
            let n: (u64, u64, u64, u64, u64) = counts_of(last);
            let total: u128 = n.0 as u128 + n.1 as u128 + n.2 as u128 + n.3 as u128 + n.4 as u128;
            total <= u64::MAX as u128
        },
        None => true,
    }
}

fn was_compacted(messages: &Vec<Json>, start: i64) -> (r: bool)
    ensures
        r == compacted_since(json::models(messages@), start),
{
    let ghost all = json::models(messages@);
    let mut i: usize = 0;
    while i < messages.len()
        invariant
            i <= messages@.len(),
            all == json::models(messages@),
            forall|j: int|
                0 <= j < i ==> !((#[trigger] all[j]).str_at("type"@) == Some("compaction"@)
                    && created_ms(all[j]) >= start),
        decreases messages@.len() - i,
    {
        let message: &Json = &messages[i];
        assert(all[i as int] == message@);
        if text::opt_is(message.str_at("type"), "compaction") && v2_created_ms(message) >= start {
            return true;
        }
        i += 1;
    }
    false
}

/// End a turn by its export, given the messages and the session's title:
/// record how it ended, and give the error if it ended with one.
pub fn finish_v2_turn(
    ctx: &mut TurnCtx,
    messages: &Vec<Json>,
    title: Option<&str>,
    turn_started_at: i64,
) -> (r: Result<(), String>)
    requires
        finish_in_range(json::models(messages@)),
    ensures
        final(ctx)@ == finished(
            old(ctx)@,
            json::models(messages@),
            text::opt_str(title),
            turn_started_at,
        ).0,
        match r {
            Ok(_) => finished(
                old(ctx)@,
                json::models(messages@),
                text::opt_str(title),
                turn_started_at,
            ).1 is None,
            Err(e) => finished(
                old(ctx)@,
                json::models(messages@),
                text::opt_str(title),
                turn_started_at,
            ).1 == Some(e@),
        },
{
    match last_assistant(messages) {
        Some(last) => {
            match v2_message_error(last) {
                Some(error) => {
                    ctx.mark_native_retry_exhausted();
                    ctx.mark_terminal_failure("opencode_terminal", error.as_str());
                    return Err(error);
                },
                None => {},
            }
            if text::opt_is(last.str_at("finish"), "error") {
                ctx.mark_native_retry_exhausted();
                ctx.mark_terminal_failure("opencode_terminal", TURN_ERROR);
                return Err(TURN_ERROR.to_owned());
            }
            let n: (u64, u64, u64, u64, u64) = counts_of(last);
            let used: u64 = n.0 + n.1 + n.2 + n.3 + n.4;
            if used > 0 {
                ctx.report_usage(ContextUsage { used_tokens: used, context_window: None });
            }
        },
        None => {},
    }
    if was_compacted(messages, turn_started_at) {
        ctx.mark_terminal_failure("opencode_compacted", cards::COMPACTED);
        return Err(cards::COMPACTED.to_owned());
    }
    match title {
        Some(name) => {
            if !cards::is_opencode_seed_title(name) {
                ctx.set_title(name);
            }
        },
        None => {},
    }
    Ok(())
}

// ---------------------------------------------------------------------------
// Laws
// ---------------------------------------------------------------------------

/// A turn that ends well adopts the session's title. The title that every
/// session starts with is never adopted, and a turn that fails keeps the title
/// it had.
pub proof fn real_titles_are_adopted(
    t: TurnV,
    messages: Seq<JsonV>,
    title: Option<Seq<char>>,
    start: i64,
)
    ensures
        ({
            let (after, error) = finished(t, messages, title, start);
            after.title == (match title {
                Some(name) => if error is None && !cards::seed_title(name) {
                    title
                } else {
                    t.title
                },
                None => t.title,
            })
        }),
{
}

/// The parts of some messages, one after the other.
pub open spec fn parts_of_all(messages: Seq<JsonV>) -> Seq<PartV>
    decreases messages.len(),
{
    if messages.len() == 0 {
        Seq::empty()
    } else {
        parts_of_all(messages.drop_last()) + export_parts(messages.last())
    }
}

proof fn lemma_merge_is_upsert(parts: Seq<PartV>, messages: Seq<JsonV>)
    ensures
        merge_messages(parts, messages) == turn::upsert_all(parts, parts_of_all(messages)),
    decreases messages.len(),
{
    if messages.len() > 0 {
        lemma_merge_is_upsert(parts, messages.drop_last());
        turn::lemma_upsert_batches(
            parts,
            parts_of_all(messages.drop_last()),
            export_parts(messages.last()),
        );
    }
}

/// Merging the same export again changes nothing: a poll that brings nothing
/// new duplicates no part.
pub proof fn merging_again_changes_nothing(t: TurnV, messages: Seq<JsonV>, start: i64)
    ensures
        merged(merged(t, messages, start), messages, start) == merged(t, messages, start),
{
    let ms = turn_messages(messages, start);
    let once = merge_messages(t.parts, ms);
    lemma_merge_is_upsert(t.parts, ms);
    lemma_merge_is_upsert(once, ms);
    turn::reports_are_idempotent(t.parts, parts_of_all(ms));
}

/// The ids of a message's parts are stable: when more content follows, the
/// parts that were there keep their places and their ids.
pub proof fn more_content_keeps_the_parts(
    message_id: Seq<char>,
    content: Seq<JsonV>,
    more: Seq<JsonV>,
)
    ensures
        content_parts(message_id, content).is_prefix_of(content_parts(message_id, content + more)),
    decreases more.len(),
{
    if more.len() == 0 {
        assert(content + more =~= content);
    } else {
        more_content_keeps_the_parts(message_id, content, more.drop_last());
        assert((content + more).drop_last() =~= content + more.drop_last());
    }
}

/// Two items of one message that have no ids of their own get different ones.
pub proof fn synthesized_ids_differ(message_id: Seq<char>, i: nat, j: nat)
    requires
        i != j,
    ensures
        item_id(message_id, i as int) != item_id(message_id, j as int),
{
    text::decimal_reads_back(i);
    text::decimal_reads_back(j);
    let prefix = message_id + ":"@;
    if item_id(message_id, i as int) == item_id(message_id, j as int) {
        let n = prefix.len() as int;
        assert(item_id(message_id, i as int).skip(n) =~= text::decimal(i));
        assert(item_id(message_id, j as int).skip(n) =~= text::decimal(j));
    }
}

proof fn lemma_assistants(messages: Seq<JsonV>, start: i64)
    ensures
        forall|i: int|
            0 <= i < assistants(messages).len() ==> messages.contains(
                #[trigger] assistants(messages)[i],
            ) && is_assistant(assistants(messages)[i]),
        forall|i: int|
            0 <= i < assistants_since(messages, start).len() ==> messages.contains(
                #[trigger] assistants_since(messages, start)[i],
            ) && is_assistant(assistants_since(messages, start)[i]) && created_ms(
                assistants_since(messages, start)[i],
            ) >= start,
    decreases messages.len(),
{
    if messages.len() > 0 {
        let init = messages.drop_last();
        lemma_assistants(init, start);
        assert forall|m: JsonV| init.contains(m) implies messages.contains(m) by {
            let k = choose|k: int| 0 <= k < init.len() && init[k] == m;
            assert(messages[k] == m);
        }
        assert(messages.contains(messages.last())) by {
            assert(messages[messages.len() - 1] == messages.last());
        }
        assert forall|i: int| 0 <= i < assistants(messages).len() implies messages.contains(
            #[trigger] assistants(messages)[i],
        ) && is_assistant(assistants(messages)[i]) by {
            if i < assistants(init).len() {
                assert(assistants(messages)[i] == assistants(init)[i]);
            }
        }
        assert forall|i: int| 0 <= i < assistants_since(messages, start).len() implies messages.contains(
            #[trigger] assistants_since(messages, start)[i],
        ) && is_assistant(assistants_since(messages, start)[i]) && created_ms(
            assistants_since(messages, start)[i],
        ) >= start by {
            if i < assistants_since(init, start).len() {
                assert(assistants_since(messages, start)[i] == assistants_since(init, start)[i]);
            }
        }
    }
}

/// Only the assistant's messages are merged, and of earlier turns none, unless
/// no message seems to be recent: then it is one, the latest.
pub proof fn only_this_turn_is_merged(messages: Seq<JsonV>, start: i64, i: int)
    requires
        0 <= i < turn_messages(messages, start).len(),
    ensures
        ({
            let m = turn_messages(messages, start)[i];
            &&& messages.contains(m)
            &&& is_assistant(m)
            &&& created_ms(m) >= start || (turn_messages(messages, start).len() == 1 && m
                == assistants(messages).last())
        }),
{
    lemma_assistants(messages, start);
}

proof fn lemma_types()
    ensures
        "text"@ != "reasoning"@,
        "text"@ != "tool"@,
        "text"@ != "assistant"@,
        "text"@ != "compaction"@,
        "reasoning"@ != "tool"@,
        "reasoning"@ != "assistant"@,
        "reasoning"@ != "compaction"@,
        "tool"@ != "assistant"@,
        "tool"@ != "compaction"@,
        "assistant"@ != "compaction"@,
{
    reveal_strlit("text");
    reveal_strlit("reasoning");
    reveal_strlit("tool");
    reveal_strlit("assistant");
    reveal_strlit("compaction");
    assert("text"@.len() != "reasoning"@.len());
    assert("text"@[1] != "tool"@[1]);
    assert("text"@.len() != "assistant"@.len());
    assert("text"@.len() != "compaction"@.len());
    assert("reasoning"@.len() != "tool"@.len());
    assert("reasoning"@[0] != "assistant"@[0]);
    assert("reasoning"@.len() != "compaction"@.len());
    assert("tool"@.len() != "assistant"@.len());
    assert("tool"@.len() != "compaction"@.len());
    assert("assistant"@.len() != "compaction"@.len());
}

/// A message with one more item of content has the parts that it has without
/// it, and then that item's: text and reasoning with their text, under the
/// message's id and the item's place; a tool call with its name and its state,
/// under its own id if it has one. An item of any other type has no part.
pub proof fn content_becomes_parts(shorter: JsonV, message: JsonV, item: JsonV)
    requires
        message.items_at("content"@) == shorter.items_at("content"@).push(item),
        message.str_at("id"@) == shorter.str_at("id"@),
    ensures
        ({
            let before = export_parts(shorter);
            let after = export_parts(message);
            let kind = item.str_at("type"@);
            let named = match message.str_at("id"@) {
                Some(id) => id,
                None => "msg"@,
            };
            let place = named + ":"@ + text::decimal(shorter.items_at("content"@).len());
            let part = after.last();
            let shown = kind == Some("text"@) || kind == Some("reasoning"@) || kind == Some(
                "tool"@,
            );
            &&& !shown ==> after == before
            &&& shown ==> {
                &&& after.len() == before.len() + 1
                &&& after.drop_last() == before
                &&& Some(part.kind) == kind
                &&& part.prompt is None && part.children.len() == 0
            }
            &&& kind == Some("text"@) || kind == Some("reasoning"@) ==> part.id == place
                && part.text == item.str_at("text"@) && part.tool is None && part.state is None
            &&& kind == Some("tool"@) ==> {
                let said = item.member("state"@);
                &&& item.str_at("id"@) is Some ==> Some(part.id) == item.str_at("id"@)
                &&& item.str_at("id"@) is None ==> part.id == place
                &&& part.text is None
                &&& part.tool == item.str_at("name"@)
                &&& part.state matches Some(state) && {
                    &&& state.input == said.get("input"@)
                    &&& state.title is None
                    &&& said.str_at("status"@) is Some ==> Some(state.status) == said.str_at(
                        "status"@,
                    )
                    &&& said.str_at("status"@) is None ==> state.status == "running"@
                    &&& state.output == tool_output(said)
                    &&& said.get("error"@) is None ==> state.error is None
                    &&& said.member("error"@).str_at("message"@) matches Some(m) ==> (m.len() > 0
                        && m != "null"@ ==> state.error == Some(m))
                }
            }
        }),
{
    lemma_types();
    let items = message.items_at("content"@);
    assert(items.drop_last() =~= shorter.items_at("content"@));
    assert(items.last() == item);
    let after = export_parts(message);
    if after.len() > export_parts(shorter).len() {
        assert(after.drop_last() =~= export_parts(shorter));
    }
}

/// What a tool printed is the texts of its result, one under the other; what
/// is not text is passed over, and no text at all is no output.
pub proof fn tools_print_their_texts(state: JsonV, contents: Seq<JsonV>, item: JsonV, told: Seq<char>)
    requires
        state.get("content"@) == Some(JsonV::Array(contents.push(item))),
        item.str_at("type"@) == Some("text"@),
        item.str_at("text"@) == Some(told),
        told.len() > 0,
    ensures
        ({
            let before = content_texts(contents);
            &&& before.len() == 0 ==> tool_output(state) == Some(told)
            &&& before.len() > 0 ==> tool_output(state) == Some(
                text::join(before, "\n"@) + "\n"@ + told,
            )
        }),
{
    let all = contents.push(item);
    assert(all.drop_last() =~= contents);
    assert(all.last() == item);
    let before = content_texts(contents);
    assert(content_texts(all) == before.push(told));
    assert(before.push(told) =~= before + seq![told]);
    if before.len() > 0 {
        text::joins_are_made_of_joins(before, seq![told], "\n"@);
        reveal_with_fuel(text::join, 2);
        assert(text::join(seq![told], "\n"@) =~= told);
    } else {
        assert(before + seq![told] =~= seq![told]);
        reveal_with_fuel(text::join, 2);
        assert(text::join(seq![told], "\n"@) =~= told);
    }
}

/// Of the result of a tool only its texts are kept, in order.
pub proof fn results_keep_their_texts(contents: Seq<JsonV>, item: JsonV)
    ensures
        content_texts(contents.push(item)) == (if item.str_at("type"@) == Some("text"@)
            && item.str_at("text"@) is Some {
            content_texts(contents).push(item.str_at("text"@)->0)
        } else {
            content_texts(contents)
        }),
        content_texts(Seq::empty()) == Seq::<Seq<char>>::empty(),
{
    assert(contents.push(item).drop_last() =~= contents);
}

/// What an error says is its message; where it has none, the error as it
/// displays. Nothing, and an error that is null or says so, says nothing.
pub proof fn tool_errors_are_told(error: JsonV, shown: Seq<char>, m: Seq<char>)
    ensures
        error.str_at("message"@) == Some(m) && m.len() > 0 && m != "null"@ ==> told_error(
            error,
            shown,
        ) == Some(m),
        error.str_at("message"@) == Some(m) && (m.len() == 0 || m == "null"@) ==> told_error(
            error,
            shown,
        ) is None,
        error.str_at("message"@) is None && error !is Null && shown.len() > 0 && shown != "null"@
            ==> told_error(error, shown) == Some(shown),
        error is Null ==> told_error(error, shown) is None,
{
}

/// A message ended with an error exactly if it has one that is not null, and
/// the error is told by its message.
pub proof fn message_errors_are_told(message: JsonV, error: JsonV, m: Seq<char>)
    ensures
        message_error(message) is Some <==> message.get("error"@) is Some && message.get("error"@)
            != Some(JsonV::Null),
        message.get("error"@) == Some(error) && error.str_at("message"@) == Some(m)
            ==> message_error(message) == Some(m),
{
}

/// Creation times are compared in milliseconds: one that is too small for that
/// is in seconds.
pub proof fn seconds_are_scaled(message: JsonV, number: json::NumberV)
    requires
        message.member("time"@).get("created"@) == Some(JsonV::Number(number)),
    ensures
        0 < number.cut_signed < 10_000_000_000 ==> created_ms(message) == number.cut_signed * 1000,
        number.cut_signed >= 10_000_000_000 || number.cut_signed <= 0 ==> created_ms(message)
            == number.cut_signed,
{
}

/// A count is the integer that it is, or else what is left of it without its
/// fraction; what is no number counts for nothing.
pub proof fn counts_are_read(number: json::NumberV, n: u64)
    ensures
        number.unsigned == Some(n) ==> lenient_count(Some(JsonV::Number(number))) == n,
        number.unsigned is None ==> lenient_count(Some(JsonV::Number(number)))
            == number.cut_unsigned,
        lenient_count(None) == 0,
        lenient_count(Some(JsonV::Null)) == 0,
{
}

proof fn lemma_recent(messages: Seq<JsonV>, start: i64, i: int) -> (k: int)
    requires
        0 <= i < messages.len(),
        is_assistant(messages[i]),
        created_ms(messages[i]) >= start,
    ensures
        0 <= k < assistants_since(messages, start).len(),
        assistants_since(messages, start)[k] == messages[i],
    decreases messages.len(),
{
    let init = messages.drop_last();
    if i == messages.len() - 1 {
        assistants_since(init, start).len() as int
    } else {
        assert(init[i] == messages[i]);
        let k = lemma_recent(init, start, i);
        assert(assistants_since(messages, start)[k] == assistants_since(init, start)[k]);
        k
    }
}

proof fn lemma_last_assistant(messages: Seq<JsonV>, i: int)
    requires
        0 <= i < messages.len(),
        messages[i].str_at("type"@) == Some("assistant"@),
        forall|j: int|
            i < j < messages.len() ==> (#[trigger] messages[j]).str_at("type"@) != Some(
                "assistant"@,
            ),
    ensures
        assistants(messages).len() > 0,
        assistants(messages).last() == messages[i],
    decreases messages.len(),
{
    let init = messages.drop_last();
    if i < messages.len() - 1 {
        assert(messages[messages.len() - 1].str_at("type"@) != Some("assistant"@));
        assert(init[i] == messages[i]);
        assert forall|j: int| i < j < init.len() implies (#[trigger] init[j]).str_at("type"@)
            != Some("assistant"@) by {
            assert(init[j] == messages[j]);
        }
        lemma_last_assistant(init, i);
    }
}

/// Every message of the assistant since the turn started is merged; where none
/// is that recent, its latest message is.
pub proof fn recent_messages_are_merged(messages: Seq<JsonV>, start: i64, i: int)
    requires
        0 <= i < messages.len(),
        messages[i].str_at("type"@) == Some("assistant"@),
    ensures
        created_ms(messages[i]) >= start ==> turn_messages(messages, start).contains(messages[i]),
        (forall|j: int|
            0 <= j < messages.len() && (#[trigger] messages[j]).str_at("type"@) == Some(
                "assistant"@,
            ) ==> j <= i && created_ms(messages[j]) < start) ==> turn_messages(messages, start)
            == seq![messages[i]],
{
    if created_ms(messages[i]) >= start {
        let k = lemma_recent(messages, start, i);
        assert(turn_messages(messages, start)[k] == messages[i]);
    }
    if forall|j: int|
        0 <= j < messages.len() && (#[trigger] messages[j]).str_at("type"@) == Some("assistant"@)
            ==> j <= i && created_ms(messages[j]) < start {
        lemma_last_assistant(messages, i);
        lemma_assistants(messages, start);
        let recent = assistants_since(messages, start);
        if recent.len() > 0 {
            assert(messages.contains(recent[0]));
            let k = choose|k: int| 0 <= k < messages.len() && messages[k] == recent[0];
            assert(messages[k].str_at("type"@) == Some("assistant"@));
        }
    }
}

/// One more message of this turn is merged behind the others: its parts take
/// the places of those with their ids, or come last. A message of anyone else
/// changes nothing. What is merged is shown soon.
pub proof fn messages_are_merged_in_order(
    t: TurnV,
    messages: Seq<JsonV>,
    more: JsonV,
    start: i64,
    i: int,
)
    requires
        0 <= i < messages.len(),
        messages[i].str_at("type"@) == Some("assistant"@),
        created_ms(messages[i]) >= start,
    ensures
        ({
            let before = merged(t, messages, start);
            let after = merged(t, messages.push(more), start);
            let ours = more.str_at("type"@) == Some("assistant"@) && created_ms(more) >= start;
            &&& ours ==> after.parts == turn::upsert_all(before.parts, export_parts(more))
            &&& !ours ==> after.parts == before.parts
            &&& after == (TurnV { parts: after.parts, flush: after.flush, ..t })
            &&& after.flush != turn::Flush::No
            &&& t.flush == turn::Flush::Now ==> after.flush == turn::Flush::Now
        }),
{
    let k = lemma_recent(messages, start, i);
    let all = messages.push(more);
    assert(all.drop_last() =~= messages);
    assert(all.last() == more);
    let recent = assistants_since(messages, start);
    if is_assistant(more) && created_ms(more) >= start {
        let longer = recent.push(more);
        assert(assistants_since(all, start) == longer);
        assert(longer.drop_last() =~= recent);
        assert(longer.last() == more);
    }
}

/// How a turn ends is told by the assistant's last message: its error, in the
/// error's words, or that it finished with one. Otherwise the turn ends well,
/// unless the context was compacted since it started. A failure is not tried
/// again here, and the transcript stays as it is.
pub proof fn turns_end_as_their_last_message(
    t: TurnV,
    messages: Seq<JsonV>,
    title: Option<Seq<char>>,
    start: i64,
    i: int,
)
    requires
        0 <= i < messages.len(),
        messages[i].str_at("type"@) == Some("assistant"@),
        forall|j: int|
            i < j < messages.len() ==> (#[trigger] messages[j]).str_at("type"@) != Some(
                "assistant"@,
            ),
    ensures
        ({
            let (after, error) = finished(t, messages, title, start);
            let last = messages[i];
            let wrong = last.get("error"@) is Some && last.get("error"@) != Some(JsonV::Null);
            let cut_short = last.str_at("finish"@) == Some("error"@);
            let compacted = exists|j: int|
                0 <= j < messages.len() && (#[trigger] messages[j]).str_at("type"@) == Some(
                    "compaction"@,
                ) && created_ms(messages[j]) >= start;
            let failed = |code: Seq<char>|
                error is Some && after.failure == Some(FailureV { code, message: error->0 });
            &&& after.parts == t.parts
            &&& wrong ==> failed("opencode_terminal"@) && after.native_retry_exhausted
            &&& wrong ==> (last.member("error"@).str_at("message"@) matches Some(m) ==> error
                == Some(m))
            &&& !wrong && cut_short ==> failed("opencode_terminal"@)
                && after.native_retry_exhausted && error == Some(
                "OpenCode reported an error for this turn."@,
            )
            &&& !wrong && !cut_short && compacted ==> failed("opencode_compacted"@)
                && after.native_retry_exhausted == t.native_retry_exhausted
            &&& !wrong && !cut_short && !compacted ==> error is None && after.failure == t.failure
            &&& wrong || cut_short ==> after.usage == t.usage
        }),
{
    lemma_last_assistant(messages, i);
}

/// The tokens of a last message without an error are reported: its input,
/// output, reasoning and cached ones together, if there are any.
pub proof fn turns_report_their_tokens(
    t: TurnV,
    messages: Seq<JsonV>,
    title: Option<Seq<char>>,
    start: i64,
    i: int,
)
    requires
        0 <= i < messages.len(),
        messages[i].str_at("type"@) == Some("assistant"@),
        forall|j: int|
            i < j < messages.len() ==> (#[trigger] messages[j]).str_at("type"@) != Some(
                "assistant"@,
            ),
        messages[i].get("error"@) is None,
        messages[i].str_at("finish"@) != Some("error"@),
        finish_in_range(messages),
    ensures
        ({
            let after = finished(t, messages, title, start).0;
            let tokens = messages[i].member("tokens"@);
            let cache = tokens.member("cache"@);
            let count = |value: Option<JsonV>|
                match value {
                    Some(JsonV::Number(n)) => match n.unsigned {
                        Some(u) => u as int,
                        None => n.cut_unsigned as int,
                    },
                    _ => 0,
                };
            let sum = count(tokens.get("input"@)) + count(tokens.get("output"@)) + count(
                tokens.get("reasoning"@),
            ) + count(cache.get("read"@)) + count(cache.get("write"@));
            &&& sum > 0 ==> (after.usage matches Some(u) && u.used_tokens == sum
                && u.context_window is None)
            &&& sum == 0 ==> after.usage == t.usage
        }),
{
    lemma_last_assistant(messages, i);
}

/// An export has its messages and its title under `data`.
pub proof fn exports_are_read(body: JsonV, data: JsonV, messages: Seq<JsonV>, title: Seq<char>)
    requires
        body.get("data"@) == Some(data),
    ensures
        data.get("messages"@) == Some(JsonV::Array(messages)) ==> exported(body) == messages,
        data.get("messages"@) is None ==> exported(body).len() == 0,
        data.member("info"@).get("title"@) == Some(JsonV::Str(title)) ==> exported_title(body)
            == Some(title),
{
}

/// Only tokens that cannot be counted are in the way of an end: without a
/// message of the assistant there are none, and those of its last message are
/// no more than they add up to.
pub proof fn countable_turns_end(messages: Seq<JsonV>, i: int)
    ensures
        (forall|j: int|
            0 <= j < messages.len() ==> (#[trigger] messages[j]).str_at("type"@) != Some(
                "assistant"@,
            )) ==> finish_in_range(messages),
        0 <= i < messages.len() && messages[i].str_at("type"@) == Some("assistant"@) && (forall|
            j: int,
        |
            i < j < messages.len() ==> (#[trigger] messages[j]).str_at("type"@) != Some(
                "assistant"@,
            )) && used_tokens(messages[i]) <= u64::MAX ==> finish_in_range(messages),
{
    if forall|j: int|
        0 <= j < messages.len() ==> (#[trigger] messages[j]).str_at("type"@) != Some(
            "assistant"@,
        ) {
        lemma_assistants(messages, 0);
        if assistants(messages).len() > 0 {
            let m = assistants(messages)[0];
            assert(messages.contains(m));
            let k = choose|k: int| 0 <= k < messages.len() && messages[k] == m;
            assert(messages[k].str_at("type"@) == Some("assistant"@));
        }
    }
    if 0 <= i < messages.len() && messages[i].str_at("type"@) == Some("assistant"@) && (forall|
        j: int,
    |
        i < j < messages.len() ==> (#[trigger] messages[j]).str_at("type"@) != Some(
            "assistant"@,
        )) {
        lemma_last_assistant(messages, i);
    }
}

/// An error without a message of its own is told as it reads, and where that
/// is not known, that there was one.
pub proof fn wordless_errors_are_told(error: JsonV, shown: Seq<char>)
    requires
        error.str_at("message"@) is None,
    ensures
        error_text(error, Some(shown)) == shown,
        error_text(error, None) == "OpenCode reported an error"@,
{
}

} // verus!
