//! A turn of the second generation, which is polled: its pending requests and
//! forms, and when it is over.

use vstd::prelude::*;

use crate::cards;
use crate::collections::StrSet;
use crate::config::OpenCodeVersion;
use crate::document;
use crate::events;
use crate::export;
use crate::forms;
use crate::json;
use crate::json::{Json, JsonV};
use crate::requests;
use crate::requests::{HttpRequest, RequestV};
use crate::session;
use crate::setup;
use crate::setup::{SetupError, SetupErrorV};
use crate::text;
use crate::turn;
use crate::turn::{TurnCtx, TurnV};
use crate::wire;
use crate::wire::{DeliveryState, PartV, PermissionMode, PromptV, WirePrompt};

verus! {

broadcast use json::group_json;

// ---------------------------------------------------------------------------
// Permissions
// ---------------------------------------------------------------------------

/// What is shown of a permission request: its metadata, or else what it is
/// about and what it says.
pub open spec fn permission_detail(item: JsonV) -> JsonV {
    match cards::non_null(item.get("metadata"@)) {
        Some(metadata) => metadata,
        None => json::object2(
            "resources"@,
            item.member("resources"@),
            "message"@,
            item.member("message"@),
        ),
    }
}

/// The card of a pending permission request.
pub open spec fn pending_card(item: JsonV, id: Seq<char>) -> PromptV {
    PromptV {
        kind: "permission"@,
        tool: item.str_at("action"@),
        tool_input: Some(permission_detail(item)),
        native_id: Some(id),
        ..wire::blank_prompt()
    }
}

/// A request to grant: its id, and the card to show if it cannot be granted.
pub type GrantV = (Seq<char>, PromptV);

/// The models of requests to grant.
pub open spec fn grant_models(v: Seq<(String, WirePrompt)>) -> Seq<GrantV> {
    Seq::new(v.len(), |i: int| (v[i].0@, v[i].1@))
}

/// What a run over pending requests knows: the turn, the cards that were
/// shown, and the requests to grant.
#[verifier::ext_equal]
pub struct DrainV {
    pub turn: TurnV,
    pub shown: Set<Seq<char>>,
    pub grants: Seq<GrantV>,
}

/// A card is shown, unless it was shown before.
pub open spec fn show_once(d: DrainV, id: Seq<char>, card: PromptV) -> DrainV {
    if d.shown.contains(id) {
        d
    } else {
        DrainV { turn: session::surfaced(d.turn, card), shown: d.shown.insert(id), ..d }
    }
}

/// One pending permission request: it is granted, or a card is shown that was
/// not shown before. One without an id is passed over.
pub open spec fn drain_permission(d: DrainV, item: JsonV) -> DrainV {
    match item.str_at("id"@) {
        Some(id) => if d.turn.permission_mode == Some(PermissionMode::Auto) {
            DrainV { grants: d.grants.push((id, pending_card(item, id))), ..d }
        } else {
            show_once(d, id, pending_card(item, id))
        },
        None => d,
    }
}

/// The pending permission requests, one after the other.
pub open spec fn drain_all(d: DrainV, items: Seq<JsonV>) -> DrainV
    decreases items.len(),
{
    if items.len() == 0 {
        d
    } else {
        drain_permission(drain_all(d, items.drop_last()), items.last())
    }
}

fn make_card(item: &Json, id: &str) -> (r: WirePrompt)
    ensures
        r@ == pending_card(item@, id@),
{
    let null: Json = Json::Null;
    let detail: Json = match cards::copy_non_null(item.get("metadata")) {
        Some(metadata) => metadata,
        None => document::make_object2(
            "resources",
            events::member_or(item, "resources", &null).copy(),
            "message",
            events::member_or(item, "message", &null).copy(),
        ),
    };
    let mut card: WirePrompt = WirePrompt::default();
    card.kind = "permission".to_owned();
    card.tool = item.text_at("action");
    card.tool_input = Some(detail);
    card.native_id = Some(id.to_owned());
    card
}

/// Go through the pending permission requests: those to grant. In a session
/// that asks, new ones are shown instead.
pub fn drain_permissions(ctx: &mut TurnCtx, answer: &Json, surfaced: &mut StrSet) -> (r: Vec<
    (String, WirePrompt),
>)
    ensures
        (DrainV { turn: final(ctx)@, shown: final(surfaced)@, grants: grant_models(r@) })
            == drain_all(
            DrainV { turn: old(ctx)@, shown: old(surfaced)@, grants: Seq::empty() },
            export::listed_items(answer@),
        ),
{
    let items: Vec<&Json> = export::data_array(answer);
    let ghost all = export::ref_models(items@);
    let ghost start = DrainV { turn: ctx@, shown: surfaced@, grants: Seq::empty() };
    let auto: bool = cards::opencode_auto_approve(ctx.permission_mode);
    let mut grants: Vec<(String, WirePrompt)> = Vec::new();
    let mut i: usize = 0;
    assert(all.take(0) =~= Seq::empty());
    assert(grant_models(grants@) =~= Seq::empty());
    while i < items.len()
        invariant
            i <= items@.len(),
            all == export::ref_models(items@),
            auto == (ctx@.permission_mode == Some(PermissionMode::Auto)),
            (DrainV { turn: ctx@, shown: surfaced@, grants: grant_models(grants@) }) == drain_all(
                start,
                all.take(i as int),
            ),
        decreases items@.len() - i,
    {
        let item: &Json = items[i];
        assert(all.take(i + 1).drop_last() =~= all.take(i as int));
        assert(all.take(i + 1).last() == item@);
        match item.str_at("id") {
            Some(id) => {
                if auto {
                    let ghost before = grant_models(grants@);
                    let card: WirePrompt = make_card(item, id);
                    let id: String = id.to_owned();
                    grants.push((id, card));
                    assert(grant_models(grants@) =~= before.push((id@, card@)));
                } else if surfaced.insert(id) {
                    session::surface_card(ctx, make_card(item, id));
                } else {
                    assert(surfaced@ =~= drain_all(start, all.take(i as int)).shown);
                }
            },
            None => {},
        }
        i += 1;
    }
    assert(all.take(i as int) =~= all);
    grants
}

// ---------------------------------------------------------------------------
// Forms
// ---------------------------------------------------------------------------

/// One pending form: a card is shown that was not shown before. One without
/// an id is passed over.
pub open spec fn drain_form(d: DrainV, form: JsonV) -> DrainV {
    match form.str_at("id"@) {
        Some(id) => if d.shown.contains(id) {
            d
        } else {
            DrainV {
                turn: match forms::form_prompt(form) {
                    Some(card) => session::surfaced(d.turn, card),
                    None => d.turn,
                },
                shown: d.shown.insert(id),
                ..d
            }
        },
        None => d,
    }
}

/// The pending forms, one after the other.
pub open spec fn drain_every_form(d: DrainV, pending: Seq<JsonV>) -> DrainV
    decreases pending.len(),
{
    if pending.len() == 0 {
        d
    } else {
        drain_form(drain_every_form(d, pending.drop_last()), pending.last())
    }
}

/// Go through the pending forms: new ones are shown, whatever the session's
/// policy.
pub fn drain_forms(ctx: &mut TurnCtx, answer: &Json, surfaced: &mut StrSet)
    ensures
        (DrainV { turn: final(ctx)@, shown: final(surfaced)@, grants: Seq::empty() })
            == drain_every_form(
            DrainV { turn: old(ctx)@, shown: old(surfaced)@, grants: Seq::empty() },
            export::listed_items(answer@),
        ),
{
    let items: Vec<&Json> = export::data_array(answer);
    let ghost all = export::ref_models(items@);
    let ghost start = DrainV { turn: ctx@, shown: surfaced@, grants: Seq::empty() };
    let mut i: usize = 0;
    assert(all.take(0) =~= Seq::empty());
    while i < items.len()
        invariant
            i <= items@.len(),
            all == export::ref_models(items@),
            start.grants == Seq::<GrantV>::empty(),
            (DrainV { turn: ctx@, shown: surfaced@, grants: Seq::empty() }) == drain_every_form(
                start,
                all.take(i as int),
            ),
        decreases items@.len() - i,
    {
        let form: &Json = items[i];
        assert(all.take(i + 1).drop_last() =~= all.take(i as int));
        assert(all.take(i + 1).last() == form@);
        match form.str_at("id") {
            Some(id) => {
                if surfaced.insert(id) {
                    match forms::v2_form_card(form) {
                        Some(card) => {
                            session::surface_card(ctx, card);
                        },
                        None => {},
                    }
                } else {
                    assert(surfaced@ =~= drain_every_form(start, all.take(i as int)).shown);
                }
            },
            None => {},
        }
        i += 1;
    }
    assert(all.take(i as int) =~= all);
}

/// The answer lists something that is pending.
pub fn v2_pending(answer: &Json) -> (r: bool)
    ensures
        r == (export::listed_items(answer@).len() > 0),
{
    let items: Vec<&Json> = export::data_array(answer);
    assert(export::ref_models(items@).len() == items@.len());
    items.len() > 0
}

// ---------------------------------------------------------------------------
// The loop
// ---------------------------------------------------------------------------

/// What waiting for the session came to.
#[derive(Debug)]
pub enum WaitOutcome {
    /// The session is idle.
    Idle,
    /// The session is still at work, as far as can be told.
    Busy,
    /// The session cannot be waited for.
    Failed(SetupError),
}

/// What waiting for the session came to. No answer in time, and a failure that
/// may pass, leave it at work.
pub open spec fn wait_result(
    answer: Option<(u16, Option<Seq<char>>)>,
) -> Result<bool, SetupErrorV> {
    match answer {
        None => Ok(false),
        Some((status, retry_after)) => if setup::is_success(status) {
            Ok(true)
        } else if setup::is_transient(status) {
            Ok(false)
        } else {
            match setup::response_result(status, retry_after) {
                Ok(_) => Ok(true),
                Err(e) => Err(e),
            }
        },
    }
}

/// The model of a [`WaitOutcome`].
pub open spec fn wait_model(w: WaitOutcome) -> Result<bool, SetupErrorV> {
    match w {
        WaitOutcome::Idle => Ok(true),
        WaitOutcome::Busy => Ok(false),
        WaitOutcome::Failed(e) => Err(e@),
    }
}

/// The status and the header of an answer.
pub open spec fn answer_model(a: Option<(u16, Option<&str>)>) -> Option<
    (u16, Option<Seq<char>>),
> {
    match a {
        Some((status, retry_after)) => Some((status, text::opt_str(retry_after))),
        None => None,
    }
}

/// What waiting for the session came to, given the status and the header of
/// the answer, or no answer in time.
pub fn wait_outcome(answer: Option<(u16, Option<&str>)>) -> (r: WaitOutcome)
    ensures
        wait_model(r) == wait_result(answer_model(answer)),
{
    match answer {
        None => WaitOutcome::Busy,
        Some((status, retry_after)) => {
            if setup::success(status) {
                WaitOutcome::Idle
            } else if setup::transient(status) {
                WaitOutcome::Busy
            } else {
                match setup::opencode_setup_response(status, retry_after) {
                    Ok(_) => WaitOutcome::Idle,
                    Err(e) => WaitOutcome::Failed(e),
                }
            }
        },
    }
}

/// How many milliseconds a turn pauses while something is pending.
pub const PAUSE_MS: u64 = 500;

/// How many seconds a session is waited for at a time.
pub const WAIT_SECONDS: u64 = 30;

/// Where a polled turn is.
#[derive(Debug)]
pub enum PollPhase {
    /// The pending permission requests are to be read.
    Permissions,
    /// These requests are to be granted, the first one now.
    Granting(Vec<(String, WirePrompt)>),
    /// The pending forms are to be read.
    Forms,
    /// The session is to be waited for.
    Wait,
    /// The transcript is to be read; the session was idle or not.
    Export(bool),
    /// An idle session: is a permission pending?
    PendingPermissions,
    /// An idle session without a pending permission: is a form pending?
    PendingForms,
    /// An idle session with something pending: a pause.
    Pause,
    /// The turn is over: its transcript is to be read a last time.
    LastExport,
    /// The transcript is merged: it is to be read for how the turn ended.
    Conclude,
    /// Nothing is left to do.
    Over,
}

/// The model of a [`PollPhase`].
#[verifier::ext_equal]
pub enum PhaseV {
    Permissions,
    Granting(Seq<GrantV>),
    Forms,
    Wait,
    Export(bool),
    PendingPermissions,
    PendingForms,
    Pause,
    LastExport,
    Conclude,
    Over,
}

impl View for PollPhase {
    type V = PhaseV;

    open spec fn view(&self) -> PhaseV {
        match *self {
            PollPhase::Permissions => PhaseV::Permissions,
            PollPhase::Granting(grants) => PhaseV::Granting(grant_models(grants@)),
            PollPhase::Forms => PhaseV::Forms,
            PollPhase::Wait => PhaseV::Wait,
            PollPhase::Export(idle) => PhaseV::Export(idle),
            PollPhase::PendingPermissions => PhaseV::PendingPermissions,
            PollPhase::PendingForms => PhaseV::PendingForms,
            PollPhase::Pause => PhaseV::Pause,
            PollPhase::LastExport => PhaseV::LastExport,
            PollPhase::Conclude => PhaseV::Conclude,
            PollPhase::Over => PhaseV::Over,
        }
    }
}

/// What happened to a polled turn.
#[derive(Debug)]
pub enum PollEvent {
    /// A document was read.
    Read(Json),
    /// A permission was granted.
    Granted,
    /// A permission could not be granted.
    Refused,
    /// The session was waited for, and is idle or not.
    Waited(bool),
    /// The pause is over.
    Paused,
}

/// The model of a [`PollEvent`].
#[verifier::ext_equal]
pub enum EventV {
    Read(JsonV),
    Granted,
    Refused,
    Waited(bool),
    Paused,
}

impl View for PollEvent {
    type V = EventV;

    open spec fn view(&self) -> EventV {
        match *self {
            PollEvent::Read(doc) => EventV::Read(doc@),
            PollEvent::Granted => EventV::Granted,
            PollEvent::Refused => EventV::Refused,
            PollEvent::Waited(idle) => EventV::Waited(idle),
            PollEvent::Paused => EventV::Paused,
        }
    }
}

/// A polled turn.
#[verifier::ext_equal]
pub struct PollV {
    pub turn: TurnV,
    pub shown: Set<Seq<char>>,
    pub phase: PhaseV,
}

/// Requests to grant, and then the forms.
pub open spec fn granting(grants: Seq<GrantV>) -> PhaseV {
    if grants.len() > 0 {
        PhaseV::Granting(grants)
    } else {
        PhaseV::Forms
    }
}

/// The requests behind the first one, and then the forms.
pub open spec fn next_grant(grants: Seq<GrantV>) -> PhaseV {
    if grants.len() > 1 {
        PhaseV::Granting(grants.drop_first())
    } else {
        PhaseV::Forms
    }
}

/// What an event does to a polled turn, and how the turn ended if it did. An
/// event that does not belong to the phase does nothing.
pub open spec fn poll_effect(p: PollV, event: EventV, started: i64) -> (PollV, Option<
    Option<Seq<char>>,
>) {
    match (p.phase, event) {
        (PhaseV::Permissions, EventV::Read(doc)) => {
            let d = drain_all(
                DrainV { turn: p.turn, shown: p.shown, grants: Seq::empty() },
                export::listed_items(doc),
            );
            (PollV { turn: d.turn, shown: d.shown, phase: granting(d.grants) }, None)
        },
        (PhaseV::Granting(grants), EventV::Granted) => (
            PollV { phase: next_grant(grants), ..p },
            None,
        ),
        (PhaseV::Granting(grants), EventV::Refused) => {
            let d = DrainV { turn: p.turn, shown: p.shown, grants };
            let after = if grants.len() > 0 {
                show_once(d, grants[0].0, grants[0].1)
            } else {
                d
            };
            (PollV { turn: after.turn, shown: after.shown, phase: next_grant(grants) }, None)
        },
        (PhaseV::Forms, EventV::Read(doc)) => {
            let d = drain_every_form(
                DrainV { turn: p.turn, shown: p.shown, grants: Seq::empty() },
                export::listed_items(doc),
            );
            (PollV { turn: d.turn, shown: d.shown, phase: PhaseV::Wait }, None)
        },
        (PhaseV::Wait, EventV::Waited(idle)) => (PollV { phase: PhaseV::Export(idle), ..p }, None),
        (PhaseV::Export(idle), EventV::Read(doc)) => (
            PollV {
                turn: export::merged(p.turn, export::exported(doc), started),
                phase: if idle {
                    PhaseV::PendingPermissions
                } else {
                    PhaseV::Permissions
                },
                ..p
            },
            None,
        ),
        (PhaseV::PendingPermissions, EventV::Read(doc)) => (
            PollV {
                phase: if export::listed_items(doc).len() > 0 {
                    PhaseV::Pause
                } else {
                    PhaseV::PendingForms
                },
                ..p
            },
            None,
        ),
        (PhaseV::PendingForms, EventV::Read(doc)) => (
            PollV {
                phase: if export::listed_items(doc).len() > 0 {
                    PhaseV::Pause
                } else {
                    PhaseV::LastExport
                },
                ..p
            },
            None,
        ),
        (PhaseV::Pause, EventV::Paused) => (PollV { phase: PhaseV::Permissions, ..p }, None),
        (PhaseV::LastExport, EventV::Read(doc)) => (
            PollV {
                turn: export::merged(p.turn, export::exported(doc), started),
                phase: PhaseV::Conclude,
                ..p
            },
            None,
        ),
        (PhaseV::Conclude, EventV::Read(doc)) => {
            let (after, error) = export::finished(
                p.turn,
                export::exported(doc),
                export::exported_title(doc),
                started,
            );
            (PollV { turn: after, phase: PhaseV::Over, ..p }, Some(error))
        },
        _ => (p, None),
    }
}

/// The tokens that the event is about can be counted.
pub open spec fn poll_in_range(phase: PhaseV, event: EventV) -> bool {
    phase is Conclude ==> (event matches EventV::Read(doc) ==> export::finish_in_range(
        export::exported(doc),
    ))
}

/// The tokens that the event is about can be counted.
pub fn event_counts(phase: &PollPhase, event: &PollEvent) -> (r: bool)
    ensures
        r == poll_in_range(phase@, event@),
{
    match (phase, event) {
        (PollPhase::Conclude, PollEvent::Read(doc)) => {
            let messages: Vec<Json> = export::export_messages(doc);
            export::export_in_range(&messages)
        },
        _ => true,
    }
}

/// How a turn ended.
pub open spec fn ending(r: Option<Result<(), String>>) -> Option<Option<Seq<char>>> {
    match r {
        Some(Ok(_)) => Some(None),
        Some(Err(e)) => Some(Some(e@)),
        None => None,
    }
}

fn grant_phase(grants: Vec<(String, WirePrompt)>) -> (r: PollPhase)
    ensures
        r@ == granting(grant_models(grants@)),
{
    assert(grant_models(grants@).len() == grants@.len());
    if grants.len() > 0 {
        PollPhase::Granting(grants)
    } else {
        PollPhase::Forms
    }
}

/// Show the card of a request that could not be granted.
fn show_refused(ctx: &mut TurnCtx, surfaced: &mut StrSet, id: &str, card: WirePrompt)
    ensures
        forall|grants: Seq<GrantV>|
            (DrainV { turn: final(ctx)@, shown: final(surfaced)@, grants }) == #[trigger] show_once(
                DrainV { turn: old(ctx)@, shown: old(surfaced)@, grants },
                id@,
                card@,
            ),
{
    let ghost before = surfaced@;
    if surfaced.insert(id) {
        session::surface_card(ctx, card);
    } else {
        assert(surfaced@ =~= before);
    }
}

/// Deal with what happened to a polled turn: the phase it is in then, and how
/// it ended if it did.
pub fn run_turn_v2(
    ctx: &mut TurnCtx,
    surfaced: &mut StrSet,
    phase: PollPhase,
    event: PollEvent,
    turn_started_at: i64,
) -> (r: (PollPhase, Option<Result<(), String>>))
    requires
        poll_in_range(phase@, event@),
    ensures
        (PollV { turn: final(ctx)@, shown: final(surfaced)@, phase: r.0@ }, ending(r.1))
            == poll_effect(
            PollV { turn: old(ctx)@, shown: old(surfaced)@, phase: phase@ },
            event@,
            turn_started_at,
        ),
{
    match (phase, event) {
        (PollPhase::Permissions, PollEvent::Read(doc)) => {
            let grants: Vec<(String, WirePrompt)> = drain_permissions(ctx, &doc, surfaced);
            (grant_phase(grants), None)
        },
        (PollPhase::Granting(grants), PollEvent::Granted) => {
            let ghost all = grant_models(grants@);
            let mut rest: Vec<(String, WirePrompt)> = grants;
            if rest.len() > 0 {
                let _ = rest.remove(0);
            }
            assert(all.len() > 0 ==> grant_models(rest@) =~= all.drop_first());
            assert(grant_models(rest@).len() == rest@.len());
            (grant_phase(rest), None)
        },
        (PollPhase::Granting(grants), PollEvent::Refused) => {
            let ghost all = grant_models(grants@);
            let mut rest: Vec<(String, WirePrompt)> = grants;
            if rest.len() > 0 {
                let (id, card): (String, WirePrompt) = rest.remove(0);
                assert(all[0] == (id@, card@));
                show_refused(ctx, surfaced, id.as_str(), card);
            }
            assert(all.len() > 0 ==> grant_models(rest@) =~= all.drop_first());
            assert(grant_models(rest@).len() == rest@.len());
            (grant_phase(rest), None)
        },
        (PollPhase::Forms, PollEvent::Read(doc)) => {
            drain_forms(ctx, &doc, surfaced);
            (PollPhase::Wait, None)
        },
        (PollPhase::Wait, PollEvent::Waited(idle)) => (PollPhase::Export(idle), None),
        (PollPhase::Export(idle), PollEvent::Read(doc)) => {
            let messages: Vec<Json> = export::export_messages(&doc);
            export::merge_v2_export(ctx, &messages, turn_started_at);
            if idle {
                (PollPhase::PendingPermissions, None)
            } else {
                (PollPhase::Permissions, None)
            }
        },
        (PollPhase::PendingPermissions, PollEvent::Read(doc)) => {
            if v2_pending(&doc) {
                (PollPhase::Pause, None)
            } else {
                (PollPhase::PendingForms, None)
            }
        },
        (PollPhase::PendingForms, PollEvent::Read(doc)) => {
            if v2_pending(&doc) {
                (PollPhase::Pause, None)
            } else {
                (PollPhase::LastExport, None)
            }
        },
        (PollPhase::Pause, PollEvent::Paused) => (PollPhase::Permissions, None),
        (PollPhase::LastExport, PollEvent::Read(doc)) => {
            let messages: Vec<Json> = export::export_messages(&doc);
            export::merge_v2_export(ctx, &messages, turn_started_at);
            (PollPhase::Conclude, None)
        },
        (PollPhase::Conclude, PollEvent::Read(doc)) => {
            let messages: Vec<Json> = export::export_messages(&doc);
            let ended: Result<(), String> = export::finish_v2_turn(
                ctx,
                &messages,
                export::export_title(&doc),
                turn_started_at,
            );
            (PollPhase::Over, Some(ended))
        },
        (phase, _) => (phase, None),
    }
}

/// What a phase asks of the server, where it is not the transcript.
pub open spec fn phase_request(phase: PhaseV, base: Seq<char>, session: Seq<char>) -> Option<
    RequestV,
> {
    let read = |rest: Seq<char>|
        Some(RequestV { url: requests::session_url(base, session, rest), body: None });
    match phase {
        PhaseV::Permissions => read("/permission"@),
        PhaseV::PendingPermissions => read("/permission"@),
        PhaseV::Forms => read("/form"@),
        PhaseV::PendingForms => read("/form"@),
        PhaseV::Wait => Some(
            requests::posting(
                requests::session_url(base, session, "/wait"@),
                requests::empty_object(),
            ),
        ),
        PhaseV::Granting(grants) => if grants.len() > 0 {
            Some(
                requests::permission_reply(
                    base,
                    OpenCodeVersion::V2,
                    session,
                    grants[0].0,
                    "always"@,
                ),
            )
        } else {
            None
        },
        _ => None,
    }
}

fn read_request(base: &str, native_id: &str, rest: &str) -> (r: Option<HttpRequest>)
    ensures
        requests::opt_request(r) == Some(
            (RequestV { url: requests::session_url(base@, native_id@, rest@), body: None }),
        ),
{
    Some(HttpRequest { url: requests::v2_url(base, native_id, rest), body: None })
}

/// What a phase asks of the server, where it is not the transcript.
pub fn poll_request(phase: &PollPhase, base: &str, native_id: &str) -> (r: Option<HttpRequest>)
    ensures
        requests::opt_request(r) == phase_request(phase@, base@, native_id@),
{
    match phase {
        PollPhase::Permissions => read_request(base, native_id, "/permission"),
        PollPhase::PendingPermissions => read_request(base, native_id, "/permission"),
        PollPhase::Forms => read_request(base, native_id, "/form"),
        PollPhase::PendingForms => read_request(base, native_id, "/form"),
        PollPhase::Wait => Some(requests::wait_request(base, native_id)),
        PollPhase::Granting(grants) => {
            assert(grant_models(grants@).len() == grants@.len());
            if grants.len() > 0 {
                assert(grant_models(grants@)[0].0 == grants@[0].0@);
                Some(
                    requests::post_permission(
                        base,
                        OpenCodeVersion::V2,
                        native_id,
                        grants[0].0.as_str(),
                        "always",
                    ),
                )
            } else {
                None
            }
        },
        _ => None,
    }
}

/// The agent took the prompt.
pub fn prompt_admitted(ctx: &mut TurnCtx)
    ensures
        final(ctx)@ == (TurnV {
            delivery: DeliveryState::Accepted,
            retry: None,
            ..old(ctx)@
        }),
{
    ctx.mark_delivery(DeliveryState::Accepted);
    ctx.clear_retry_status();
}

// ---------------------------------------------------------------------------
// Laws
// ---------------------------------------------------------------------------

proof fn lemma_drained(d: DrainV, items: Seq<JsonV>)
    requires
        d.turn.permission_mode != Some(PermissionMode::Auto),
    ensures
        drain_all(d, items).turn.permission_mode == d.turn.permission_mode,
        drain_all(d, items).grants == d.grants,
        d.shown.subset_of(drain_all(d, items).shown),
        forall|i: int|
            0 <= i < items.len() ==> ((#[trigger] items[i]).str_at("id"@) matches Some(id)
                ==> drain_all(d, items).shown.contains(id)),
    decreases items.len(),
{
    if items.len() > 0 {
        let init = items.drop_last();
        lemma_drained(d, init);
        assert forall|i: int| 0 <= i < items.len() implies ((#[trigger] items[i]).str_at("id"@)
            matches Some(id) ==> drain_all(d, items).shown.contains(id)) by {
            if i < init.len() {
                assert(init[i] == items[i]);
            }
        }
    }
}

proof fn lemma_all_shown(d: DrainV, items: Seq<JsonV>)
    requires
        d.turn.permission_mode != Some(PermissionMode::Auto),
        forall|i: int|
            0 <= i < items.len() ==> ((#[trigger] items[i]).str_at("id"@) matches Some(id)
                ==> d.shown.contains(id)),
    ensures
        drain_all(d, items) == d,
    decreases items.len(),
{
    if items.len() > 0 {
        let init = items.drop_last();
        assert forall|i: int| 0 <= i < init.len() implies ((#[trigger] init[i]).str_at("id"@)
            matches Some(id) ==> d.shown.contains(id)) by {
            assert(init[i] == items[i]);
        }
        lemma_all_shown(d, init);
        assert(items[items.len() - 1] == items.last());
    }
}

proof fn lemma_forms_drained(d: DrainV, items: Seq<JsonV>)
    ensures
        drain_every_form(d, items).turn.permission_mode == d.turn.permission_mode,
        drain_every_form(d, items).grants == d.grants,
        d.shown.subset_of(drain_every_form(d, items).shown),
        forall|i: int|
            0 <= i < items.len() ==> ((#[trigger] items[i]).str_at("id"@) matches Some(id)
                ==> drain_every_form(d, items).shown.contains(id)),
    decreases items.len(),
{
    if items.len() > 0 {
        let init = items.drop_last();
        lemma_forms_drained(d, init);
        assert forall|i: int| 0 <= i < items.len() implies ((#[trigger] items[i]).str_at("id"@)
            matches Some(id) ==> drain_every_form(d, items).shown.contains(id)) by {
            if i < init.len() {
                assert(init[i] == items[i]);
            }
        }
    }
}

/// A card is shown once: going through the same permission requests again
/// shows nothing, in a session that asks.
pub proof fn permissions_are_shown_once(d: DrainV, items: Seq<JsonV>)
    requires
        d.turn.permission_mode != Some(PermissionMode::Auto),
    ensures
        drain_all(drain_all(d, items), items) == drain_all(d, items),
{
    lemma_drained(d, items);
    lemma_all_shown(drain_all(d, items), items);
}

proof fn lemma_forms_shown(d: DrainV, items: Seq<JsonV>)
    requires
        forall|i: int|
            0 <= i < items.len() ==> ((#[trigger] items[i]).str_at("id"@) matches Some(id)
                ==> d.shown.contains(id)),
    ensures
        drain_every_form(d, items) == d,
    decreases items.len(),
{
    if items.len() > 0 {
        let init = items.drop_last();
        assert forall|i: int| 0 <= i < init.len() implies ((#[trigger] init[i]).str_at("id"@)
            matches Some(id) ==> d.shown.contains(id)) by {
            assert(init[i] == items[i]);
        }
        lemma_forms_shown(d, init);
        assert(items[items.len() - 1] == items.last());
    }
}

/// A card is shown once: going through the same forms again shows nothing.
pub proof fn forms_are_shown_once(d: DrainV, pending: Seq<JsonV>)
    ensures
        drain_every_form(drain_every_form(d, pending), pending) == drain_every_form(d, pending),
{
    lemma_forms_drained(d, pending);
    lemma_forms_shown(drain_every_form(d, pending), pending);
}

/// The requests that have an id, each with its card.
pub open spec fn requests_with_ids(items: Seq<JsonV>) -> Seq<GrantV>
    decreases items.len(),
{
    if items.len() == 0 {
        Seq::empty()
    } else {
        match items.last().str_at("id"@) {
            Some(id) => requests_with_ids(items.drop_last()).push(
                (id, pending_card(items.last(), id)),
            ),
            None => requests_with_ids(items.drop_last()),
        }
    }
}

/// In a session that approves, every permission request is to be granted, in
/// order, and no card is shown.
pub proof fn approving_sessions_show_no_permissions(d: DrainV, items: Seq<JsonV>)
    requires
        d.turn.permission_mode == Some(PermissionMode::Auto),
    ensures
        drain_all(d, items) == (DrainV { grants: d.grants + requests_with_ids(items), ..d }),
    decreases items.len(),
{
    if items.len() > 0 {
        approving_sessions_show_no_permissions(d, items.drop_last());
        assert(drain_all(d, items).grants =~= d.grants + requests_with_ids(items));
    } else {
        assert(d.grants + requests_with_ids(items) =~= d.grants);
    }
}

/// A request that could not be granted does not end the turn: its card has
/// been shown, and the requests behind it are granted next.
pub proof fn refused_grants_are_shown(p: PollV, started: i64)
    requires
        p.phase matches PhaseV::Granting(grants) && grants.len() > 0,
    ensures
        ({
            let grants = p.phase->Granting_0;
            let (after, ended) = poll_effect(p, EventV::Refused, started);
            &&& ended is None
            &&& after.phase == next_grant(grants)
            &&& after.shown == p.shown.insert(grants[0].0)
            &&& !p.shown.contains(grants[0].0) ==> after.turn == session::surfaced(
                p.turn,
                grants[0].1,
            )
            &&& p.shown.contains(grants[0].0) ==> after.turn == p.turn
        }),
{
    assert(p.shown.contains(p.phase->Granting_0[0].0) ==> p.shown.insert(
        p.phase->Granting_0[0].0,
    ) =~= p.shown);
}

/// A turn ends only once the session was idle and neither a permission nor a
/// form was pending, so a request that comes late keeps it alive.
pub proof fn pending_requests_keep_the_turn(p: PollV, event: EventV, started: i64)
    ensures
        ({
            let (after, ended) = poll_effect(p, event, started);
            &&& ended is Some ==> p.phase is Conclude
            &&& after.phase is Conclude && !(p.phase is Conclude) ==> p.phase is LastExport
            &&& after.phase is LastExport && !(p.phase is LastExport) ==> p.phase is PendingForms
                && (event matches EventV::Read(doc) && export::listed_items(doc).len() == 0)
            &&& after.phase is PendingForms && !(p.phase is PendingForms) ==> p.phase
                is PendingPermissions && (event matches EventV::Read(doc) && export::listed_items(
                doc,
            ).len() == 0)
            &&& after.phase is PendingPermissions && !(p.phase is PendingPermissions) ==> p.phase
                == PhaseV::Export(true)
            &&& after.phase == PhaseV::Export(true) && p.phase != PhaseV::Export(true) ==> p.phase
                is Wait && event == EventV::Waited(true)
        }),
{
}

proof fn lemma_details()
    ensures
        "resources"@ != "message"@,
{
    reveal_strlit("resources");
    reveal_strlit("message");
    assert("resources"@.len() != "message"@.len());
}

/// Reading a list of pending permissions that has one more at its end does
/// what reading the list without it does, and then, in a session that asks,
/// shows the card of that one, if it was not shown before: a part under the
/// request's id, at once. The card names the action. It shows the request's
/// metadata as it is, and only where there is none what the request is about
/// and what it says.
pub proof fn pending_permissions_show_their_metadata(
    p: PollV,
    shorter: JsonV,
    doc: JsonV,
    item: JsonV,
    id: Seq<char>,
    started: i64,
)
    requires
        p.phase is Permissions,
        p.turn.permission_mode != Some(PermissionMode::Auto),
        export::listed_items(doc) == export::listed_items(shorter).push(item),
        item.str_at("id"@) == Some(id),
    ensures
        ({
            let before = poll_effect(p, EventV::Read(shorter), started).0;
            let (after, ended) = poll_effect(p, EventV::Read(doc), started);
            let card = pending_card(item, id);
            let part = PartV {
                id,
                kind: "prompt"@,
                text: None,
                tool: None,
                state: None,
                prompt: Some(card),
                children: Seq::empty(),
            };
            &&& ended is None
            &&& after.phase is Forms
            &&& after.shown.contains(id)
            &&& before.shown.contains(id) ==> after == before
            &&& !before.shown.contains(id) ==> after.turn == (TurnV {
                parts: turn::upsert(before.turn.parts, part),
                flush: turn::Flush::Now,
                ..before.turn
            })
            &&& card.kind == "permission"@
            &&& card.tool == item.str_at("action"@)
            &&& card.native_id == Some(id)
            &&& card.question is None
            &&& card.header is None
            &&& card.options.len() == 0
            &&& !card.multi_select
            &&& !card.plan_exit
            &&& item.get("metadata"@) is Some && item.get("metadata"@) != Some(JsonV::Null)
                ==> card.tool_input == item.get("metadata"@)
            &&& item.get("metadata"@) is None || item.get("metadata"@) == Some(JsonV::Null) ==> (
            card.tool_input matches Some(told) && told.member("resources"@) == item.member(
                "resources"@,
            ) && told.member("message"@) == item.member("message"@))
        }),
{
    lemma_details();
    let items = export::listed_items(doc);
    let d = DrainV { turn: p.turn, shown: p.shown, grants: Seq::empty() };
    assert(items.drop_last() =~= export::listed_items(shorter));
    lemma_drained(d, items);
    lemma_drained(d, items.drop_last());
    let what = item.member("resources"@);
    let said = item.member("message"@);
    json::find_after_bind(seq![("resources"@, what)], "message"@, said, "resources"@);
    reveal_with_fuel(json::find, 2);
}

/// A pending permission that is polled and one that is streamed make the same
/// card, if they have the same id, name the same permission and carry the same
/// metadata.
pub proof fn polled_cards_are_streamed_cards(item: JsonV, props: JsonV, id: Seq<char>)
    requires
        item.str_at("id"@) == Some(id),
        props.str_at("id"@) == Some(id),
        item.str_at("action"@) == props.str_at("permission"@),
        item.get("metadata"@) == props.get("metadata"@),
        item.get("metadata"@) is Some,
        item.get("metadata"@) != Some(JsonV::Null),
    ensures
        cards::permission_prompt(props) == Some(pending_card(item, id)),
{
}

/// In a session that approves, reading a list of pending permissions shows no
/// card. The requests with an id are granted in order, each for as long as the
/// session lasts, by a reply under its id; then the forms are read.
pub proof fn approving_sessions_grant_in_order(
    p: PollV,
    doc: JsonV,
    item: JsonV,
    rest: Seq<JsonV>,
    id: Seq<char>,
    started: i64,
    base: Seq<char>,
    session: Seq<char>,
)
    requires
        p.phase is Permissions,
        p.turn.permission_mode == Some(PermissionMode::Auto),
        export::listed_items(doc) == seq![item] + rest,
        item.str_at("id"@) == Some(id),
    ensures
        ({
            let after = poll_effect(p, EventV::Read(doc), started).0;
            let next = poll_effect(after, EventV::Granted, started).0;
            let read_rest = poll_effect(p, EventV::Read(JsonV::Array(rest)), started).0;
            let asked = phase_request(after.phase, base, session);
            &&& after.turn == p.turn && after.shown == p.shown
            &&& asked matches Some(r) && r.url == base + "/api/session/"@ + session
                + "/permission/"@ + id + "/reply"@ && (r.body matches Some(body) && body.str_at(
                "reply"@,
            ) == Some("always"@))
            &&& next == read_rest
        }),
{
    let d = DrainV { turn: p.turn, shown: p.shown, grants: Seq::empty() };
    let items = seq![item] + rest;
    assert(export::listed_items(JsonV::Array(rest)) == rest);
    approving_sessions_show_no_permissions(d, items);
    approving_sessions_show_no_permissions(d, rest);
    lemma_first_request(item, rest, id);
    let grants = requests_with_ids(items);
    let others = requests_with_ids(rest);
    assert(grants =~= seq![(id, pending_card(item, id))] + others);
    assert(d.grants + grants =~= grants);
    assert(d.grants + others =~= others);
    assert(grants.drop_first() =~= others);
    reveal_with_fuel(json::find, 2);
}

proof fn lemma_first_request(item: JsonV, rest: Seq<JsonV>, id: Seq<char>)
    requires
        item.str_at("id"@) == Some(id),
    ensures
        requests_with_ids(seq![item] + rest) == seq![(id, pending_card(item, id))]
            + requests_with_ids(rest),
    decreases rest.len(),
{
    let items = seq![item] + rest;
    if rest.len() == 0 {
        assert(items =~= seq![item]);
        assert(items.drop_last() =~= Seq::empty());
        reveal_with_fuel(requests_with_ids, 2);
        assert(requests_with_ids(items) =~= seq![(id, pending_card(item, id))]
            + requests_with_ids(rest));
    } else {
        lemma_first_request(item, rest.drop_last(), id);
        assert(items.drop_last() =~= seq![item] + rest.drop_last());
        assert(items.last() == rest.last());
        assert(requests_with_ids(items) =~= seq![(id, pending_card(item, id))]
            + requests_with_ids(rest));
    }
}

/// Reading a list of pending forms that has one more at its end does what
/// reading the list without it does, and then shows that form's card, if it was
/// not shown before, whatever the session's policy. The session is waited for
/// next.
pub proof fn pending_forms_are_shown(
    p: PollV,
    shorter: JsonV,
    doc: JsonV,
    form: JsonV,
    id: Seq<char>,
    started: i64,
)
    requires
        p.phase is Forms,
        export::listed_items(doc) == export::listed_items(shorter).push(form),
        form.str_at("id"@) == Some(id),
    ensures
        ({
            let before = poll_effect(p, EventV::Read(shorter), started).0;
            let (after, ended) = poll_effect(p, EventV::Read(doc), started);
            let part = PartV {
                id,
                kind: "prompt"@,
                text: None,
                tool: None,
                state: None,
                prompt: forms::form_prompt(form),
                children: Seq::empty(),
            };
            &&& ended is None
            &&& after.phase is Wait
            &&& after.shown.contains(id)
            &&& before.shown.contains(id) ==> after == before
            &&& !before.shown.contains(id) ==> after.turn == (TurnV {
                parts: turn::upsert(before.turn.parts, part),
                flush: turn::Flush::Now,
                ..before.turn
            })
        }),
{
    let items = export::listed_items(doc);
    let d = DrainV { turn: p.turn, shown: p.shown, grants: Seq::empty() };
    assert(items.drop_last() =~= export::listed_items(shorter));
    lemma_forms_drained(d, items);
    lemma_forms_drained(d, items.drop_last());
}

/// A list answer is a list under `data`, or the list itself.
pub proof fn lists_are_read_either_way(items: Seq<JsonV>, doc: JsonV)
    ensures
        export::listed_items(JsonV::Array(items)) == items,
        doc.get("data"@) == Some(JsonV::Array(items)) ==> export::listed_items(doc) == items,
        doc is Object && doc.get("data"@) is None ==> export::listed_items(doc).len() == 0,
{
}

/// A turn goes round: permissions, forms, waiting, the transcript. While the
/// session is at work it starts over. Once it is idle, it pauses and starts
/// over if a permission or a form is pending, and otherwise reads the
/// transcript, merges it, and ends.
pub proof fn a_turn_goes_round(p: PollV, doc: JsonV, started: i64, idle: bool)
    ensures
        ({
            let pending = export::listed_items(doc).len() > 0;
            let after = poll_effect(p, EventV::Read(doc), started).0;
            &&& p.phase is Permissions ==> after.phase is Forms || after.phase is Granting
            &&& p.phase is Forms ==> after.phase is Wait
            &&& p.phase is Wait ==> poll_effect(p, EventV::Waited(idle), started) == (
                (PollV { phase: PhaseV::Export(idle), ..p }),
                None::<Option<Seq<char>>>,
            )
            &&& p.phase == PhaseV::Export(true) ==> after.phase is PendingPermissions
            &&& p.phase == PhaseV::Export(false) ==> after.phase is Permissions
            &&& p.phase is PendingPermissions && pending ==> after == (PollV {
                phase: PhaseV::Pause,
                ..p
            })
            &&& p.phase is PendingPermissions && !pending ==> after == (PollV {
                phase: PhaseV::PendingForms,
                ..p
            })
            &&& p.phase is PendingForms && pending ==> after == (PollV {
                phase: PhaseV::Pause,
                ..p
            })
            &&& p.phase is PendingForms && !pending ==> after == (PollV {
                phase: PhaseV::LastExport,
                ..p
            })
            &&& p.phase is Pause ==> poll_effect(p, EventV::Paused, started) == (
                (PollV { phase: PhaseV::Permissions, ..p }),
                None::<Option<Seq<char>>>,
            )
            &&& p.phase is LastExport ==> after.phase is Conclude
            &&& p.phase is Conclude ==> after.phase is Over && poll_effect(
                p,
                EventV::Read(doc),
                started,
            ).1 is Some
            &&& p.phase is Export || p.phase is LastExport || p.phase is Conclude ==> after.shown
                == p.shown
        }),
{
}

/// A transcript is merged the same way while the session is at work, once it
/// is idle, and when the turn ends.
pub proof fn transcripts_are_always_merged(p: PollV, q: PollV, doc: JsonV, started: i64)
    requires
        p.phase is Export || p.phase is LastExport,
        q.phase is Export || q.phase is LastExport,
        p.turn == q.turn,
    ensures
        ({
            let turn = poll_effect(p, EventV::Read(doc), started).0.turn;
            &&& turn == poll_effect(q, EventV::Read(doc), started).0.turn
            &&& turn == export::merged(
                p.turn,
                doc.member("data"@).items_at("messages"@),
                started,
            )
        }),
{
}

/// Waiting for a session: an answer that succeeds says it is idle; none in
/// time, and one that may pass (a timeout, too many requests, a failure of the
/// server), leave it at work; any other ends the wait with its status.
pub proof fn waits_end_by_their_status(status: u16, retry_after: Option<Seq<char>>)
    ensures
        wait_result(None) == Ok::<bool, SetupErrorV>(false),
        200 <= status < 300 ==> wait_result(Some((status, retry_after))) == Ok::<bool, SetupErrorV>(
            true,
        ),
        status == 408 || status == 429 || 500 <= status < 600 ==> wait_result(
            Some((status, retry_after)),
        ) == Ok::<bool, SetupErrorV>(false),
        !(200 <= status < 300) && status != 408 && status != 429 && !(500 <= status < 600) ==> (
        wait_result(Some((status, retry_after))) matches Err(e) && e is Http && e->Http_status
            == status),
{
}

/// What is asked of the server: whether a permission or a form is pending is
/// asked where pending ones are read, in the session's own place; waiting is a
/// post with nothing in it. Nothing is asked while the turn pauses or once it
/// is over.
pub proof fn phases_ask_in_the_session(base: Seq<char>, session: Seq<char>)
    ensures
        ({
            let at = base + "/api/session/"@ + session;
            &&& phase_request(PhaseV::Permissions, base, session) == Some(
                (RequestV { url: at + "/permission"@, body: None }),
            )
            &&& phase_request(PhaseV::PendingPermissions, base, session) == phase_request(
                PhaseV::Permissions,
                base,
                session,
            )
            &&& phase_request(PhaseV::Forms, base, session) == Some(
                (RequestV { url: at + "/form"@, body: None }),
            )
            &&& phase_request(PhaseV::PendingForms, base, session) == phase_request(
                PhaseV::Forms,
                base,
                session,
            )
            &&& phase_request(PhaseV::Wait, base, session) == Some(
                (RequestV { url: at + "/wait"@, body: Some(JsonV::Object(Seq::empty())) }),
            )
            &&& phase_request(PhaseV::Pause, base, session) is None
            &&& phase_request(PhaseV::Over, base, session) is None
        }),
{
}

/// Only the end of a turn counts tokens: every other step can be taken.
pub proof fn only_the_end_counts(phase: PhaseV, event: EventV)
    ensures
        phase !is Conclude ==> poll_in_range(phase, event),
        event !is Read ==> poll_in_range(phase, event),
        event matches EventV::Read(doc) ==> (export::finish_in_range(
            doc.member("data"@).items_at("messages"@),
        ) ==> poll_in_range(phase, event)),
{
}

} // verus!
