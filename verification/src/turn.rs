//! The state of one chat turn: the transcript so far and what is known about
//! the turn, with the operations that change it.

use vstd::prelude::*;

use crate::text;
use crate::wire;
use crate::wire::{ContextUsage, DeliveryState, PartV, PermissionMode, WirePart};

verus! {

broadcast use wire::lemma_children;

/// When the transcript should be written out.
#[derive(Debug, Clone, Copy, PartialEq, Eq, Structural)]
pub enum Flush {
    No,
    /// At the next convenient moment.
    Soon,
    /// Before anything else happens.
    Now,
}

/// What the user is told while a request is retried.
#[derive(Debug)]
pub struct RetryStatus {
    pub source: String,
    pub message: String,
    pub attempt: i64,
    pub max_attempts: Option<i64>,
    pub next_at_ms: Option<i64>,
}

/// The model of a [`RetryStatus`].
#[verifier::ext_equal]
pub struct RetryV {
    pub source: Seq<char>,
    pub message: Seq<char>,
    pub attempt: i64,
    pub max_attempts: Option<i64>,
    pub next_at_ms: Option<i64>,
}

impl View for RetryStatus {
    type V = RetryV;

    open spec fn view(&self) -> RetryV {
        RetryV {
            source: self.source@,
            message: self.message@,
            attempt: self.attempt,
            max_attempts: self.max_attempts,
            next_at_ms: self.next_at_ms,
        }
    }
}

/// Why a turn ended without a reply.
#[derive(Debug)]
pub struct TerminalFailure {
    pub code: String,
    pub message: String,
}

/// The model of a [`TerminalFailure`].
#[verifier::ext_equal]
pub struct FailureV {
    pub code: Seq<char>,
    pub message: Seq<char>,
}

impl View for TerminalFailure {
    type V = FailureV;

    open spec fn view(&self) -> FailureV {
        FailureV { code: self.code@, message: self.message@ }
    }
}

/// The assistant's message of a turn.
#[derive(Debug)]
pub struct AssistantMessage {
    pub parts: Vec<WirePart>,
}

/// One chat turn.
#[derive(Debug)]
pub struct TurnCtx {
    pub text: String,
    pub model: Option<String>,
    pub reasoning_level: Option<String>,
    pub plan_mode: bool,
    pub permission_mode: Option<PermissionMode>,
    pub native_session_id: Option<String>,
    pub assistant: AssistantMessage,
    pub delivery: DeliveryState,
    pub context_usage: Option<ContextUsage>,
    pub retry: Option<RetryStatus>,
    pub title: Option<String>,
    pub errors: Vec<String>,
    pub failure: Option<TerminalFailure>,
    pub native_retry_exhausted: bool,
    pub flush: Flush,
}

/// The model of a [`TurnCtx`].
#[verifier::ext_equal]
pub struct TurnV {
    pub text: Seq<char>,
    pub model: Option<Seq<char>>,
    pub reasoning_level: Option<Seq<char>>,
    pub plan_mode: bool,
    pub permission_mode: Option<PermissionMode>,
    pub native_session_id: Option<Seq<char>>,
    pub parts: Seq<PartV>,
    pub delivery: DeliveryState,
    pub usage: Option<ContextUsage>,
    pub retry: Option<RetryV>,
    pub title: Option<Seq<char>>,
    pub errors: Seq<Seq<char>>,
    pub failure: Option<FailureV>,
    pub native_retry_exhausted: bool,
    pub flush: Flush,
}

impl View for TurnCtx {
    type V = TurnV;

    open spec fn view(&self) -> TurnV {
        TurnV {
            text: self.text@,
            model: text::opt_text(self.model),
            reasoning_level: text::opt_text(self.reasoning_level),
            plan_mode: self.plan_mode,
            permission_mode: self.permission_mode,
            native_session_id: text::opt_text(self.native_session_id),
            parts: wire::part_models(self.assistant.parts@),
            delivery: self.delivery,
            usage: self.context_usage,
            retry: match self.retry {
                Some(r) => Some(r@),
                None => None,
            },
            title: text::opt_text(self.title),
            errors: text::texts(self.errors@),
            failure: match self.failure {
                Some(f) => Some(f@),
                None => None,
            },
            native_retry_exhausted: self.native_retry_exhausted,
            flush: self.flush,
        }
    }
}

// ---------------------------------------------------------------------------
// Transcript operations
// ---------------------------------------------------------------------------

/// The position of the first part with this id, or the number of parts.
pub open spec fn part_index(parts: Seq<PartV>, id: Seq<char>) -> int
    decreases parts.len(),
{
    if parts.len() == 0 || parts[0].id == id {
        0
    } else {
        1 + part_index(parts.drop_first(), id)
    }
}

/// The parts with `part` in place of the one with its id, or at the end.
pub open spec fn upsert(parts: Seq<PartV>, part: PartV) -> Seq<PartV> {
    let i = part_index(parts, part.id);
    if i < parts.len() {
        parts.update(i, part)
    } else {
        parts.push(part)
    }
}

/// As [`upsert`], but a part that is replaced passes its children on.
pub open spec fn upsert_keeping(parts: Seq<PartV>, part: PartV) -> Seq<PartV> {
    let i = part_index(parts, part.id);
    if i < parts.len() {
        parts.update(i, PartV { children: parts[i].children, ..part })
    } else {
        parts.push(part)
    }
}

/// The parts with `child` upserted among the children of `owner`.
pub open spec fn upsert_child(parts: Seq<PartV>, owner: Seq<char>, child: PartV) -> Seq<PartV> {
    let i = part_index(parts, owner);
    if i < parts.len() {
        parts.update(i, PartV { children: upsert(parts[i].children, child), ..parts[i] })
    } else {
        parts
    }
}

/// The part with `delta` at the end of its text.
pub open spec fn with_more_text(part: PartV, delta: Seq<char>) -> PartV {
    PartV {
        text: Some(
            match part.text {
                Some(t) => t + delta,
                None => delta,
            },
        ),
        ..part
    }
}

/// The parts with `delta` at the end of the text of the part `id`, which is
/// started if there is none.
pub open spec fn append_text(parts: Seq<PartV>, id: Seq<char>, delta: Seq<char>) -> Seq<PartV> {
    let i = part_index(parts, id);
    if i < parts.len() {
        parts.update(i, with_more_text(parts[i], delta))
    } else {
        parts.push(wire::text_part(id, delta))
    }
}

/// The parts with `delta` at the end of the text of `owner`'s child `id`.
pub open spec fn append_child_text(
    parts: Seq<PartV>,
    owner: Seq<char>,
    id: Seq<char>,
    delta: Seq<char>,
) -> Seq<PartV> {
    let i = part_index(parts, owner);
    if i < parts.len() {
        parts.update(
            i,
            PartV { children: append_text(parts[i].children, id, delta), ..parts[i] },
        )
    } else {
        parts
    }
}

/// A part's position is that of the first part with its id.
pub proof fn lemma_part_index(parts: Seq<PartV>, id: Seq<char>)
    ensures
        0 <= part_index(parts, id) <= parts.len(),
        part_index(parts, id) < parts.len() ==> parts[part_index(parts, id)].id == id,
        forall|j: int| 0 <= j < part_index(parts, id) ==> (#[trigger] parts[j]).id != id,
    decreases parts.len(),
{
    if parts.len() == 0 || parts[0].id == id {
    } else {
        lemma_part_index(parts.drop_first(), id);
        assert forall|j: int| 0 <= j < part_index(parts, id) implies (#[trigger] parts[j]).id
            != id by {
            if j > 0 {
                assert(parts.drop_first()[j - 1] == parts[j]);
            }
        }
    }
}

/// Find a part.
fn find_part(parts: &Vec<WirePart>, id: &str) -> (r: usize)
    ensures
        r <= parts@.len(),
        r == part_index(wire::part_models(parts@), id@),
{
    let ghost all = wire::part_models(parts@);
    let mut i: usize = 0;
    assert(all.skip(0) =~= all);
    while i < parts.len()
        invariant
            i <= parts@.len(),
            all == wire::part_models(parts@),
            part_index(all, id@) == i + part_index(all.skip(i as int), id@),
        decreases parts@.len() - i,
    {
        assert(all.skip(i as int)[0] == parts@[i as int]@);
        if text::str_eq(parts[i].id.as_str(), id) {
            return i;
        }
        assert(all.skip(i as int).drop_first() =~= all.skip(i + 1));
        i += 1;
    }
    i
}

/// Put a part in place of the one with its id, or at the end.
pub fn upsert_in(parts: &mut Vec<WirePart>, part: WirePart)
    ensures
        wire::part_models(final(parts)@) == upsert(wire::part_models(old(parts)@), part@),
{
    let ghost before = wire::part_models(parts@);
    let i: usize = find_part(parts, part.id.as_str());
    if i < parts.len() {
        parts.set(i, part);
        assert(wire::part_models(parts@) =~= before.update(i as int, part@));
    } else {
        parts.push(part);
        assert(wire::part_models(parts@) =~= before.push(part@));
    }
}

/// Append to the text of a part, which is started if there is none.
pub fn append_text_in(parts: &mut Vec<WirePart>, id: &str, delta: &str)
    ensures
        wire::part_models(final(parts)@) == append_text(
            wire::part_models(old(parts)@),
            id@,
            delta@,
        ),
{
    let ghost before = wire::part_models(parts@);
    let i: usize = find_part(parts, id);
    if i < parts.len() {
        let ghost whole = parts@;
        let mut part: WirePart = parts.remove(i);
        let ghost was = part@;
        let grown: String = match &part.text {
            Some(t) => text::concat2(t.as_str(), delta),
            None => delta.to_owned(),
        };
        part.text = Some(grown);
        assert(part@ =~= with_more_text(was, delta@));
        parts.insert(i, part);
        assert(parts@ =~= whole.update(i as int, part));
        assert(wire::part_models(parts@) =~= before.update(i as int, part@));
    } else {
        parts.push(WirePart::text(id, delta));
        assert(wire::part_models(parts@) =~= before.push(wire::text_part(id@, delta@)));
    }
}

impl TurnCtx {
    /// A turn in which nothing has happened.
    pub fn new() -> (r: TurnCtx)
        ensures
            r@ == (TurnV {
                text: Seq::empty(),
                model: None,
                reasoning_level: None,
                plan_mode: false,
                permission_mode: None,
                native_session_id: None,
                parts: Seq::empty(),
                delivery: DeliveryState::NotSent,
                usage: None,
                retry: None,
                title: None,
                errors: Seq::empty(),
                failure: None,
                native_retry_exhausted: false,
                flush: Flush::No,
            }),
    {
        let r: TurnCtx = TurnCtx {
            text: String::new(),
            model: None,
            reasoning_level: None,
            plan_mode: false,
            permission_mode: None,
            native_session_id: None,
            assistant: AssistantMessage { parts: Vec::new() },
            delivery: DeliveryState::NotSent,
            context_usage: None,
            retry: None,
            title: None,
            errors: Vec::new(),
            failure: None,
            native_retry_exhausted: false,
            flush: Flush::No,
        };
        assert(r@.parts =~= Seq::empty());
        assert(r@.errors =~= Seq::empty());
        r
    }

    /// What is known of the message's delivery.
    pub fn delivery_state(&self) -> (r: DeliveryState)
        ensures
            r == self@.delivery,
    {
        self.delivery
    }

    /// Record what is known of the message's delivery.
    pub fn mark_delivery(&mut self, state: DeliveryState)
        ensures
            final(self)@ == (TurnV { delivery: state, ..old(self)@ }),
    {
        self.delivery = state;
    }

    /// Tell the user that a request is being retried.
    pub fn show_retry_status(
        &mut self,
        source: &str,
        message: &str,
        attempt: i64,
        max_attempts: Option<i64>,
        next_at_ms: Option<i64>,
    )
        ensures
            final(self)@ == (TurnV {
                retry: Some(
                    RetryV { source: source@, message: message@, attempt, max_attempts, next_at_ms },
                ),
                ..old(self)@
            }),
    {
        self.retry =
        Some(
            RetryStatus {
                source: source.to_owned(),
                message: message.to_owned(),
                attempt,
                max_attempts,
                next_at_ms,
            },
        );
    }

    /// Nothing is being retried any more.
    pub fn clear_retry_status(&mut self)
        ensures
            final(self)@ == (TurnV { retry: None, ..old(self)@ }),
    {
        self.retry = None;
    }

    /// Report the context in use.
    pub fn report_usage(&mut self, usage: ContextUsage)
        ensures
            final(self)@ == (TurnV { usage: Some(usage), ..old(self)@ }),
    {
        self.context_usage = Some(usage);
    }

    /// Name the chat.
    pub fn set_title(&mut self, title: &str)
        ensures
            final(self)@ == (TurnV { title: Some(title@), ..old(self)@ }),
    {
        self.title = Some(title.to_owned());
    }

    /// Note the agent's own session id.
    pub fn set_native_session_id(&mut self, id: &str)
        ensures
            final(self)@ == (TurnV { native_session_id: Some(id@), ..old(self)@ }),
    {
        self.native_session_id = Some(id.to_owned());
    }

    /// Show an error to the user.
    pub fn push_error(&mut self, message: &str)
        ensures
            final(self)@ == (TurnV { errors: old(self)@.errors.push(message@), ..old(self)@ }),
    {
        let ghost before = self@.errors;
        self.errors.push(message.to_owned());
        assert(self@.errors =~= before.push(message@));
    }

    /// The turn ends here, with this reason.
    pub fn mark_terminal_failure(&mut self, code: &str, message: &str)
        ensures
            final(self)@ == (TurnV {
                failure: Some(FailureV { code: code@, message: message@ }),
                ..old(self)@
            }),
    {
        self.failure = Some(TerminalFailure { code: code.to_owned(), message: message.to_owned() });
    }

    /// The agent has given up retrying on its side.
    pub fn mark_native_retry_exhausted(&mut self)
        ensures
            final(self)@ == (TurnV { native_retry_exhausted: true, ..old(self)@ }),
    {
        self.native_retry_exhausted = true;
    }

    /// Write the transcript out soon.
    pub fn maybe_flush(&mut self)
        ensures
            final(self)@ == (TurnV { flush: soon(old(self)@.flush), ..old(self)@ }),
    {
        if self.flush == Flush::No {
            self.flush = Flush::Soon;
        }
    }

    /// Write the transcript out now.
    pub fn flush_now(&mut self)
        ensures
            final(self)@ == (TurnV { flush: Flush::Now, ..old(self)@ }),
    {
        self.flush = Flush::Now;
    }

    /// Put a part in place of the one with its id, or at the end.
    pub fn upsert_part(&mut self, part: WirePart)
        ensures
            final(self)@ == (TurnV { parts: upsert(old(self)@.parts, part@), ..old(self)@ }),
    {
        upsert_in(&mut self.assistant.parts, part);
    }

    /// As [`TurnCtx::upsert_part`], but a part that is replaced passes its
    /// children on.
    pub fn upsert_part_preserving_children(&mut self, part: WirePart)
        ensures
            final(self)@ == (TurnV { parts: upsert_keeping(old(self)@.parts, part@), ..old(self)@ }),
    {
        let ghost before = self@.parts;
        let i: usize = find_part(&self.assistant.parts, part.id.as_str());
        if i < self.assistant.parts.len() {
            let ghost whole = self.assistant.parts@;
            let old_part: WirePart = self.assistant.parts.remove(i);
            let ghost was = old_part@;
            let ghost given = part@;
            let mut merged: WirePart = part;
            merged.children = old_part.children;
            assert(merged@ =~= (PartV { children: was.children, ..given }));
            self.assistant.parts.insert(i, merged);
            assert(self.assistant.parts@ =~= whole.update(i as int, merged));
            assert(self@.parts =~= before.update(i as int, merged@));
        } else {
            self.assistant.parts.push(part);
            assert(self@.parts =~= before.push(part@));
        }
    }

    /// Upsert a part among the children of another.
    pub fn upsert_child(&mut self, owner: &str, child: WirePart)
        ensures
            final(self)@ == (TurnV {
                parts: upsert_child(old(self)@.parts, owner@, child@),
                ..old(self)@
            }),
    {
        let ghost before = self@.parts;
        let i: usize = find_part(&self.assistant.parts, owner);
        if i < self.assistant.parts.len() {
            let ghost whole = self.assistant.parts@;
            let mut part: WirePart = self.assistant.parts.remove(i);
            let ghost was = part@;
            upsert_in(&mut part.children, child);
            assert(part@ =~= (PartV { children: upsert(was.children, child@), ..was }));
            self.assistant.parts.insert(i, part);
            assert(self.assistant.parts@ =~= whole.update(i as int, part));
            assert(self@.parts =~= before.update(i as int, part@));
        }
    }

    /// Append to the text of a part, which is started if there is none.
    pub fn append_part_text(&mut self, id: &str, delta: &str)
        ensures
            final(self)@ == (TurnV {
                parts: append_text(old(self)@.parts, id@, delta@),
                ..old(self)@
            }),
    {
        append_text_in(&mut self.assistant.parts, id, delta);
    }

    /// Append to the text of a child of another part; the child is started if
    /// there is none.
    pub fn append_child_text(&mut self, owner: &str, id: &str, delta: &str)
        ensures
            final(self)@ == (TurnV {
                parts: append_child_text(old(self)@.parts, owner@, id@, delta@),
                ..old(self)@
            }),
    {
        let ghost before = self@.parts;
        let i: usize = find_part(&self.assistant.parts, owner);
        if i < self.assistant.parts.len() {
            let ghost whole = self.assistant.parts@;
            let mut part: WirePart = self.assistant.parts.remove(i);
            let ghost was = part@;
            append_text_in(&mut part.children, id, delta);
            assert(part@ =~= (PartV { children: append_text(was.children, id@, delta@), ..was }));
            self.assistant.parts.insert(i, part);
            assert(self.assistant.parts@ =~= whole.update(i as int, part));
            assert(self@.parts =~= before.update(i as int, part@));
        }
    }
}

/// A request to write the transcript out soon gives way to one to do it now.
pub open spec fn soon(flush: Flush) -> Flush {
    match flush {
        Flush::No => Flush::Soon,
        _ => flush,
    }
}

// ---------------------------------------------------------------------------
// Laws
// ---------------------------------------------------------------------------

/// No two parts have the same id.
pub open spec fn distinct_ids(parts: Seq<PartV>) -> bool {
    forall|i: int, j: int|
        0 <= i < j < parts.len() ==> (#[trigger] parts[i]).id != (#[trigger] parts[j]).id
}

/// A part that was put in can be found under its id, as it was put in, and
/// every other part stays as it was.
pub proof fn upserted_part_is_found(parts: Seq<PartV>, part: PartV)
    ensures
        ({
            let after = upsert(parts, part);
            let i = part_index(after, part.id);
            &&& 0 <= i < after.len()
            &&& after[i] == part
            &&& i == part_index(parts, part.id)
            &&& forall|j: int| 0 <= j < parts.len() && j != i ==> #[trigger] after[j] == parts[j]
        }),
{
    let after = upsert(parts, part);
    lemma_part_index(parts, part.id);
    lemma_part_index(after, part.id);
    let i = part_index(parts, part.id);
    let k = part_index(after, part.id);
    assert(after[i].id == part.id);
    if k < i {
        assert(after[k] == parts[k]);
    }
    if i < k {
        assert(after[i].id != part.id);
    }
}

/// Upserting never makes an id occur twice, so a poll that reports a part
/// again changes it in place.
pub proof fn upsert_keeps_ids_distinct(parts: Seq<PartV>, part: PartV)
    requires
        distinct_ids(parts),
    ensures
        distinct_ids(upsert(parts, part)),
        distinct_ids(upsert_keeping(parts, part)),
{
    lemma_part_index(parts, part.id);
    let i = part_index(parts, part.id);
    let kept = PartV { children: parts[i].children, ..part };
    if i < parts.len() {
        assert forall|a: int, b: int| 0 <= a < b < parts.len() implies (#[trigger] parts.update(
            i,
            part,
        )[a]).id != (#[trigger] parts.update(i, part)[b]).id by {
            assert(parts[a].id != parts[b].id);
        }
        assert forall|a: int, b: int| 0 <= a < b < parts.len() implies (#[trigger] parts.update(
            i,
            kept,
        )[a]).id != (#[trigger] parts.update(i, kept)[b]).id by {
            assert(parts[a].id != parts[b].id);
        }
    }
}

/// Reporting the same part twice is the same as reporting it once.
pub proof fn upsert_is_idempotent(parts: Seq<PartV>, part: PartV)
    ensures
        upsert(upsert(parts, part), part) == upsert(parts, part),
{
    upserted_part_is_found(parts, part);
    let after = upsert(parts, part);
    let i = part_index(after, part.id);
    assert(after.update(i, part) =~= after);
}

/// The merge at the end of a turn keeps what a sub-agent has streamed into a
/// part: its children survive.
pub proof fn final_merge_keeps_children(parts: Seq<PartV>, part: PartV)
    requires
        part_index(parts, part.id) < parts.len(),
    ensures
        ({
            let i = part_index(parts, part.id);
            let after = upsert_keeping(parts, part);
            &&& after.len() == parts.len()
            &&& after[i].children == parts[i].children
            &&& after[i] == (PartV { children: parts[i].children, ..part })
        }),
{
    lemma_part_index(parts, part.id);
}

// ---------------------------------------------------------------------------
// Reporting many parts
// ---------------------------------------------------------------------------

/// The parts with others upserted one after the other.
pub open spec fn upsert_all(parts: Seq<PartV>, more: Seq<PartV>) -> Seq<PartV>
    decreases more.len(),
{
    if more.len() == 0 {
        parts
    } else {
        upsert(upsert_all(parts, more.drop_last()), more.last())
    }
}

/// The last of some parts that has this id.
pub open spec fn last_with(more: Seq<PartV>, id: Seq<char>) -> Option<PartV>
    decreases more.len(),
{
    if more.len() == 0 {
        None
    } else if more.last().id == id {
        Some(more.last())
    } else {
        last_with(more.drop_last(), id)
    }
}

/// Upserting does not move the parts that are there.
proof fn lemma_upsert_stays(parts: Seq<PartV>, part: PartV, id: Seq<char>)
    requires
        part_index(parts, id) < parts.len(),
    ensures
        part_index(upsert(parts, part), id) == part_index(parts, id),
        id != part.id ==> upsert(parts, part)[part_index(parts, id)] == parts[part_index(
            parts,
            id,
        )],
        upsert(parts, part).len() >= parts.len(),
{
    let after = upsert(parts, part);
    lemma_part_index(parts, id);
    lemma_part_index(parts, part.id);
    lemma_part_index(after, id);
    let i = part_index(parts, id);
    let k = part_index(after, id);
    assert(after[i].id == id);
    if k < i {
        assert(after[k].id == parts[k].id);
    }
    if i < k {
        assert(after[i].id != id);
    }
}

/// Once some parts are reported, each id shows the last part reported under
/// it, and what was not reported stays as it was.
pub proof fn last_report_counts(parts: Seq<PartV>, more: Seq<PartV>, id: Seq<char>)
    ensures
        ({
            let after = upsert_all(parts, more);
            let k = part_index(after, id);
            &&& last_with(more, id) matches Some(v) ==> k < after.len() && after[k] == v
            &&& last_with(more, id) is None && part_index(parts, id) < parts.len() ==> k
                == part_index(parts, id) && k < after.len() && after[k] == parts[k]
        }),
    decreases more.len(),
{
    lemma_part_index(parts, id);
    if more.len() > 0 {
        let init = more.drop_last();
        last_report_counts(parts, init, id);
        let before = upsert_all(parts, init);
        upserted_part_is_found(before, more.last());
        if more.last().id != id && part_index(before, id) < before.len() {
            lemma_upsert_stays(before, more.last(), id);
        }
    }
}

/// Reporting parts that are all there already moves none and adds none.
proof fn lemma_upsert_all_in_place(parts: Seq<PartV>, more: Seq<PartV>)
    requires
        forall|m: int|
            0 <= m < more.len() ==> part_index(parts, (#[trigger] more[m]).id) < parts.len(),
    ensures
        upsert_all(parts, more).len() == parts.len(),
        forall|i: int|
            0 <= i < parts.len() ==> (#[trigger] upsert_all(parts, more)[i]).id == parts[i].id,
        forall|i: int|
            0 <= i < parts.len() && part_index(parts, parts[i].id) != i ==> #[trigger] upsert_all(
                parts,
                more,
            )[i] == parts[i],
    decreases more.len(),
{
    if more.len() > 0 {
        let init = more.drop_last();
        assert forall|m: int| 0 <= m < init.len() implies part_index(
            parts,
            (#[trigger] init[m]).id,
        ) < parts.len() by {
            assert(init[m] == more[m]);
        }
        lemma_upsert_all_in_place(parts, init);
        let before = upsert_all(parts, init);
        lemma_same_ids(parts, before, more.last().id);
        assert(more.last() == more[more.len() - 1]);
        lemma_part_index(parts, more.last().id);
    }
}

/// A position depends on the ids alone.
proof fn lemma_same_ids(a: Seq<PartV>, b: Seq<PartV>, id: Seq<char>)
    requires
        a.len() == b.len(),
        forall|i: int| 0 <= i < a.len() ==> (#[trigger] b[i]).id == a[i].id,
    ensures
        part_index(a, id) == part_index(b, id),
{
    lemma_part_index(a, id);
    lemma_part_index(b, id);
    let i = part_index(a, id);
    let k = part_index(b, id);
    if i < k {
        assert(b[i].id == a[i].id);
    }
    if k < i {
        assert(b[k].id == a[k].id);
    }
}

/// A part that is among the reported ones has a last report.
proof fn lemma_last_with(more: Seq<PartV>, m: int)
    requires
        0 <= m < more.len(),
    ensures
        last_with(more, more[m].id) is Some,
    decreases more.len(),
{
    if more.last().id != more[m].id {
        assert(more.drop_last()[m] == more[m]);
        lemma_last_with(more.drop_last(), m);
    }
}

/// Reporting the same parts twice is the same as reporting them once.
pub proof fn reports_are_idempotent(parts: Seq<PartV>, more: Seq<PartV>)
    ensures
        upsert_all(upsert_all(parts, more), more) == upsert_all(parts, more),
{
    let once = upsert_all(parts, more);
    let twice = upsert_all(once, more);
    assert forall|m: int| 0 <= m < more.len() implies part_index(once, (#[trigger] more[m]).id)
        < once.len() by {
        lemma_last_with(more, m);
        last_report_counts(parts, more, more[m].id);
    }
    lemma_upsert_all_in_place(once, more);
    assert forall|i: int| 0 <= i < once.len() implies #[trigger] twice[i] == once[i] by {
        let id = once[i].id;
        lemma_part_index(once, id);
        lemma_same_ids(once, twice, id);
        if part_index(once, id) == i {
            last_report_counts(parts, more, id);
            last_report_counts(once, more, id);
        }
    }
    assert(twice =~= once);
}

/// Reporting parts in two batches is reporting them in one.
pub proof fn lemma_upsert_batches(parts: Seq<PartV>, a: Seq<PartV>, b: Seq<PartV>)
    ensures
        upsert_all(upsert_all(parts, a), b) == upsert_all(parts, a + b),
    decreases b.len(),
{
    if b.len() == 0 {
        assert(a + b =~= a);
    } else {
        lemma_upsert_batches(parts, a, b.drop_last());
        assert((a + b).drop_last() =~= a + b.drop_last());
        assert((a + b).last() == b.last());
    }
}

// ---------------------------------------------------------------------------
// Streaming into a part
// ---------------------------------------------------------------------------

/// The part at this place is the first with its id.
pub open spec fn stands_at(parts: Seq<PartV>, id: Seq<char>, i: int) -> bool {
    &&& 0 <= i < parts.len()
    &&& parts[i].id == id
    &&& forall|j: int| 0 <= j < i ==> (#[trigger] parts[j]).id != id
}

/// No part has this id.
pub open spec fn stands_nowhere(parts: Seq<PartV>, id: Seq<char>) -> bool {
    forall|j: int| 0 <= j < parts.len() ==> (#[trigger] parts[j]).id != id
}

proof fn lemma_stands(parts: Seq<PartV>, id: Seq<char>, i: int)
    ensures
        stands_at(parts, id, i) ==> part_index(parts, id) == i,
        stands_nowhere(parts, id) ==> part_index(parts, id) == parts.len(),
{
    lemma_part_index(parts, id);
    let k = part_index(parts, id);
    if stands_at(parts, id, i) {
        if k < i {
            assert(parts[k].id != id);
        }
        if i < k {
            assert(parts[i].id != id);
        }
    }
    if stands_nowhere(parts, id) && k < parts.len() {
        assert(parts[k].id != id);
    }
}

/// A part that is reported takes the place of the one with its id, or comes
/// last; nothing else moves, and nothing else is added.
pub proof fn reported_parts_take_their_place(parts: Seq<PartV>, part: PartV, i: int)
    ensures
        stands_at(parts, part.id, i) ==> upsert(parts, part) == parts.update(i, part),
        stands_nowhere(parts, part.id) ==> upsert(parts, part) == parts.push(part),
        stands_at(parts, part.id, i) ==> upsert_keeping(parts, part) == parts.update(
            i,
            PartV { children: parts[i].children, ..part },
        ),
        stands_nowhere(parts, part.id) ==> upsert_keeping(parts, part) == parts.push(part),
{
    lemma_stands(parts, part.id, i);
}

/// Streamed text goes behind the text that is there: the old text is a prefix
/// of the new one, and what was streamed is its suffix. A part that is not
/// there is started with what was streamed. Nothing else changes.
pub proof fn streamed_text_goes_behind(
    parts: Seq<PartV>,
    id: Seq<char>,
    delta: Seq<char>,
    i: int,
)
    ensures
        stands_at(parts, id, i) ==> ({
            let after = append_text(parts, id, delta);
            let old_text = match parts[i].text {
                Some(t) => t,
                None => Seq::empty(),
            };
            &&& after.len() == parts.len()
            &&& after[i].text matches Some(t) && t.len() == old_text.len() + delta.len() && t.take(
                old_text.len() as int,
            ) == old_text && t.skip(old_text.len() as int) == delta
            &&& after[i] == (PartV { text: after[i].text, ..parts[i] })
            &&& forall|j: int| 0 <= j < parts.len() && j != i ==> #[trigger] after[j] == parts[j]
        }),
        stands_nowhere(parts, id) ==> append_text(parts, id, delta) == parts.push(
            PartV {
                id,
                kind: "text"@,
                text: Some(delta),
                tool: None,
                state: None,
                prompt: None,
                children: Seq::empty(),
            },
        ),
{
    lemma_stands(parts, id, i);
    if stands_at(parts, id, i) {
        let after = append_text(parts, id, delta);
        let old_text = match parts[i].text {
            Some(t) => t,
            None => Seq::empty(),
        };
        let t = after[i].text->0;
        assert(t =~= old_text + delta);
        assert(t.take(old_text.len() as int) =~= old_text);
        assert(t.skip(old_text.len() as int) =~= delta);
    }
}

/// The parts after text was streamed into one of them, piece by piece.
pub open spec fn streamed(parts: Seq<PartV>, id: Seq<char>, pieces: Seq<Seq<char>>) -> Seq<PartV>
    decreases pieces.len(),
{
    if pieces.len() == 0 {
        parts
    } else {
        append_text(streamed(parts, id, pieces.drop_last()), id, pieces.last())
    }
}

/// The pieces of a reply, however many, read in the order in which they came:
/// a part that was not there has all of them, one behind the other.
pub proof fn streamed_pieces_read_in_order(
    parts: Seq<PartV>,
    id: Seq<char>,
    pieces: Seq<Seq<char>>,
)
    requires
        stands_nowhere(parts, id),
        pieces.len() > 0,
    ensures
        ({
            let after = streamed(parts, id, pieces);
            &&& after.len() == parts.len() + 1
            &&& after.drop_last() == parts
            &&& after.last().id == id
            &&& after.last().text == Some(pieces.flatten())
        }),
    decreases pieces.len(),
{
    let init = pieces.drop_last();
    let before = streamed(parts, id, init);
    let last = pieces.last();
    let n = parts.len() as int;
    pieces.lemma_flatten_and_flatten_alt_are_equivalent();
    init.lemma_flatten_and_flatten_alt_are_equivalent();
    assert(pieces.flatten() == init.flatten() + last);
    if init.len() == 0 {
        assert(before == parts);
        streamed_text_goes_behind(parts, id, last, 0);
        assert(init.flatten() =~= Seq::empty());
        assert(pieces.flatten() =~= last);
        assert(streamed(parts, id, pieces).drop_last() =~= parts);
    } else {
        streamed_pieces_read_in_order(parts, id, init);
        assert forall|j: int| 0 <= j < n implies (#[trigger] before[j]).id != id by {
            assert(before.drop_last()[j] == before[j]);
            assert(parts[j].id != id);
        }
        assert(before[n] == before.last());
        assert(stands_at(before, id, n));
        streamed_text_goes_behind(before, id, last, n);
        let after = streamed(parts, id, pieces);
        assert(after.drop_last() =~= parts) by {
            assert forall|j: int| 0 <= j < n implies after[j] == parts[j] by {
                assert(before.drop_last()[j] == before[j]);
            }
        }
        assert(after[n].text->0 =~= init.flatten() + last);
    }
}

/// What a sub-agent reports or streams goes among the children of its row, as
/// it would go into a transcript; without the row it goes nowhere.
pub proof fn children_grow_like_transcripts(
    parts: Seq<PartV>,
    owner: Seq<char>,
    child: PartV,
    id: Seq<char>,
    delta: Seq<char>,
    i: int,
)
    ensures
        stands_at(parts, owner, i) ==> {
            &&& upsert_child(parts, owner, child) == parts.update(
                i,
                PartV { children: upsert(parts[i].children, child), ..parts[i] },
            )
            &&& append_child_text(parts, owner, id, delta) == parts.update(
                i,
                PartV { children: append_text(parts[i].children, id, delta), ..parts[i] },
            )
        },
        stands_nowhere(parts, owner) ==> {
            &&& upsert_child(parts, owner, child) == parts
            &&& append_child_text(parts, owner, id, delta) == parts
        },
{
    lemma_stands(parts, owner, i);
}

} // verus!
