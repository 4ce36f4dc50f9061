//! Getting a session of the agent ready for a turn, with retries.

use vstd::prelude::*;

use crate::config::OpenCodeVersion;
use crate::json;
use crate::json::{Json, JsonV};
use crate::requests;
use crate::requests::{Endpoint, HttpRequest, RequestV};
use crate::text;
use crate::turn::{FailureV, RetryV, TurnCtx, TurnV};
use crate::wire::DeliveryState;

verus! {

broadcast use json::group_json;

// ---------------------------------------------------------------------------
// Answers of the server
// ---------------------------------------------------------------------------

/// The status of an answer that succeeded.
pub open spec fn is_success(status: u16) -> bool {
    200 <= status < 300
}

/// A failure that may pass: a timeout, too many requests, or the server's own.
pub open spec fn is_transient(status: u16) -> bool {
    status == 408 || status == 429 || 500 <= status < 600
}

/// The status of an answer that succeeded.
pub fn success(status: u16) -> (r: bool)
    ensures
        r == is_success(status),
{
    200 <= status && status < 300
}

/// A failure that may pass.
pub fn transient(status: u16) -> (r: bool)
    ensures
        r == is_transient(status),
{
    status == 408 || status == 429 || (500 <= status && status < 600)
}

/// What went wrong while a session was got ready.
#[derive(Debug)]
pub enum SetupError {
    /// The server refused, and may have said when to try again (in seconds).
    Http { status: u16, retry_after: Option<u64> },
    /// The request did not get through: the connection failed, the time ran
    /// out, the request could not be sent, or none of these.
    Request { connect: bool, timeout: bool, request: bool, message: String },
    /// The server's answer makes no sense.
    Protocol(String),
    /// Anything else.
    Other(String),
}

/// The model of a [`SetupError`].
#[verifier::ext_equal]
pub enum SetupErrorV {
    Http { status: u16, retry_after: Option<u64> },
    Request { connect: bool, timeout: bool, request: bool, message: Seq<char> },
    Protocol(Seq<char>),
    Other(Seq<char>),
}

impl View for SetupError {
    type V = SetupErrorV;

    open spec fn view(&self) -> SetupErrorV {
        match *self {
            SetupError::Http { status, retry_after } => SetupErrorV::Http { status, retry_after },
            SetupError::Request { connect, timeout, request, message } => SetupErrorV::Request {
                connect,
                timeout,
                request,
                message: message@,
            },
            SetupError::Protocol(m) => SetupErrorV::Protocol(m@),
            SetupError::Other(m) => SetupErrorV::Other(m@),
        }
    }
}

/// What a status code displays as.
pub uninterp spec fn status_display(status: u16) -> Seq<char>;

/// `reqwest::StatusCode::from_u16` and the code's `Display`: the same code
/// always displays the same. Codes of three digits are status codes.
#[verifier::external_body]
fn display_status(status: u16) -> (r: String)
    requires
        100 <= status < 1000,
    ensures
        r@ == status_display(status),
{
    match reqwest::StatusCode::from_u16(status) {
        Ok(code) => code.to_string(),
        Err(_) => String::new(),
    }
}

/// The error has a status code that there is.
pub open spec fn has_valid_status(e: SetupErrorV) -> bool {
    e matches SetupErrorV::Http { status, .. } ==> 100 <= status < 1000
}

/// What is told of an error, given what its status displays as.
pub open spec fn told(e: SetupErrorV, status: Seq<char>) -> Seq<char> {
    match e {
        SetupErrorV::Http { .. } => "OpenCode setup returned HTTP "@ + status,
        SetupErrorV::Request { message, .. } => message,
        SetupErrorV::Protocol(m) => m,
        SetupErrorV::Other(m) => m,
    }
}

/// What is told of an error.
pub open spec fn error_message(e: SetupErrorV) -> Seq<char> {
    match e {
        SetupErrorV::Http { status, .. } => told(e, status_display(status)),
        _ => told(e, Seq::empty()),
    }
}

impl SetupError {
    /// What is told of the error, given what its status displays as.
    pub fn tell(&self, status: &str) -> (r: String)
        ensures
            r@ == told(self@, status@),
    {
        match self {
            SetupError::Http { .. } => text::concat2("OpenCode setup returned HTTP ", status),
            SetupError::Request { message, .. } => message.clone(),
            SetupError::Protocol(m) => m.clone(),
            SetupError::Other(m) => m.clone(),
        }
    }

    /// What is told of the error.
    pub fn message(&self) -> (r: String)
        requires
            has_valid_status(self@),
        ensures
            r@ == error_message(self@),
    {
        match self {
            SetupError::Http { status, .. } => {
                let shown: String = display_status(*status);
                self.tell(shown.as_str())
            },
            _ => self.tell(""),
        }
    }
}

/// The server's answer stands, or is an error with the time after which to
/// try again, if the header holds a number of seconds.
pub open spec fn response_result(status: u16, retry_after: Option<Seq<char>>) -> Result<
    (),
    SetupErrorV,
> {
    if is_success(status) {
        Ok(())
    } else {
        Err(
            SetupErrorV::Http {
                status,
                retry_after: match retry_after {
                    Some(value) => match text::parse_unsigned(value, u64::MAX as nat) {
                        Some(n) => Some(n as u64),
                        None => None,
                    },
                    None => None,
                },
            },
        )
    }
}

/// The server's answer stands, or is an error.
pub fn opencode_setup_response(status: u16, retry_after: Option<&str>) -> (r: Result<
    (),
    SetupError,
>)
    ensures
        match r {
            Ok(_) => response_result(status, text::opt_str(retry_after)) is Ok,
            Err(e) => response_result(status, text::opt_str(retry_after)) == Err::<
                (),
                SetupErrorV,
            >(e@),
        },
{
    if success(status) {
        return Ok(());
    }
    let seconds: Option<u64> = match retry_after {
        Some(value) => text::parse_u64(value),
        None => None,
    };
    Err(SetupError::Http { status, retry_after: seconds })
}

// ---------------------------------------------------------------------------
// One attempt
// ---------------------------------------------------------------------------

/// Told when the agent's server has no port.
pub const NO_PORT: &'static str = "opencode agent has no port";

/// Told when an opened session has no id.
pub const NO_ID: &'static str = "opencode session response had no id";

/// Told when the agent gave no event stream.
pub const NO_STREAM: &'static str = "opencode agent gave no event stream";

/// What an attempt does next.
#[derive(Debug)]
pub enum SetupAction {
    /// Open a session.
    Open(HttpRequest),
    /// Subscribe to the events of the session with this id.
    Subscribe(String, HttpRequest),
    /// The session with this id is ready, and no events are read.
    Ready(String),
}

/// The model of a [`SetupAction`].
#[verifier::ext_equal]
pub enum ActionV {
    Open(RequestV),
    Subscribe(Seq<char>, RequestV),
    Ready(Seq<char>),
}

impl View for SetupAction {
    type V = ActionV;

    open spec fn view(&self) -> ActionV {
        match *self {
            SetupAction::Open(r) => ActionV::Open(r@),
            SetupAction::Subscribe(id, r) => ActionV::Subscribe(id@, r@),
            SetupAction::Ready(id) => ActionV::Ready(id@),
        }
    }
}

/// What follows once there is a session: the first generation has events to
/// read.
pub open spec fn with_session(id: Seq<char>, base: Seq<char>, version: OpenCodeVersion) -> ActionV {
    match version {
        OpenCodeVersion::V1 => ActionV::Subscribe(
            id,
            RequestV { url: base + "/event"@, body: None },
        ),
        OpenCodeVersion::V2 => ActionV::Ready(id),
    }
}

/// How an attempt starts. The live endpoint has to be the one whose port the
/// agent reported. A turn without a session opens one.
pub open spec fn attempt_start(
    t: TurnV,
    live: Option<(u16, Seq<char>, OpenCodeVersion)>,
    port: Option<u16>,
) -> Result<ActionV, SetupErrorV> {
    match live {
        Some((p, base, version)) => if Some(p) == port {
            match t.native_session_id {
                Some(id) => Ok(with_session(id, base, version)),
                None => Ok(ActionV::Open(requests::opening(t, base, version))),
            }
        } else {
            Err(SetupErrorV::Protocol(NO_PORT@))
        },
        None => Err(SetupErrorV::Protocol(NO_PORT@)),
    }
}

/// The id of an opened session: under `data`, or in the answer itself.
pub open spec fn created_id(created: JsonV) -> Option<Seq<char>> {
    match created.member("data"@).get("id"@) {
        Some(id) => id.as_str(),
        None => created.str_at("id"@),
    }
}

/// The model of the result of an attempt.
pub open spec fn action_model(r: Result<SetupAction, SetupError>) -> Result<ActionV, SetupErrorV> {
    match r {
        Ok(a) => Ok(a@),
        Err(e) => Err(e@),
    }
}

fn session_action(id: &str, at: Endpoint) -> (r: SetupAction)
    ensures
        r@ == with_session(id@, at.base@, at.version),
{
    match requests::events_request(at.base, at.version) {
        Some(request) => SetupAction::Subscribe(id.to_owned(), request),
        None => SetupAction::Ready(id.to_owned()),
    }
}

/// The model of a live endpoint with its port.
pub open spec fn live_model(live: Option<(u16, Endpoint)>) -> Option<
    (u16, Seq<char>, OpenCodeVersion),
> {
    match live {
        Some((port, e)) => Some((port, e.base@, e.version)),
        None => None,
    }
}

/// How an attempt starts.
pub fn opencode_setup_attempt(
    ctx: &TurnCtx,
    live: Option<(u16, Endpoint)>,
    port: Option<u16>,
) -> (r: Result<SetupAction, SetupError>)
    ensures
        action_model(r) == attempt_start(ctx@, live_model(live), port),
{
    let at: Endpoint = match (live, port) {
        (Some((p, e)), Some(reported)) => if p == reported {
            e
        } else {
            return Err(SetupError::Protocol(NO_PORT.to_owned()));
        },
        _ => {
            return Err(SetupError::Protocol(NO_PORT.to_owned()));
        },
    };
    match &ctx.native_session_id {
        Some(id) => {
            return Ok(session_action(id.as_str(), at));
        },
        None => {},
    }
    match requests::session_request(ctx, at.base, at.version) {
        Some(request) => Ok(SetupAction::Open(request)),
        None => Err(SetupError::Protocol(NO_ID.to_owned())),
    }
}

/// The turn with the session that was opened for it, and what follows. An
/// answer without an id opens none.
pub open spec fn adopted(
    t: TurnV,
    base: Seq<char>,
    version: OpenCodeVersion,
    created: JsonV,
) -> (TurnV, Result<ActionV, SetupErrorV>) {
    match created_id(created) {
        Some(id) => (
            TurnV { native_session_id: Some(id), ..t },
            Ok(with_session(id, base, version)),
        ),
        None => (t, Err(SetupErrorV::Protocol(NO_ID@))),
    }
}

/// How an attempt goes on once a session was opened: the turn adopts its id.
pub fn session_opened(ctx: &mut TurnCtx, at: Endpoint, created: &Json) -> (r: Result<
    SetupAction,
    SetupError,
>)
    ensures
        (final(ctx)@, action_model(r)) == adopted(old(ctx)@, at.base@, at.version, created@),
{
    let under_data: Option<&Json> = match created.get("data") {
        Some(data) => data.get("id"),
        None => None,
    };
    let found: Option<&str> = match under_data {
        Some(id) => id.as_str(),
        None => created.str_at("id"),
    };
    match found {
        Some(id) => {
            ctx.set_native_session_id(id);
            Ok(session_action(id, at))
        },
        None => Err(SetupError::Protocol(NO_ID.to_owned())),
    }
}

// ---------------------------------------------------------------------------
// Retries
// ---------------------------------------------------------------------------

/// The error may pass, so the attempt is worth repeating.
pub open spec fn is_retryable(e: SetupErrorV) -> bool {
    match e {
        SetupErrorV::Http { status, .. } => is_transient(status),
        SetupErrorV::Request { connect, timeout, request, .. } => connect || timeout || request,
        SetupErrorV::Protocol(_) => false,
        SetupErrorV::Other(_) => true,
    }
}

/// When the server asked to be tried again, in seconds.
pub open spec fn asked_delay(e: SetupErrorV) -> Option<u64> {
    match e {
        SetupErrorV::Http { retry_after, .. } => retry_after,
        _ => None,
    }
}

/// Told when the time for retries has run out during an attempt.
pub const OUT_OF_TIME: &'static str = "OpenCode setup exceeded the ORX retry budget";

/// Told while an attempt is repeated.
pub const RECONNECTING: &'static str = "Reconnecting to OpenCode";

/// What follows an attempt that failed.
#[derive(Clone, Copy, Debug, PartialEq, Eq, Structural)]
pub enum SetupNext {
    /// Try again after so many milliseconds.
    Wait(u64),
    /// The turn has failed.
    GiveUp,
}

impl SetupError {
    /// Whether the attempt is worth repeating, and when the server asked for
    /// that.
    pub fn retry_wish(&self) -> (r: (bool, Option<u64>))
        ensures
            r.0 == is_retryable(self@),
            r.1 == asked_delay(self@),
    {
        match self {
            SetupError::Http { status, retry_after } => (transient(*status), *retry_after),
            SetupError::Request { connect, timeout, request, .. } => (
                *connect || *timeout || *request,
                None,
            ),
            SetupError::Protocol(_) => (false, None),
            SetupError::Other(_) => (true, None),
        }
    }
}

/// The turn after an attempt that failed: the user is told of the retry that
/// was granted, or the turn fails before anything was sent. A retry for an
/// error that will not pass is not taken.
pub open spec fn after_failure(
    t: TurnV,
    e: SetupErrorV,
    message: Seq<char>,
    granted: Option<(u32, u64)>,
    max_attempts: u32,
    now: i64,
) -> (TurnV, SetupNext) {
    match granted {
        Some((number, delay)) => if is_retryable(e) {
            (
                TurnV {
                    retry: Some(
                        RetryV {
                            source: "orx"@,
                            message: RECONNECTING@,
                            attempt: (number + 1) as i64,
                            max_attempts: Some(max_attempts as i64),
                            next_at_ms: Some((now + delay) as i64),
                        },
                    ),
                    ..t
                },
                SetupNext::Wait(delay),
            )
        } else {
            (setup_failed(t, message), SetupNext::GiveUp)
        },
        None => (setup_failed(t, message), SetupNext::GiveUp),
    }
}

/// The turn fails before anything was sent.
pub open spec fn setup_failed(t: TurnV, message: Seq<char>) -> TurnV {
    TurnV {
        delivery: DeliveryState::NotSent,
        failure: Some(FailureV { code: "opencode_setup"@, message }),
        ..t
    }
}

/// Deal with an attempt that failed, given the retry that was granted (its
/// number and its delay in milliseconds), if any.
pub fn setup_attempt_failed(
    ctx: &mut TurnCtx,
    error: &SetupError,
    granted: Option<(u32, u64)>,
    max_attempts: u32,
    now: i64,
) -> (r: SetupNext)
    requires
        has_valid_status(error@),
        granted matches Some((_, delay)) ==> now + delay <= i64::MAX,
    ensures
        (final(ctx)@, r) == after_failure(
            old(ctx)@,
            error@,
            error_message(error@),
            granted,
            max_attempts,
            now,
        ),
{
    let wish: (bool, Option<u64>) = error.retry_wish();
    match granted {
        Some((number, delay)) => {
            if wish.0 {
                let at: i64 = (now as i128 + delay as i128) as i64;
                ctx.show_retry_status(
                    "orx",
                    RECONNECTING,
                    number as i64 + 1,
                    Some(max_attempts as i64),
                    Some(at),
                );
                return SetupNext::Wait(delay);
            }
        },
        None => {},
    }
    let message: String = error.message();
    ctx.mark_delivery(DeliveryState::NotSent);
    ctx.mark_terminal_failure("opencode_setup", message.as_str());
    SetupNext::GiveUp
}

/// A session is ready: nothing is being retried any more.
pub fn setup_succeeded(ctx: &mut TurnCtx)
    ensures
        final(ctx)@ == (TurnV { retry: None, ..old(ctx)@ }),
{
    ctx.clear_retry_status();
}

/// The turn when the session it had turns out to be lost: it starts anew, and
/// its message begins with what is to be recovered.
pub open spec fn restarted(t: TurnV, recovery: Option<Seq<char>>) -> TurnV {
    TurnV {
        text: match recovery {
            Some(context) => context + "\n\n"@ + t.text,
            None => t.text,
        },
        native_session_id: None,
        ..t
    }
}

/// The turn as it starts: one whose session is lost starts anew.
pub open spec fn begun(t: TurnV, session_found: bool, recovery: Option<Seq<char>>) -> TurnV {
    if t.native_session_id is Some && !session_found {
        restarted(t, recovery)
    } else {
        t
    }
}

/// Start a turn: a session that is lost is given up.
pub fn begin_turn(ctx: &mut TurnCtx, session_found: bool, recovery: Option<&str>)
    ensures
        final(ctx)@ == begun(old(ctx)@, session_found, text::opt_str(recovery)),
{
    if ctx.native_session_id.is_some() && !session_found {
        match recovery {
            Some(context) => {
                let full: String = text::concat3(context, "\n\n", ctx.text.as_str());
                ctx.text = full;
            },
            None => {},
        }
        ctx.native_session_id = None;
    }
}

// ---------------------------------------------------------------------------
// Laws
// ---------------------------------------------------------------------------

/// A turn that fails while it is set up was not sent, and one that is tried
/// again has not failed.
pub proof fn failed_setups_send_nothing(
    t: TurnV,
    e: SetupErrorV,
    message: Seq<char>,
    granted: Option<(u32, u64)>,
    max_attempts: u32,
    now: i64,
)
    ensures
        ({
            let (after, next) = after_failure(t, e, message, granted, max_attempts, now);
            &&& next == SetupNext::GiveUp ==> after.delivery == DeliveryState::NotSent
                && after.failure == Some(FailureV { code: "opencode_setup"@, message })
            &&& next is Wait ==> after.failure == t.failure && after.delivery == t.delivery
                && is_retryable(e)
            &&& after.parts == t.parts && after.native_session_id == t.native_session_id
        }),
{
}

/// An answer that makes no sense is never tried again, and neither is one that
/// refuses for good.
pub proof fn hopeless_setups_are_given_up(
    t: TurnV,
    e: SetupErrorV,
    message: Seq<char>,
    granted: Option<(u32, u64)>,
    max_attempts: u32,
    now: i64,
)
    requires
        e is Protocol || (e matches SetupErrorV::Http { status, .. } && 400 <= status < 500 && status
            != 408 && status != 429),
    ensures
        after_failure(t, e, message, granted, max_attempts, now).1 == SetupNext::GiveUp,
{
}

/// Once a session was opened, the turn keeps to it: another attempt opens no
/// second one.
pub proof fn sessions_are_opened_once(
    t: TurnV,
    id: Seq<char>,
    port: u16,
    base: Seq<char>,
    version: OpenCodeVersion,
)
    ensures
        attempt_start(
            TurnV { native_session_id: Some(id), ..t },
            Some((port, base, version)),
            Some(port),
        ) == Ok::<ActionV, SetupErrorV>(with_session(id, base, version)),
{
}

/// An answer stands exactly if its status says so. Otherwise it is an error
/// with that status, and with the seconds that the server asked to be given, if
/// it asked in digits.
pub proof fn answers_stand_by_their_status(status: u16, header: Seq<char>, n: u64)
    ensures
        200 <= status < 300 <==> response_result(status, Some(header)) is Ok,
        200 <= status < 300 <==> response_result(status, None) is Ok,
        !(200 <= status < 300) ==> response_result(status, None) == Err::<(), SetupErrorV>(
            SetupErrorV::Http { status, retry_after: None },
        ),
        !(200 <= status < 300) ==> response_result(status, Some(text::decimal(n as nat))) == Err::<
            (),
            SetupErrorV,
        >(SetupErrorV::Http { status, retry_after: Some(n) }),
        !(200 <= status < 300) && header.len() > 0 && !('0' <= header[0] <= '9') && header[0] != '+'
            ==> response_result(status, Some(header)) == Err::<(), SetupErrorV>(
            SetupErrorV::Http { status, retry_after: None },
        ),
{
    text::numbers_read_back(n as nat, u64::MAX as nat, header, 0);
}

/// What may pass is worth another attempt: a timeout, too many requests, a
/// failure of the server, a connection that failed, time that ran out, a
/// request that could not be sent, and what is not known better. A refusal, and
/// an answer that makes no sense, are not.
pub proof fn passing_errors_are_worth_an_attempt(
    status: u16,
    retry_after: Option<u64>,
    connect: bool,
    timeout: bool,
    request: bool,
    message: Seq<char>,
)
    ensures
        is_retryable(SetupErrorV::Http { status, retry_after }) <==> (status == 408 || status == 429
            || 500 <= status < 600),
        is_retryable(SetupErrorV::Request { connect, timeout, request, message }) <==> (connect
            || timeout || request),
        !is_retryable(SetupErrorV::Protocol(message)),
        is_retryable(SetupErrorV::Other(message)),
        asked_delay(SetupErrorV::Http { status, retry_after }) == retry_after,
        asked_delay(SetupErrorV::Request { connect, timeout, request, message }) is None,
        asked_delay(SetupErrorV::Protocol(message)) is None,
        asked_delay(SetupErrorV::Other(message)) is None,
{
}

/// A granted retry is taken for an error that may pass: it is waited for as
/// long as granted, and the user is told which attempt comes, of how many, and
/// when. Nothing else of the turn changes.
pub proof fn granted_retries_are_shown(
    t: TurnV,
    e: SetupErrorV,
    message: Seq<char>,
    number: u32,
    delay: u64,
    max_attempts: u32,
    now: i64,
)
    requires
        match e {
            SetupErrorV::Http { status, .. } => status == 408 || status == 429 || 500 <= status
                < 600,
            SetupErrorV::Request { connect, timeout, request, .. } => connect || timeout || request,
            SetupErrorV::Protocol(_) => false,
            SetupErrorV::Other(_) => true,
        },
        now + delay <= i64::MAX,
    ensures
        ({
            let (after, next) = after_failure(
                t,
                e,
                message,
                Some((number, delay)),
                max_attempts,
                now,
            );
            &&& next == SetupNext::Wait(delay)
            &&& after == (TurnV { retry: after.retry, ..t })
            &&& after.retry matches Some(shown) && {
                &&& shown.source == "orx"@
                &&& shown.message == "Reconnecting to OpenCode"@
                &&& shown.attempt == number + 1
                &&& shown.max_attempts == Some(max_attempts as i64)
                &&& shown.next_at_ms matches Some(at) && at == now + delay
            }
            &&& after_failure(t, e, message, None, max_attempts, now).1 == SetupNext::GiveUp
        }),
{
}

/// What is told of an error: a refusal by its status, anything else in its own
/// words.
pub proof fn errors_are_told(e: SetupErrorV, shown: Seq<char>)
    ensures
        e is Http ==> told(e, shown) == "OpenCode setup returned HTTP "@ + shown,
        e matches SetupErrorV::Request { message, .. } ==> told(e, shown) == message,
        e matches SetupErrorV::Protocol(m) ==> told(e, shown) == m,
        e matches SetupErrorV::Other(m) ==> told(e, shown) == m,
{
}

/// An attempt needs the endpoint that the agent reported: without one, or with
/// another port, it fails. A turn that has a session goes on with it, and any
/// other opens one. The first generation's events are read where its server
/// sends them; the second has none to read.
pub proof fn attempts_use_the_reported_endpoint(
    t: TurnV,
    port: u16,
    other: u16,
    base: Seq<char>,
    version: OpenCodeVersion,
    id: Seq<char>,
)
    ensures
        ({
            let start = |live: Option<(u16, Seq<char>, OpenCodeVersion)>, p: Option<u16>|
                attempt_start(t, live, p);
            let failed = Err::<ActionV, SetupErrorV>(SetupErrorV::Protocol(NO_PORT@));
            let first = start(Some((port, base, OpenCodeVersion::V1)), Some(port));
            let second = start(Some((port, base, OpenCodeVersion::V2)), Some(port));
            &&& start(None, Some(port)) == failed
            &&& start(Some((port, base, version)), None) == failed
            &&& port != other ==> start(Some((port, base, version)), Some(other)) == failed
            &&& t.native_session_id == Some(id) ==> first == Ok::<ActionV, SetupErrorV>(
                ActionV::Subscribe(id, (RequestV { url: base + "/event"@, body: None })),
            ) && second == Ok::<ActionV, SetupErrorV>(ActionV::Ready(id))
            &&& t.native_session_id is None ==> (first matches Ok(ActionV::Open(r)) && r.url == base
                + "/session"@) && (second matches Ok(ActionV::Open(r)) && r.url == base
                + "/api/session"@)
        }),
{
}

/// The id of an opened session is found under `data`, or in the answer itself.
pub proof fn opened_sessions_have_an_id(created: JsonV, id: Seq<char>)
    ensures
        created.member("data"@).get("id"@) == Some(JsonV::Str(id)) ==> created_id(created) == Some(
            id,
        ),
        created.member("data"@).get("id"@) is None && created.get("id"@) == Some(JsonV::Str(id))
            ==> created_id(created) == Some(id),
        created.member("data"@).get("id"@) is None && created.get("id"@) is None ==> created_id(
            created,
        ) is None,
{
}

/// A turn whose session is lost starts anew: it has no session, and its message
/// is what is to be recovered, an empty line, and then what it was.
pub proof fn lost_sessions_are_recovered(t: TurnV, context: Seq<char>)
    ensures
        ({
            let after = restarted(t, Some(context));
            let gap = context.len() + 2;
            &&& after.native_session_id is None
            &&& after.text.len() == gap + t.text.len()
            &&& after.text.take(context.len() as int) == context
            &&& after.text.skip(gap as int) == t.text
            &&& after.text[context.len() as int] == '\n' && after.text[gap - 1] == '\n'
            &&& after == (TurnV { text: after.text, native_session_id: None, ..t })
            &&& restarted(t, None) == (TurnV { native_session_id: None, ..t })
        }),
{
    reveal_strlit("\n\n");
    let after = restarted(t, Some(context)).text;
    assert(after.take(context.len() as int) =~= context);
    assert(after.skip((context.len() + 2) as int) =~= t.text);
}

/// An opened session is the turn's from then on: another attempt goes on with
/// it, just as the one that opened it. An answer without an id leaves the turn
/// without a session.
pub proof fn opened_sessions_are_adopted(
    t: TurnV,
    port: u16,
    base: Seq<char>,
    version: OpenCodeVersion,
    created: JsonV,
)
    ensures
        ({
            let (after, next) = adopted(t, base, version, created);
            &&& next is Ok <==> created_id(created) is Some
            &&& next is Ok ==> after.native_session_id == created_id(created) && attempt_start(
                after,
                Some((port, base, version)),
                Some(port),
            ) == next
            &&& next is Err ==> after == t && next == Err::<ActionV, SetupErrorV>(
                SetupErrorV::Protocol(NO_ID@),
            )
            &&& after == (TurnV { native_session_id: after.native_session_id, ..t })
        }),
{
}

/// A turn is given up its session only where it has one and that one is lost.
pub proof fn found_sessions_are_kept(t: TurnV, recovery: Option<Seq<char>>, context: Seq<char>)
    ensures
        begun(t, true, recovery) == t,
        t.native_session_id is None ==> begun(t, false, recovery) == t,
        t.native_session_id is Some ==> begun(t, false, Some(context)) == (TurnV {
            native_session_id: None,
            text: context + "\n\n"@ + t.text,
            ..t
        }),
        t.native_session_id is Some ==> begun(t, false, None) == (TurnV {
            native_session_id: None,
            ..t
        }),
{
}

/// Every status that there is can be told of.
pub proof fn statuses_have_three_digits(status: u16, retry_after: Option<u64>)
    ensures
        has_valid_status(SetupErrorV::Http { status, retry_after }) <==> 100 <= status <= 999,
{
}

} // verus!
