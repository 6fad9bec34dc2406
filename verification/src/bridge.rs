//! The decisions of the stdio-to-HTTP MCP bridge.
//!
//! The bridge answers `initialize` and the list methods locally so that an MCP
//! host connects instantly whether or not an app runs, forwards everything else
//! to the live backend, re-establishes the backend session when it goes stale,
//! and retries a bounded number of times across a restart. The I/O loop lives
//! outside this module; every decision it takes is made here.
use vstd::prelude::*;

use crate::discovery::Selection;
use crate::json::{json_text_valid, parse_json};
use crate::text::{
    chars_of, contains_chars, decimal, decimal_string, has_substring, lines, lines_of, owned,
    starts_with, str_eq, string_of, strip_prefix_chars, trim, trim_chars, trim_str,
};

verus! {

/// How many times a message is posted to the backend before giving up.
pub const MAX_RETRIES: usize = 4;

/// The base delay between attempts, in milliseconds.
pub const RETRY_DELAY_MS: u64 = 400;

/// How often the availability poller re-checks the backend, in milliseconds.
pub const POLL_INTERVAL_MS: u64 = 1500;

// ---------------------------------------------------------------------------
// Messages answered locally
// ---------------------------------------------------------------------------

/// The MCP protocol version advertised when the client requested none.
pub open spec fn default_protocol_version() -> Seq<char> {
    "2025-06-18"@
}

/// The protocol version of the local `initialize` reply: the one the client
/// requested (guaranteed acceptable to it), else the default.
pub fn negotiated_protocol_version(requested: Option<&str>) -> (r: String)
    ensures
        r@ == match requested {
            Some(v) => v@,
            None => default_protocol_version(),
        },
{
    match requested {
        Some(v) => owned(v),
        None => owned("2025-06-18"),
    }
}

/// The actionable message returned when a tool call can't reach a backend.
pub open spec fn unreachable_text() -> Seq<char> {
    "Victauri backend not reachable: no running Tauri app with the Victauri plugin (debug build) was found. Start the app (e.g. `npm run tauri dev` / `pnpm tauri dev`); the bridge connects automatically when it comes up — no reconnect needed. If several Victauri apps run, select one with `--app <bundle-identifier>` or the VICTAURI_APP env var."@
}

/// Actionable message returned when a tool call can't reach a backend.
pub fn unreachable_message() -> (r: String)
    ensures
        r@ == unreachable_text(),
{
    owned(
        "Victauri backend not reachable: no running Tauri app with the Victauri plugin (debug build) was found. Start the app (e.g. `npm run tauri dev` / `pnpm tauri dev`); the bridge connects automatically when it comes up — no reconnect needed. If several Victauri apps run, select one with `--app <bundle-identifier>` or the VICTAURI_APP env var.",
    )
}

/// The result key of the empty list served for a list method while no app runs.
pub open spec fn list_result_key(method: Seq<char>) -> Seq<char> {
    if method == "resources/list"@ {
        "resources"@
    } else if method == "resources/templates/list"@ {
        "resourceTemplates"@
    } else if method == "prompts/list"@ {
        "prompts"@
    } else {
        "items"@
    }
}

/// The key under which the empty result of a `*/list` method is returned.
pub fn empty_list_result_key(method: &str) -> (r: &'static str)
    ensures
        r@ == list_result_key(method@),
{
    if str_eq(method, "resources/list") {
        "resources"
    } else if str_eq(method, "resources/templates/list") {
        "resourceTemplates"
    } else if str_eq(method, "prompts/list") {
        "prompts"
    } else {
        "items"
    }
}

/// How the bridge handles one message from the client.
#[derive(Debug, Clone, Copy, PartialEq, Eq)]
pub enum Route {
    /// `initialize`: cached for the backend handshake and answered locally.
    Initialize,
    /// `notifications/initialized`: the client's ack of the local reply; dropped.
    InitializedAck,
    /// `ping`: answered locally with an empty result.
    Ping,
    /// `tools/list`: live when an app runs, else the baked fallback list.
    ToolsList,
    /// `resources/list`, `resources/templates/list`, `prompts/list`: live when
    /// an app runs, else an empty list.
    EmptyWhenDown,
    /// Everything else: forwarded to the live backend.
    Forward,
}

/// The route of each method.
pub open spec fn route_of(method: Seq<char>) -> Route {
    if method == "initialize"@ {
        Route::Initialize
    } else if method == "notifications/initialized"@ {
        Route::InitializedAck
    } else if method == "ping"@ {
        Route::Ping
    } else if method == "tools/list"@ {
        Route::ToolsList
    } else if method == "resources/list"@ || method == "resources/templates/list"@ || method
        == "prompts/list"@ {
        Route::EmptyWhenDown
    } else {
        Route::Forward
    }
}

/// Decides how a client message with `method` is handled.
pub fn route_message(method: &str) -> (r: Route)
    ensures
        r == route_of(method@),
{
    if str_eq(method, "initialize") {
        Route::Initialize
    } else if str_eq(method, "notifications/initialized") {
        Route::InitializedAck
    } else if str_eq(method, "ping") {
        Route::Ping
    } else if str_eq(method, "tools/list") {
        Route::ToolsList
    } else if str_eq(method, "resources/list") || str_eq(method, "resources/templates/list")
        || str_eq(method, "prompts/list") {
        Route::EmptyWhenDown
    } else {
        Route::Forward
    }
}

/// Whether an unreachable backend is reported to the client: a request (with
/// an id) gets an error reply, a notification is simply dropped.
pub fn reply_when_unreachable(is_notification: bool) -> (r: bool)
    ensures
        r == !is_notification,
{
    !is_notification
}

/// The availability poller saw `now_up` after `was_up`: the client is told to
/// refresh its tool and resource lists exactly on a down-to-up transition.
pub fn announce_list_changed(was_up: bool, now_up: bool) -> (r: bool)
    ensures
        r == (now_up && !was_up),
{
    now_up && !was_up
}

// ---------------------------------------------------------------------------
// Backend sessions and retries
// ---------------------------------------------------------------------------

/// The backend session as the bridge tracks it.
#[derive(Debug, Clone, PartialEq, Eq)]
pub struct SessionState {
    /// The `Mcp-Session-Id` of the current backend session, if any.
    pub session_id: Option<String>,
    /// Set once a handshake returned no session id: the backend is stateless,
    /// so there is no session to establish before each call.
    pub stateless: bool,
}

/// Before posting, the cached `initialize` is replayed to the backend when it
/// is stateful and no session is open.
pub fn needs_handshake(state: &SessionState) -> (r: bool)
    ensures
        r == (!state.stateless && state.session_id is None),
{
    !state.stateless && state.session_id.is_none()
}

/// The state after a backend handshake that was answered with `session_id`,
/// `stale` telling whether the answer was a stale-session status.
pub fn after_handshake(state: SessionState, session_id: Option<String>, stale: bool) -> (r:
    SessionState)
    ensures
        r == (match session_id {
            Some(sid) => SessionState { session_id: Some(sid), stateless: state.stateless },
            None => if !stale {
                SessionState { session_id: state.session_id, stateless: true }
            } else {
                state
            },
        }),
{
    match session_id {
        Some(sid) => SessionState { session_id: Some(sid), stateless: state.stateless },
        None => if !stale {
            SessionState { session_id: state.session_id, stateless: true }
        } else {
            state
        },
    }
}

/// What happened to one post of the client's message.
#[derive(Debug, Clone, PartialEq, Eq)]
pub enum PostEvent {
    /// The backend answered.
    Responded {
        /// The session id it returned, if any.
        session_id: Option<String>,
        /// Its status says the session is gone (404, 409 or 422).
        stale: bool,
        /// It accepted a notification (202).
        accepted: bool,
    },
    /// The connection failed.
    Failed,
}

/// What the bridge does after one post.
#[derive(Debug, Clone, Copy, PartialEq, Eq)]
pub enum ForwardStep {
    /// The notification was accepted; nothing to relay.
    Accepted,
    /// Relay the backend's payloads to the client.
    Relay,
    /// Wait `delay_ms`, re-discover the backend, and post again. When the
    /// re-discovery finds nothing, `drop_connection` says whether the known
    /// connection is forgotten.
    Retry { delay_ms: u64, drop_connection: bool },
    /// Attempts exhausted: report the backend unreachable.
    GiveUp,
}

/// The session and next step after attempt `attempt` (counting from 0).
pub open spec fn forward_step_spec(
    attempt: int,
    is_notification: bool,
    state: SessionState,
    event: PostEvent,
) -> (SessionState, ForwardStep) {
    match event {
        PostEvent::Responded { session_id, stale, accepted } => {
            let sid = match session_id {
                Some(s) => Some(s),
                None => state.session_id,
            };
            if stale {
                let next = SessionState { session_id: None, stateless: state.stateless };
                if attempt + 1 < MAX_RETRIES {
                    (next, ForwardStep::Retry { delay_ms: RETRY_DELAY_MS, drop_connection: false })
                } else {
                    (next, ForwardStep::GiveUp)
                }
            } else {
                let next = SessionState { session_id: sid, stateless: state.stateless };
                if is_notification && accepted {
                    (next, ForwardStep::Accepted)
                } else {
                    (next, ForwardStep::Relay)
                }
            }
        },
        PostEvent::Failed => {
            let next = SessionState { session_id: None, stateless: state.stateless };
            if attempt + 1 < MAX_RETRIES {
                (
                    next,
                    ForwardStep::Retry {
                        delay_ms: (RETRY_DELAY_MS * (attempt + 1)) as u64,
                        drop_connection: true,
                    },
                )
            } else {
                (next, ForwardStep::GiveUp)
            }
        },
    }
}

/// Decides the session and the next step after posting the client's message
/// on attempt `attempt` (0-based): a stale session is dropped and the post
/// retried after a fixed delay; a failed connection drops the session and is
/// retried with a linearly growing delay; after `MAX_RETRIES` attempts the
/// backend is reported unreachable.
pub fn forward_step(attempt: usize, is_notification: bool, state: SessionState, event: PostEvent) -> (r: (
    SessionState,
    ForwardStep,
))
    requires
        attempt < MAX_RETRIES,
    ensures
        r == forward_step_spec(attempt as int, is_notification, state, event),
{
    match event {
        PostEvent::Responded { session_id, stale, accepted } => {
            let sid = match session_id {
                Some(s) => Some(s),
                None => state.session_id,
            };
            if stale {
                let next = SessionState { session_id: None, stateless: state.stateless };
                if attempt + 1 < MAX_RETRIES {
                    (next, ForwardStep::Retry { delay_ms: RETRY_DELAY_MS, drop_connection: false })
                } else {
                    (next, ForwardStep::GiveUp)
                }
            } else {
                let next = SessionState { session_id: sid, stateless: state.stateless };
                if is_notification && accepted {
                    (next, ForwardStep::Accepted)
                } else {
                    (next, ForwardStep::Relay)
                }
            }
        },
        PostEvent::Failed => {
            let next = SessionState { session_id: None, stateless: state.stateless };
            if attempt + 1 < MAX_RETRIES {
                (
                    next,
                    ForwardStep::Retry {
                        delay_ms: RETRY_DELAY_MS * (attempt as u64 + 1),
                        drop_connection: true,
                    },
                )
            } else {
                (next, ForwardStep::GiveUp)
            }
        },
    }
}

/// Bounded retries: the last permitted attempt never schedules another one,
/// so a message is posted at most `MAX_RETRIES` times.
pub proof fn retries_are_bounded(
    attempt: int,
    is_notification: bool,
    state: SessionState,
    event: PostEvent,
)
    requires
        attempt + 1 >= MAX_RETRIES,
    ensures
        !(forward_step_spec(attempt, is_notification, state, event).1 is Retry),
{
}

/// Back-off: after a failed connection the wait grows with the attempt
/// number, and a stale session or a failure never keeps the old session.
pub proof fn failures_back_off_and_drop_the_session(
    a1: int,
    a2: int,
    is_notification: bool,
    state: SessionState,
)
    requires
        0 <= a1 < a2,
        a2 + 1 < MAX_RETRIES,
    ensures
        forward_step_spec(a1, is_notification, state, PostEvent::Failed).1->Retry_delay_ms
            < forward_step_spec(a2, is_notification, state, PostEvent::Failed).1->Retry_delay_ms,
        forward_step_spec(a1, is_notification, state, PostEvent::Failed).0.session_id is None,
{
}

// ---------------------------------------------------------------------------
// Backend responses
// ---------------------------------------------------------------------------

/// A status that means the backend session is gone (unknown or terminated
/// session, or "expect initialize").
pub open spec fn stale_status(status: u16) -> bool {
    status == 404 || status == 409 || status == 422
}

/// The payloads a backend response carries.
#[derive(Debug, Clone, PartialEq, Eq)]
pub enum Payloads {
    /// Nothing to relay (stale session or accepted notification).
    Nothing,
    /// A non-success status: relay a JSON-RPC error with this message.
    Error(String),
    /// Relay these serialized JSON-RPC messages, in order.
    Lines(Vec<String>),
}

/// The classified response to one post.
#[derive(Debug, Clone, PartialEq, Eq)]
pub struct PostOutcome {
    /// The session is gone and must be re-established.
    pub stale_session: bool,
    /// A notification was accepted (202).
    pub accepted: bool,
    /// What to relay.
    pub payloads: Payloads,
}

/// The message of the JSON-RPC error relayed for a non-success status.
pub open spec fn backend_error_text(status: u16, body: Seq<char>) -> Seq<char> {
    "Victauri returned "@ + decimal(status as nat) + ": "@ + body
}

/// An event-stream line carries a payload: it starts with `data: ` and the
/// rest, trimmed, is non-empty well-formed JSON.
pub open spec fn sse_keeps(line: Seq<char>) -> bool {
    let data = trim(line.skip(6));
    starts_with(line, "data: "@) && data.len() > 0 && json_text_valid(data)
}

/// The payloads of event-stream lines.
pub open spec fn sse_payloads(ls: Seq<Seq<char>>) -> Seq<Seq<char>>
    decreases ls.len(),
{
    if ls.len() == 0 {
        seq![]
    } else if sse_keeps(ls.last()) {
        sse_payloads(ls.drop_last()).push(trim(ls.last().skip(6)))
    } else {
        sse_payloads(ls.drop_last())
    }
}

/// The payloads of a successful plain body: the trimmed body, when non-empty.
pub open spec fn plain_payloads(body: Seq<char>) -> Seq<Seq<char>> {
    if trim(body).len() > 0 {
        seq![trim(body)]
    } else {
        seq![]
    }
}

/// The strings of `v` hold exactly the sequences `s`.
pub open spec fn strings_are(v: Seq<String>, s: Seq<Seq<char>>) -> bool {
    v.len() == s.len() && forall|i: int| 0 <= i < v.len() ==> (#[trigger] v[i])@ == s[i]
}

/// What a response to a post carries: stale-session statuses and a 202 carry
/// nothing; other non-2xx statuses an error naming the status and body; an
/// event stream the JSON of its `data:` lines; any other body itself, trimmed.
pub open spec fn classified(status: u16, content_type: Seq<char>, body: Seq<char>, r: PostOutcome) -> bool {
    &&& r.stale_session == stale_status(status)
    &&& r.accepted == (status == 202)
    &&& if stale_status(status) || status == 202 {
        r.payloads == Payloads::Nothing
    } else if !(200 <= status < 300) {
        r.payloads matches Payloads::Error(m) && m@ == backend_error_text(status, body)
    } else if has_substring(content_type, "text/event-stream"@) {
        r.payloads matches Payloads::Lines(v) && strings_are(v@, sse_payloads(lines(body)))
    } else {
        r.payloads matches Payloads::Lines(v) && strings_are(v@, plain_payloads(body))
    }
}

/// The JSON payloads of an event-stream body.
fn event_stream_payloads(body: &str) -> (r: Vec<String>)
    ensures
        strings_are(r@, sse_payloads(lines(body@))),
{
    let cs = chars_of(body);
    let ls = lines_of(cs.as_slice());
    let prefix = chars_of("data: ");
    proof {
        reveal_strlit("data: ");
    }
    let mut out: Vec<String> = Vec::new();
    let mut i: usize = 0;
    while i < ls.len()
        invariant
            i <= ls@.len(),
            ls@.len() == lines(body@).len(),
            forall|k: int| 0 <= k < ls@.len() ==> (#[trigger] ls@[k])@ == lines(body@)[k],
            prefix@ == "data: "@,
            "data: "@.len() == 6,
            strings_are(out@, sse_payloads(lines(body@).take(i as int))),
        decreases ls.len() - i,
    {
        let ghost taken = lines(body@).take(i + 1);
        assert(taken.drop_last() =~= lines(body@).take(i as int));
        assert(taken.last() == ls@[i as int]@);
        match strip_prefix_chars(ls[i].as_slice(), prefix.as_slice()) {
            Some(rest) => {
                let data = trim_chars(rest.as_slice());
                if data.len() > 0 {
                    let text = string_of(data.as_slice());
                    if parse_json(text.as_str()).is_some() {
                        out.push(text);
                    }
                }
            },
            None => {},
        }
        i = i + 1;
        assert(strings_are(out@, sse_payloads(lines(body@).take(i as int))));
    }
    assert(lines(body@).take(ls.len() as int) =~= lines(body@));
    out
}

/// Classifies the backend's answer to one post from its status, content type
/// and body.
pub fn classify_response(status: u16, content_type: &str, body: &str) -> (r: PostOutcome)
    ensures
        classified(status, content_type@, body@, r),
{
    let stale = status == 404 || status == 409 || status == 422;
    let accepted = status == 202;
    if stale || accepted {
        return PostOutcome { stale_session: stale, accepted, payloads: Payloads::Nothing };
    }
    if !(200 <= status && status < 300) {
        let mut m = owned("Victauri returned ");
        let digits = decimal_string(status as u64);
        m.append(digits.as_str());
        m.append(": ");
        m.append(body);
        return PostOutcome { stale_session: stale, accepted, payloads: Payloads::Error(m) };
    }
    let ct = chars_of(content_type);
    let marker = chars_of("text/event-stream");
    if contains_chars(ct.as_slice(), marker.as_slice()) {
        let v = event_stream_payloads(body);
        PostOutcome { stale_session: stale, accepted, payloads: Payloads::Lines(v) }
    } else {
        let t = trim_str(body);
        let mut v: Vec<String> = Vec::new();
        if !t.as_str().is_empty() {
            v.push(t);
        }
        proof {
            assert(strings_are(v@, plain_payloads(body@)));
        }
        PostOutcome { stale_session: stale, accepted, payloads: Payloads::Lines(v) }
    }
}

// ---------------------------------------------------------------------------
// Discovery with patience
// ---------------------------------------------------------------------------

/// What to do after one discovery pass.
#[derive(Debug, Clone, PartialEq, Eq)]
pub enum DiscoverStep {
    /// A single matching backend was found: connect to it.
    Connected,
    /// Nothing yet: sleep a second and scan again.
    Wait,
    /// Give up with this message.
    Fail(String),
}

/// The message when no backend could be found.
pub open spec fn no_server_text() -> Seq<char> {
    "Could not connect to Victauri server.\nIs your Tauri app running (debug build)? Start it with: pnpm run tauri dev"@
}

/// `labels` joined with `sep`.
pub open spec fn joined(labels: Seq<Seq<char>>, sep: Seq<char>) -> Seq<char>
    decreases labels.len(),
{
    if labels.len() == 0 {
        seq![]
    } else if labels.len() == 1 {
        labels[0]
    } else {
        joined(labels.drop_last(), sep) + sep + labels.last()
    }
}

/// The views of a vector of strings.
pub open spec fn string_views(v: Seq<String>) -> Seq<Seq<char>> {
    v.map_values(|s: String| s@)
}

/// Joins `labels` with `sep` (`[String]::join`).
pub fn join_labels(labels: &[String], sep: &str) -> (r: String)
    ensures
        r@ == joined(string_views(labels@), sep@),
{
    let mut r = String::new();
    let mut i: usize = 0;
    while i < labels.len()
        invariant
            i <= labels.len(),
            r@ == joined(string_views(labels@).take(i as int), sep@),
        decreases labels.len() - i,
    {
        let ghost t = string_views(labels@).take(i + 1);
        assert(t.drop_last() =~= string_views(labels@).take(i as int));
        if i > 0 {
            r.append(sep);
        } else {
            assert(string_views(labels@).take(0).len() == 0);
        }
        r.append(labels[i].as_str());
        i = i + 1;
    }
    assert(string_views(labels@).take(labels.len() as int) =~= string_views(labels@));
    r
}

/// The message when several apps run and none was selected.
pub open spec fn ambiguous_text(labels: Seq<Seq<char>>) -> Seq<char> {
    "Multiple Victauri apps are running:\n  "@ + joined(labels, "\n  "@)
        + "\nSpecify which one with `victauri bridge --app <identifier>` (or set VICTAURI_APP). The identifier is your Tauri bundle identifier."@
}

/// Decides what follows discovery pass `attempt` (0-based): connect to a
/// single match; wait and scan again while passes remain (30 with `wait`,
/// else 3); otherwise fail with an actionable message.
pub fn discover_step(wait: bool, attempt: usize, sel: &Selection) -> (r: DiscoverStep)
    ensures
        match sel {
            Selection::One(_) => r == DiscoverStep::Connected,
            Selection::NoMatch => if attempt + 1 < (if wait { 30int } else { 3int }) {
                r == DiscoverStep::Wait
            } else {
                r matches DiscoverStep::Fail(m) && m@ == no_server_text()
            },
            Selection::Ambiguous(labels) => r matches DiscoverStep::Fail(m) && m@
                == ambiguous_text(string_views(labels@)),
        },
{
    let max_attempts: usize = if wait { 30 } else { 3 };
    match sel {
        Selection::One(_) => DiscoverStep::Connected,
        Selection::NoMatch => if attempt < max_attempts - 1 {
            DiscoverStep::Wait
        } else {
            DiscoverStep::Fail(
                owned(
                    "Could not connect to Victauri server.\nIs your Tauri app running (debug build)? Start it with: pnpm run tauri dev",
                ),
            )
        },
        Selection::Ambiguous(labels) => {
            let mut m = owned("Multiple Victauri apps are running:\n  ");
            let j = join_labels(labels.as_slice(), "\n  ");
            m.append(j.as_str());
            m.append(
                "\nSpecify which one with `victauri bridge --app <identifier>` (or set VICTAURI_APP). The identifier is your Tauri bundle identifier.",
            );
            DiscoverStep::Fail(m)
        },
    }
}

/// The message a forwarded call gets when several apps run and none was
/// selected.
pub open spec fn ambiguous_forward_text(labels: Seq<Seq<char>>) -> Seq<char> {
    "Multiple Victauri apps are running:\n  "@ + joined(labels, "\n  "@)
        + "\nSelect one with `--app <bundle-identifier>` or the VICTAURI_APP env var."@
}

/// The error a forwarded call reports when several apps run and none was
/// selected.
pub fn ambiguous_forward_message(labels: &[String]) -> (r: String)
    ensures
        r@ == ambiguous_forward_text(string_views(labels@)),
{
    let mut m = owned("Multiple Victauri apps are running:\n  ");
    let j = join_labels(labels, "\n  ");
    m.append(j.as_str());
    m.append("\nSelect one with `--app <bundle-identifier>` or the VICTAURI_APP env var.");
    m
}

} // verus!
