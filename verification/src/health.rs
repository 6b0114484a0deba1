//! The health prober: what is sent to a service, how its answer is read,
//! and how long the supervisor waits for a service to become ready.

use crate::text::{decimal, push_decimal};
use vstd::prelude::*;
use vstd::string::*;

verus! {

/// The bytes of a text that holds only ASCII characters.
pub open spec fn ascii(text: Seq<char>) -> Seq<u8> {
    Seq::new(text.len(), |i: int| text[i] as u8)
}

/// `needle` stands in `hay` at index `at`.
pub open spec fn occurs_at(hay: Seq<u8>, needle: Seq<u8>, at: int) -> bool {
    &&& 0 <= at
    &&& at + needle.len() <= hay.len()
    &&& hay.subrange(at, at + needle.len()) == needle
}

/// `needle` stands somewhere in `hay`.
pub open spec fn contains(hay: Seq<u8>, needle: Seq<u8>) -> bool {
    exists|at: int| occurs_at(hay, needle, at)
}

/// `needle` stands in `hay` at index `at`, and nowhere before.
pub open spec fn first_occurs_at(hay: Seq<u8>, needle: Seq<u8>, at: int) -> bool {
    &&& occurs_at(hay, needle, at)
    &&& forall|before: int| 0 <= before < at ==> !occurs_at(hay, needle, before)
}

/// The blank line that ends the header of a response.
pub open spec fn header_end() -> Seq<u8> {
    ascii("\r\n\r\n"@)
}

/// The body of a response: what follows the first blank line.  A response
/// without a blank line has an empty body.
pub open spec fn body_of(response: Seq<u8>) -> Seq<u8> {
    if contains(response, header_end()) {
        let at = choose|at: int| first_occurs_at(response, header_end(), at);
        response.skip(at + 4)
    } else {
        Seq::empty()
    }
}

/// The byte is an ASCII digit.
pub open spec fn is_digit(byte: u8) -> bool {
    0x30 <= byte <= 0x39
}

/// The response opens with a status line of HTTP/1.0 or HTTP/1.1 whose
/// status code is in the 200s: the digit `2` and two more digits, with no
/// further digit behind them.
pub open spec fn has_success_status(response: Seq<u8>) -> bool {
    &&& response.len() >= 12
    &&& (occurs_at(response, ascii("HTTP/1.1 "@), 0) || occurs_at(
        response,
        ascii("HTTP/1.0 "@),
        0,
    ))
    &&& response[9] == 0x32
    &&& is_digit(response[10])
    &&& is_digit(response[11])
    &&& (response.len() > 12 ==> !is_digit(response[12]))
}

/// The byte is ASCII whitespace: a space, a tab, a line feed, a vertical
/// tab, a form feed or a carriage return.
pub open spec fn is_space(byte: u8) -> bool {
    0x09 <= byte <= 0x0D || byte == 0x20
}

/// The bytes of `hay` from `from` up to `to` are a run of whitespace, which
/// may be empty.
pub open spec fn spaces_between(hay: Seq<u8>, from: int, to: int) -> bool {
    &&& 0 <= from <= to <= hay.len()
    &&& forall|i: int| from <= i < to ==> is_space(#[trigger] hay[i])
}

/// The marker stands in `body` with its key `"ok"` at index `key`, its
/// colon at `colon` and its value `true` at `value`, and with nothing but
/// whitespace between the three.
pub open spec fn marker_at(body: Seq<u8>, key: int, colon: int, value: int) -> bool {
    &&& occurs_at(body, ascii("\"ok\""@), key)
    &&& spaces_between(body, key + 4, colon)
    &&& colon < body.len()
    &&& body[colon] == 0x3A
    &&& spaces_between(body, colon + 1, value)
    &&& occurs_at(body, ascii("true"@), value)
}

/// The marker stands in `body` with its key at index `key`.
pub open spec fn marker_starts(body: Seq<u8>, key: int) -> bool {
    exists|colon: int, value: int| marker_at(body, key, colon, value)
}

/// The body says that the service is ready: it holds `"ok"`, a colon and
/// `true`, with any run of whitespace before and behind the colon.
pub open spec fn has_ok_marker(body: Seq<u8>) -> bool {
    exists|key: int| marker_starts(body, key)
}

/// The response says that the service is ready: its status is in the 200s
/// and its body holds the marker.
pub open spec fn is_ready(response: Seq<u8>) -> bool {
    has_success_status(response) && has_ok_marker(body_of(response))
}

/// Tells whether `needle` stands in `hay` at index `at`.
pub fn matches_at(hay: &[u8], needle: &[u8], at: usize) -> (found: bool)
    ensures
        found == occurs_at(hay@, needle@, at as int),
{
    if needle.len() > hay.len() || at > hay.len() - needle.len() {
        return false;
    }
    let mut k: usize = 0;
    while k < needle.len()
        invariant
            k <= needle.len(),
            at + needle.len() <= hay.len(),
            forall|i: int| 0 <= i < k ==> hay@[at + i] == needle@[i],
        decreases needle.len() - k,
    {
        if hay[at + k] != needle[k] {
            return false;
        }
        k += 1;
    }
    assert(hay@.subrange(at as int, at + needle.len()) =~= needle@);
    true
}

/// Finds the first index at or behind `from` at which `needle` stands in `hay`.
pub fn find_from(hay: &[u8], needle: &[u8], from: usize) -> (found: Option<usize>)
    ensures
        match found {
            Some(at) => from <= at && occurs_at(hay@, needle@, at as int) && forall|i: int|
                from <= i < at ==> !occurs_at(hay@, needle@, i),
            None => forall|i: int| from <= i ==> !occurs_at(hay@, needle@, i),
        },
{
    if needle.len() > hay.len() {
        return None;
    }
    let last: usize = hay.len() - needle.len();
    let mut at: usize = from;
    while at <= last
        invariant
            from <= at,
            last == hay.len() - needle.len(),
            forall|i: int| from <= i < at ==> !occurs_at(hay@, needle@, i),
        decreases last + 1 - at,
    {
        if matches_at(hay, needle, at) {
            return Some(at);
        }
        if at == last {
            return None;
        }
        at += 1;
    }
    None
}

/// The bytes of a text that holds only ASCII characters.
fn ascii_bytes(text: &str) -> (bytes: &[u8])
    requires
        is_ascii(text),
    ensures
        bytes@ == ascii(text@),
{

    let bytes = text.as_bytes();
    assert(bytes@ =~= ascii(text@));
    bytes
}

/// Finds the end of the run of whitespace that begins at `from`: the first
/// index at or behind `from` whose byte is not whitespace, or the length of
/// `hay` where there is none.  An index beyond `hay` is given back as it is.
pub fn skip_spaces(hay: &[u8], from: usize) -> (to: usize)
    ensures
        from <= hay.len() ==> spaces_between(hay@, from as int, to as int),
        from <= hay.len() && to < hay.len() ==> !is_space(hay@[to as int]),
        from > hay.len() ==> to == from,
{
    if from > hay.len() {
        return from;
    }
    let mut to: usize = from;
    while to < hay.len() && ((0x09 <= hay[to] && hay[to] <= 0x0D) || hay[to] == 0x20)
        invariant
            from <= to <= hay.len(),
            forall|i: int| from <= i < to ==> is_space(#[trigger] hay@[i]),
        decreases hay.len() - to,
    {
        to += 1;
    }
    to
}

/// A run of whitespace that ends at a byte of another kind ends where the
/// whitespace behind `from` ends: there is one such place.
pub proof fn lemma_spaces_end(hay: Seq<u8>, from: int, to: int, other: int)
    requires
        spaces_between(hay, from, to),
        to < hay.len() ==> !is_space(hay[to]),
        spaces_between(hay, from, other),
        other < hay.len(),
        !is_space(hay[other]),
    ensures
        other == to,
{
    if other < to {
        assert(is_space(hay[other]));
    } else if to < other {
        assert(is_space(hay[to]));
    }
}

/// Tells whether the marker stands in `body` with its key at index `key`.
pub fn marker_starts_at(body: &[u8], key: usize) -> (found: bool)
    ensures
        found == marker_starts(body@, key as int),
{
    proof {
        reveal_strlit("\"ok\"");
        reveal_strlit("true");
    }
    let name = ascii_bytes("\"ok\"");
    assert(name@.len() == 4);
    if !matches_at(body, name, key) {
        return false;
    }
    let length = body.len();
    assert(key + 4 <= length);
    let colon = skip_spaces(body, key + 4);
    if colon >= length || body[colon] != 0x3A {
        proof {
            assert forall|c: int, v: int| !marker_at(body@, key as int, c, v) by {
                if marker_at(body@, key as int, c, v) {
                    lemma_spaces_end(body@, key + 4, colon as int, c);
                }
            }
        }
        return false;
    }
    let value = skip_spaces(body, colon + 1);
    let found = matches_at(body, ascii_bytes("true"), value);
    proof {
        if found {
            assert(marker_at(body@, key as int, colon as int, value as int));
        } else {
            assert forall|c: int, v: int| !marker_at(body@, key as int, c, v) by {
                if marker_at(body@, key as int, c, v) {
                    lemma_spaces_end(body@, key + 4, colon as int, c);
                    assert(body@.subrange(v, v + 4)[0] == body@[v]);
                    lemma_spaces_end(body@, colon + 1, value as int, v);
                }
            }
        }
    }
    found
}

/// Tells whether the body holds the marker.
pub fn holds_ok_marker(body: &[u8]) -> (found: bool)
    ensures
        found == has_ok_marker(body@),
{
    proof {
        reveal_strlit("\"ok\"");
    }
    let name = ascii_bytes("\"ok\"");
    assert(name@.len() == 4);
    let mut from: usize = 0;
    while from <= body.len()
        invariant
            name@ == ascii("\"ok\""@),
            name@.len() == 4,
            forall|key: int| key < from ==> !marker_starts(body@, key),
        decreases body.len() + 1 - from,
    {
        match find_from(body, name, from) {
            Some(key) => {
                if marker_starts_at(body, key) {
                    return true;
                }
                from = key + 1;
            },
            None => {
                return false;
            },
        }
    }
    false
}

/// Reads the answer of a service to a health request.  The service is ready
/// when the status is in the 200s and the body holds the marker, with
/// whatever whitespace around its colon; any other answer says that it is
/// not ready.
pub fn classify_response(response: &[u8]) -> (ready: bool)
    ensures
        ready == is_ready(response@),
{
    proof {
        reveal_strlit("HTTP/1.1 ");
        reveal_strlit("HTTP/1.0 ");
        reveal_strlit("\r\n\r\n");
    }
    if response.len() < 12 {
        return false;
    }
    let version_ok = matches_at(response, ascii_bytes("HTTP/1.1 "), 0) || matches_at(
        response,
        ascii_bytes("HTTP/1.0 "),
        0,
    );
    if !version_ok {
        return false;
    }
    let status_ok = response[9] == 0x32 && 0x30 <= response[10] && response[10] <= 0x39 && 0x30
        <= response[11] && response[11] <= 0x39;
    if !status_ok {
        return false;
    }
    if response.len() > 12 && 0x30 <= response[12] && response[12] <= 0x39 {
        return false;
    }
    match find_from(response, ascii_bytes("\r\n\r\n"), 0) {
        Some(at) => {
            proof {
                lemma_body_of(response@, at as int);
                assert(response@.subrange(at + 4, response@.len() as int) =~= response@.skip(
                    at + 4,
                ));
            }
            holds_ok_marker(vstd::slice::slice_subrange(response, at + 4, response.len()))
        },
        None => {
            proof {
                lemma_no_body_not_ready(response@);
            }
            false
        },
    }
}

/// The body of a response whose first blank line stands at `at` is what
/// follows that line.
pub proof fn lemma_body_of(response: Seq<u8>, at: int)
    requires
        first_occurs_at(response, header_end(), at),
    ensures
        body_of(response) == response.skip(at + 4),
{
    // The first occurrence is the only index with none before it.
    let chosen = choose|i: int| first_occurs_at(response, header_end(), i);
    assert(chosen == at);
}

/// A response without a blank line has no body, and so does not say that
/// the service is ready, whatever its status.
pub proof fn lemma_no_body_not_ready(response: Seq<u8>)
    requires
        !contains(response, header_end()),
    ensures
        body_of(response) == Seq::<u8>::empty(),
        !is_ready(response),
{
    reveal_strlit("\"ok\"");
    assert forall|key: int| !marker_starts(Seq::<u8>::empty(), key) by {
        assert forall|colon: int, value: int|
            !marker_at(Seq::<u8>::empty(), key, colon, value) by {}
    }
}

/// Both plain spellings of the marker count: a body that holds
/// `"ok":true`, or `"ok": true` with one space behind the colon, holds the
/// marker.
pub proof fn lemma_plain_spellings_are_markers(body: Seq<u8>)
    ensures
        contains(body, ascii("\"ok\":true"@)) ==> has_ok_marker(body),
        contains(body, ascii("\"ok\": true"@)) ==> has_ok_marker(body),
{
    reveal_strlit("\"ok\":true");
    reveal_strlit("\"ok\": true");
    reveal_strlit("\"ok\"");
    reveal_strlit("true");
    if contains(body, ascii("\"ok\":true"@)) {
        let at = choose|at: int| occurs_at(body, ascii("\"ok\":true"@), at);
        let whole = body.subrange(at, at + 9);
        assert(body.subrange(at, at + 4) =~= whole.subrange(0, 4));
        assert(whole.subrange(0, 4) =~= ascii("\"ok\""@));
        assert(body.subrange(at + 5, at + 9) =~= whole.subrange(5, 9));
        assert(whole.subrange(5, 9) =~= ascii("true"@));
        assert(body[at + 4] == whole[4]);
        assert(marker_at(body, at, at + 4, at + 5));
        assert(marker_starts(body, at));
    }
    if contains(body, ascii("\"ok\": true"@)) {
        let at = choose|at: int| occurs_at(body, ascii("\"ok\": true"@), at);
        let whole = body.subrange(at, at + 10);
        assert(body.subrange(at, at + 4) =~= whole.subrange(0, 4));
        assert(whole.subrange(0, 4) =~= ascii("\"ok\""@));
        assert(body.subrange(at + 6, at + 10) =~= whole.subrange(6, 10));
        assert(whole.subrange(6, 10) =~= ascii("true"@));
        assert(body[at + 4] == whole[4]);
        assert(body[at + 5] == whole[5]);
        assert(marker_at(body, at, at + 4, at + 6));
        assert(marker_starts(body, at));
    }
}

/// Whitespace around the colon is tolerated: where the marker stands, more
/// whitespace before or behind its colon leaves it the marker.  Stated for
/// one byte of whitespace put in at `gap`, which lies between the key and
/// the value.
pub proof fn lemma_more_space_keeps_marker(
    body: Seq<u8>,
    key: int,
    colon: int,
    value: int,
    gap: int,
    space: u8,
)
    requires
        marker_at(body, key, colon, value),
        is_space(space),
        key + 4 <= gap <= value,
    ensures
        has_ok_marker(body.insert(gap, space)),
{
    reveal_strlit("\"ok\"");
    reveal_strlit("true");
    let wider = body.insert(gap, space);
    let new_colon = if gap <= colon {
        colon + 1
    } else {
        colon
    };
    assert(wider.subrange(key, key + 4) =~= body.subrange(key, key + 4));
    assert(wider.subrange(value + 1, value + 5) =~= body.subrange(value, value + 4));
    assert forall|i: int| key + 4 <= i < new_colon implies is_space(#[trigger] wider[i]) by {
        if i < gap {
            assert(wider[i] == body[i]);
        } else if i > gap {
            assert(wider[i] == body[i - 1]);
        }
    }
    assert forall|i: int| new_colon + 1 <= i < value + 1 implies is_space(
        #[trigger] wider[i],
    ) by {
        if i < gap {
            assert(wider[i] == body[i]);
        } else if i > gap {
            assert(wider[i] == body[i - 1]);
        }
    }
    assert(marker_at(wider, key, new_colon, value + 1));
    assert(marker_starts(wider, key));
}

/// A response whose status is not in the 200s does not say that the
/// service is ready, whatever its body.
pub proof fn lemma_other_status_not_ready(response: Seq<u8>)
    requires
        !has_success_status(response),
    ensures
        !is_ready(response),
{
}

/// How long the supervisor waits for a service to become ready, in milliseconds.
pub const HEALTH_TIMEOUT_MS: u64 = 10_000;

/// How long the supervisor rests between two probes, in milliseconds.
pub const HEALTH_POLL_INTERVAL_MS: u64 = 250;

/// How long a probe may take to connect, to send, and to read, in milliseconds.
pub const PROBE_IO_TIMEOUT_MS: u64 = 1_000;

/// The request that a probe sends.
pub open spec fn request_text() -> Seq<char> {
    "GET /health HTTP/1.1\r\nHost: 127.0.0.1\r\nConnection: close\r\n\r\n"@
}

/// The bytes that a probe sends to a service.
pub fn health_request() -> (request: Vec<u8>)
    ensures
        request@ == ascii(request_text()),
{
    proof {
        reveal_strlit("GET /health HTTP/1.1\r\nHost: 127.0.0.1\r\nConnection: close\r\n\r\n");
    }
    let bytes = ascii_bytes("GET /health HTTP/1.1\r\nHost: 127.0.0.1\r\nConnection: close\r\n\r\n");
    vstd::slice::slice_to_vec(bytes)
}

/// The address at which a probe reaches the service on `port`.
pub open spec fn address_of(port: u16) -> Seq<char> {
    "127.0.0.1:"@ + decimal(port as nat)
}

/// The address at which a probe reaches the service on `port`.
pub fn health_address(port: u16) -> (address: String)
    ensures
        address@ == address_of(port),
{
    let mut address = String::from_str("127.0.0.1:");
    push_decimal(&mut address, port as u64);
    address
}

/// Why a probe could not read an answer: the step that failed, with the
/// words of the operating system.
pub enum ProbeFailure {
    /// The address of the service could not be formed.
    Address(String),
    /// The connection was not made.
    Connect(String),
    /// The request was not sent.
    Write(String),
    /// The answer was not read.
    Read(String),
}

/// The content of a [`ProbeFailure`].
pub enum FailureView {
    Address(Seq<char>),
    Connect(Seq<char>),
    Write(Seq<char>),
    Read(Seq<char>),
}

impl View for ProbeFailure {
    type V = FailureView;

    open spec fn view(&self) -> FailureView {
        match *self {
            ProbeFailure::Address(detail) => FailureView::Address(detail@),
            ProbeFailure::Connect(detail) => FailureView::Connect(detail@),
            ProbeFailure::Write(detail) => FailureView::Write(detail@),
            ProbeFailure::Read(detail) => FailureView::Read(detail@),
        }
    }
}

/// The words in which a failed probe is reported.
pub open spec fn failure_message(failure: FailureView) -> Seq<char> {
    match failure {
        FailureView::Address(detail) => "invalid health address: "@ + detail,
        FailureView::Connect(detail) => "connect error: "@ + detail,
        FailureView::Write(detail) => "health request write failed: "@ + detail,
        FailureView::Read(detail) => "health response read failed: "@ + detail,
    }
}

/// Judges one probe.  An answer that was read says that the service is
/// ready or that it is not; a probe that failed to connect, to send or to
/// read is an error, which is neither.
pub fn probe_result(exchange: Result<Vec<u8>, ProbeFailure>) -> (outcome: Result<bool, String>)
    ensures
        match exchange {
            Ok(response) => outcome == Ok::<bool, String>(is_ready(response@)),
            Err(failure) => outcome is Err && outcome->Err_0@ == failure_message(failure@),
        },
{
    match exchange {
        Ok(response) => Ok(classify_response(response.as_slice())),
        Err(failure) => {
            let (prefix, detail) = match failure {
                ProbeFailure::Address(detail) => ("invalid health address: ", detail),
                ProbeFailure::Connect(detail) => ("connect error: ", detail),
                ProbeFailure::Write(detail) => ("health request write failed: ", detail),
                ProbeFailure::Read(detail) => ("health response read failed: ", detail),
            };
            let mut message = String::from_str(prefix);
            message.append(detail.as_str());
            Err(message)
        },
    }
}

/// The wait for one service to become ready: the port that is probed, how
/// long the wait may last, and why the service was last found not ready.
pub struct HealthWait {
    pub port: u16,
    pub timeout_ms: u64,
    pub last_error: String,
}

/// The content of a [`HealthWait`].
pub struct WaitView {
    pub port: u16,
    pub timeout_ms: u64,
    pub last_error: Seq<char>,
}

impl View for HealthWait {
    type V = WaitView;

    open spec fn view(&self) -> WaitView {
        WaitView { port: self.port, timeout_ms: self.timeout_ms, last_error: self.last_error@ }
    }
}

/// What the program around the wait reports.
pub enum WaitEvent {
    /// The time that has passed since the wait began, in milliseconds.
    Clock(u64),
    /// The outcome of the probe that was asked for.
    Probed(Result<bool, String>),
}

/// The content of a [`WaitEvent`].
pub enum WaitEventView {
    Clock(u64),
    Probed(Result<bool, Seq<char>>),
}

impl View for WaitEvent {
    type V = WaitEventView;

    open spec fn view(&self) -> WaitEventView {
        match *self {
            WaitEvent::Clock(elapsed_ms) => WaitEventView::Clock(elapsed_ms),
            WaitEvent::Probed(Ok(ready)) => WaitEventView::Probed(Ok(ready)),
            WaitEvent::Probed(Err(reason)) => WaitEventView::Probed(Err(reason@)),
        }
    }
}

/// What the wait asks the program around it to do next.
pub enum WaitAction {
    /// Probe the service, and report the outcome.
    Probe,
    /// Rest for this many milliseconds, then report the time.
    Sleep(u64),
    /// The service is ready; the wait is over.
    Healthy,
    /// The service did not become ready in time; the wait is over, and
    /// this is the error.
    TimedOut(String),
}

/// The content of a [`WaitAction`].
pub enum WaitActionView {
    Probe,
    Sleep(u64),
    Healthy,
    TimedOut(Seq<char>),
}

impl View for WaitAction {
    type V = WaitActionView;

    open spec fn view(&self) -> WaitActionView {
        match *self {
            WaitAction::Probe => WaitActionView::Probe,
            WaitAction::Sleep(ms) => WaitActionView::Sleep(ms),
            WaitAction::Healthy => WaitActionView::Healthy,
            WaitAction::TimedOut(message) => WaitActionView::TimedOut(message@),
        }
    }
}

/// The error of a wait that ran out of time.
pub open spec fn timeout_message(port: u16, last_error: Seq<char>) -> Seq<char> {
    "health check timeout on "@ + address_of(port) + ": "@ + last_error
}

/// A wait before its first probe.
pub open spec fn wait_start(port: u16, timeout_ms: u64) -> WaitView {
    WaitView { port, timeout_ms, last_error: "health endpoint not ready"@ }
}

/// The step that a wait takes on an event.  While time is left the service
/// is probed; the first probe that finds it ready ends the wait; any other
/// outcome is kept as the reason and the wait rests before it looks at the
/// time again.  When no time is left the wait ends with the last reason.
pub open spec fn wait_step(s: WaitView, event: WaitEventView) -> (WaitView, WaitActionView) {
    match event {
        WaitEventView::Clock(elapsed_ms) => if elapsed_ms < s.timeout_ms {
            (s, WaitActionView::Probe)
        } else {
            (s, WaitActionView::TimedOut(timeout_message(s.port, s.last_error)))
        },
        WaitEventView::Probed(Ok(ready)) => if ready {
            (s, WaitActionView::Healthy)
        } else {
            (
                WaitView { last_error: "health payload missing ok=true"@, ..s },
                WaitActionView::Sleep(HEALTH_POLL_INTERVAL_MS),
            )
        },
        WaitEventView::Probed(Err(reason)) => (
            WaitView { last_error: reason, ..s },
            WaitActionView::Sleep(HEALTH_POLL_INTERVAL_MS),
        ),
    }
}

/// The first probe that finds the service ready ends the wait, whatever
/// was found before and however little time is left.
pub proof fn lemma_first_success_ends_wait(s: WaitView)
    ensures
        wait_step(s, WaitEventView::Probed(Ok(true))).1 == WaitActionView::Healthy,
{
}

/// A wait that runs out of time ends with the reason of the last probe:
/// when a probe has failed and the next look at the time finds none left,
/// the error names the port and carries the words of that probe.
pub proof fn lemma_timeout_carries_last_reason(s: WaitView, reason: Seq<char>, elapsed_ms: u64)
    requires
        elapsed_ms >= s.timeout_ms,
    ensures
        wait_step(
            wait_step(s, WaitEventView::Probed(Err(reason))).0,
            WaitEventView::Clock(elapsed_ms),
        ).1 == WaitActionView::TimedOut(timeout_message(s.port, reason)),
{
}

/// While time is left the wait goes on probing: it never gives up before
/// the deadline.
pub proof fn lemma_no_timeout_before_deadline(s: WaitView, elapsed_ms: u64)
    requires
        elapsed_ms < s.timeout_ms,
    ensures
        wait_step(s, WaitEventView::Clock(elapsed_ms)) == (s, WaitActionView::Probe),
{
}

impl HealthWait {
    /// Opens the wait for the service on `port`.
    pub fn new(port: u16, timeout_ms: u64) -> (wait: HealthWait)
        ensures
            wait@ == wait_start(port, timeout_ms),
    {
        HealthWait { port, timeout_ms, last_error: String::from_str("health endpoint not ready") }
    }

    /// Takes the step that the event asks for.
    pub fn step(self, event: WaitEvent) -> (next: (HealthWait, WaitAction))
        ensures
            (next.0@, next.1@) == wait_step(self@, event@),
    {
        match event {
            WaitEvent::Clock(elapsed_ms) => {
                if elapsed_ms < self.timeout_ms {
                    (self, WaitAction::Probe)
                } else {
                    let mut message = String::from_str("health check timeout on ");
                    let address = health_address(self.port);
                    message.append(address.as_str());
                    message.append(": ");
                    message.append(self.last_error.as_str());
                    (self, WaitAction::TimedOut(message))
                }
            },
            WaitEvent::Probed(Ok(ready)) => {
                if ready {
                    (self, WaitAction::Healthy)
                } else {
                    (
                        HealthWait {
                            port: self.port,
                            timeout_ms: self.timeout_ms,
                            last_error: String::from_str("health payload missing ok=true"),
                        },
                        WaitAction::Sleep(HEALTH_POLL_INTERVAL_MS),
                    )
                }
            },
            WaitEvent::Probed(Err(reason)) => (
                HealthWait { port: self.port, timeout_ms: self.timeout_ms, last_error: reason },
                WaitAction::Sleep(HEALTH_POLL_INTERVAL_MS),
            ),
        }
    }
}

} // verus!
