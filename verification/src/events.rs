//! The event logger: which line of the log each event of a supervised
//! process becomes, and how a line of the log is framed.

use crate::text::{decimal, push_decimal, push_signed_decimal, signed_decimal, trim, trimmed};
use vstd::prelude::*;
use vstd::string::*;
use vstd::utf8::{decode_utf8, valid_utf8};

verus! {

/// The name of the log file in the application's data directory.
pub const SIDECAR_LOG_FILE: &'static str = "sidecar.log";

/// The text that `String::from_utf8_lossy` makes of the bytes: their
/// decoding as UTF-8, with U+FFFD in place of what is not valid.
pub uninterp spec fn utf8_lossy(bytes: Seq<u8>) -> Seq<char>;

/// Calls `String::from_utf8_lossy`.  The result is a function of the bytes
/// alone; for bytes that are valid UTF-8 it is their decoding.
#[verifier::external_body]
fn decode_lossy(bytes: &[u8]) -> (text: String)
    ensures
        text@ == utf8_lossy(bytes@),
        valid_utf8(bytes@) ==> text@ == decode_utf8(bytes@),
{
    String::from_utf8_lossy(bytes).into_owned()
}

/// The line that a piece of output becomes: the text without the
/// whitespace around it, or nothing where that leaves nothing.
pub open spec fn normalized(text: Seq<char>) -> Option<Seq<char>> {
    if trimmed(text).len() == 0 {
        None
    } else {
        Some(trimmed(text))
    }
}

/// Trims a piece of output; blank output gives no line.
pub fn normalized_text(text: &str) -> (line: Option<String>)
    ensures
        line.deep_view() == normalized(text@),
{
    let inner = trim(text);
    if inner.unicode_len() == 0 {
        None
    } else {
        Some(String::from_str(inner))
    }
}

/// Decodes a piece of output, replacing what is not valid UTF-8, and trims
/// it; blank output gives no line.
pub fn normalized_line(bytes: &[u8]) -> (line: Option<String>)
    ensures
        line.deep_view() == normalized(utf8_lossy(bytes@)),
        valid_utf8(bytes@) ==> line.deep_view() == normalized(decode_utf8(bytes@)),
{
    let text = decode_lossy(bytes);
    normalized_text(text.as_str())
}

/// What a supervised process reports while it runs.
pub enum ProcessEvent {
    /// A line on standard output.
    Stdout(Vec<u8>),
    /// A line on standard error.
    Stderr(Vec<u8>),
    /// An error of the process or of its streams.
    Error(String),
    /// The process ended, with an exit code, a signal, both or neither.
    Terminated { code: Option<i32>, signal: Option<i32> },
    /// Anything else; it leaves no trace in the log.
    Other,
}

/// A [`ProcessEvent`] with its output decoded.
pub enum DecodedEvent {
    Stdout(Seq<char>),
    Stderr(Seq<char>),
    Error(Seq<char>),
    Terminated { code: Option<i32>, signal: Option<i32> },
    Other,
}

impl View for ProcessEvent {
    type V = DecodedEvent;

    open spec fn view(&self) -> DecodedEvent {
        match *self {
            ProcessEvent::Stdout(bytes) => DecodedEvent::Stdout(utf8_lossy(bytes@)),
            ProcessEvent::Stderr(bytes) => DecodedEvent::Stderr(utf8_lossy(bytes@)),
            ProcessEvent::Error(reason) => DecodedEvent::Error(reason@),
            ProcessEvent::Terminated { code, signal } => DecodedEvent::Terminated { code, signal },
            ProcessEvent::Other => DecodedEvent::Other,
        }
    }
}

/// The text in which an optional number is logged: `None`, or the number
/// in decimal inside `Some(..)`.
pub open spec fn optional_number(value: Option<i32>) -> Seq<char> {
    match value {
        Some(n) => "Some("@ + signed_decimal(n as int) + ")"@,
        None => "None"@,
    }
}

/// The service's name in square brackets, with a space behind.
pub open spec fn tag(service: Seq<char>) -> Seq<char> {
    "["@ + service + "] "@
}

/// The log line for a piece of output on the named stream, if the output
/// is not blank.
pub open spec fn output_line_of(service: Seq<char>, stream: Seq<char>, text: Seq<char>) -> Option<
    Seq<char>,
> {
    match normalized(text) {
        Some(line) => Some(tag(service) + stream + ": "@ + line),
        None => None,
    }
}

/// The log line of an event, if it has one.  Each event has at most one
/// line; blank output and events of other kinds have none.
pub open spec fn event_line_of(service: Seq<char>, event: DecodedEvent) -> Option<Seq<char>> {
    match event {
        DecodedEvent::Stdout(text) => output_line_of(service, "stdout"@, text),
        DecodedEvent::Stderr(text) => output_line_of(service, "stderr"@, text),
        DecodedEvent::Error(reason) => Some(tag(service) + "process error: "@ + reason),
        DecodedEvent::Terminated { code, signal } => Some(
            tag(service) + "terminated code="@ + optional_number(code) + " signal="@
                + optional_number(signal),
        ),
        DecodedEvent::Other => None,
    }
}

/// A line of the log: the time in seconds since the epoch in square
/// brackets, a space, and the message.
pub open spec fn log_record_of(timestamp: u64, message: Seq<char>) -> Seq<char> {
    "["@ + decimal(timestamp as nat) + "] "@ + message
}

fn push_optional_number(out: &mut String, value: Option<i32>)
    ensures
        final(out)@ == old(out)@ + optional_number(value),
{
    match value {
        Some(n) => {
            out.append("Some(");
            push_signed_decimal(out, n);
            out.append(")");
            assert(out@ =~= old(out)@ + optional_number(value));
        },
        None => {
            out.append("None");
        },
    }
}

fn tagged(service: &str) -> (text: String)
    ensures
        text@ == tag(service@),
{
    let mut text = String::from_str("[");
    text.append(service);
    text.append("] ");
    text
}

/// The log line for a piece of decoded output on the named stream; blank
/// output has none.
pub fn output_line(service: &str, stream: &str, text: &str) -> (line: Option<String>)
    ensures
        line.deep_view() == output_line_of(service@, stream@, text@),
{
    match normalized_text(text) {
        Some(inner) => {
            let mut line = tagged(service);
            line.append(stream);
            line.append(": ");
            line.append(inner.as_str());
            Some(line)
        },
        None => None,
    }
}

/// The log line of an event of the service, if it has one.
pub fn event_line(service: &str, event: &ProcessEvent) -> (line: Option<String>)
    ensures
        line.deep_view() == event_line_of(service@, event@),
{
    match event {
        ProcessEvent::Stdout(bytes) => {
            let text = decode_lossy(bytes.as_slice());
            output_line(service, "stdout", text.as_str())
        },
        ProcessEvent::Stderr(bytes) => {
            let text = decode_lossy(bytes.as_slice());
            output_line(service, "stderr", text.as_str())
        },
        ProcessEvent::Error(reason) => {
            let mut line = tagged(service);
            line.append("process error: ");
            line.append(reason.as_str());
            Some(line)
        },
        ProcessEvent::Terminated { code, signal } => {
            let mut line = tagged(service);
            line.append("terminated code=");
            push_optional_number(&mut line, *code);
            line.append(" signal=");
            push_optional_number(&mut line, *signal);
            Some(line)
        },
        ProcessEvent::Other => None,
    }
}

/// Frames a message as a line of the log.
pub fn log_record(timestamp: u64, message: &str) -> (record: String)
    ensures
        record@ == log_record_of(timestamp, message@),
{
    let mut record = String::from_str("[");
    push_decimal(&mut record, timestamp);
    record.append("] ");
    record.append(message);
    record
}

} // verus!
