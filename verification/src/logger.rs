//! The traffic observer: what one read of relayed bytes tells about HTTP
//! requests and their responses.
//!
//! The observer never touches the bytes it is shown. It looks at the first
//! line of each non-empty read; a line that holds the HTTP version token either
//! opens a timer (a request) or closes the one that is open (its response).
//! Everything else passes without a trace.

use crate::text::{
    contains, first_line, has_token, parse_i32, parse_number, remove_all, split_at_char,
    split_once, strip_token, take_line, trim, trimmed,
};
use ansi_term::Colour;
use vstd::prelude::*;
use vstd::utf8::*;

verus! {

/// `ansi_term::Colour`, with its variants as the crate declares them.
#[verifier::external_type_specification]
pub struct ExColour(Colour);

/// `core::str::Utf8Error`, the error of `core::str::from_utf8`. It is carried,
/// never looked into.
#[verifier::external_type_specification]
#[verifier::external_body]
pub struct ExUtf8Error(core::str::Utf8Error);

/// How a status code is shown.
#[derive(Debug, Clone, Copy, PartialEq, Eq, Structural)]
pub enum Bucket {
    /// 404.
    NotFound,
    /// 400 and above, but for 404.
    Error,
    /// 200 to 399.
    Success,
    /// Below 200.
    Unclassified,
}

/// What the observer reports for one read.
#[derive(Debug, PartialEq, Eq)]
pub enum LogEvent {
    /// A request line was seen and the timer started.
    Request { line: String },
    /// A status line was seen and the timer stopped. `elapsed` is the time
    /// since the request, `text` the line as it is to be printed.
    Response { elapsed: u64, status: i32, bucket: Bucket, text: String },
}

/// The mathematical value of a [`LogEvent`].
pub enum LogRecord {
    Request { line: Seq<char> },
    Response { elapsed: u64, status: i32, bucket: Bucket, text: Seq<char> },
}

impl View for LogEvent {
    type V = LogRecord;

    open spec fn view(&self) -> LogRecord {
        match self {
            LogEvent::Request { line } => LogRecord::Request { line: line@ },
            LogEvent::Response { elapsed, status, bucket, text } => LogRecord::Response {
                elapsed: *elapsed,
                status: *status,
                bucket: *bucket,
                text: text@,
            },
        }
    }
}

impl Clone for LogEvent {
    fn clone(&self) -> (copy: Self)
        ensures
            copy@ == self@,
    {
        match self {
            LogEvent::Request { line } => LogEvent::Request { line: line.clone() },
            LogEvent::Response { elapsed, status, bucket, text } => LogEvent::Response {
                elapsed: *elapsed,
                status: *status,
                bucket: *bucket,
                text: text.clone(),
            },
        }
    }
}

/// The correlation state of one relay: the time of the request that still
/// waits for its response, if there is one.
#[derive(Debug, Clone, Copy, PartialEq, Eq)]
pub struct LoggerState {
    pub timestamp: Option<u64>,
}

/// The HTTP version token that makes a line count.
pub open spec fn http_token() -> Seq<char> {
    seq!['H', 'T', 'T', 'P', '/', '1', '.', '1']
}

/// The bucket of a status code.
pub open spec fn classify(status: i32) -> Bucket {
    if status == 404 {
        Bucket::NotFound
    } else if status >= 400 {
        Bucket::Error
    } else if status >= 200 {
        Bucket::Success
    } else {
        Bucket::Unclassified
    }
}

/// The last digit of the escape code that selects `colour` as foreground.
pub open spec fn colour_digit(colour: Colour) -> char {
    match colour {
        Colour::Black => '0',
        Colour::Red => '1',
        Colour::Green => '2',
        Colour::Yellow => '3',
        Colour::Blue => '4',
        Colour::Purple => '5',
        Colour::Cyan => '6',
        _ => '7',
    }
}

/// `text` between the escape sequence that selects `colour` and the one that resets.
pub open spec fn painted(colour: Colour, text: Seq<char>) -> Seq<char> {
    seq!['\u{1b}', '[', '3', colour_digit(colour), 'm'] + text + seq!['\u{1b}', '[', '0', 'm']
}

/// The line that a read counts for, cleaned of the token and of the white
/// space around it; `None` where the read does not count: it is empty, it is
/// not UTF-8, or its first line lacks the token.
pub open spec fn qualifying_line(data: Seq<u8>) -> Option<Seq<char>> {
    if data.len() == 0 || !valid_utf8(data) {
        None
    } else {
        let line = first_line(decode_utf8(data));
        if contains(line, http_token()) {
            Some(trim(remove_all(line, http_token())))
        } else {
            None
        }
    }
}

/// The status code that a cleaned line starts with: what stands before its first blank.
pub open spec fn status_of(line: Seq<char>) -> Option<i32> {
    match split_once(line, ' ') {
        Some((head, _)) => parse_i32(head),
        None => None,
    }
}

/// The text printed for a status line: the line in its bucket's colour, and
/// without colour where the code is unclassified.
pub open spec fn rendered(line: Seq<char>, status: i32) -> Seq<char> {
    match classify(status) {
        Bucket::NotFound => painted(Colour::Yellow, line),
        Bucket::Error => painted(Colour::Red, line),
        Bucket::Success => painted(Colour::Green, line),
        Bucket::Unclassified => line,
    }
}

/// The time from `start` to `now`, zero where the clock went back.
pub open spec fn elapsed_between(start: u64, now: u64) -> u64 {
    if now >= start {
        (now - start) as u64
    } else {
        0
    }
}

/// The observer as a function: from the pending timer, the bytes read and the
/// time of the read to the timer afterwards and the record to emit.
pub open spec fn observe_spec(pending: Option<u64>, data: Seq<u8>, now: u64) -> (
    Option<u64>,
    Option<LogRecord>,
) {
    match qualifying_line(data) {
        None => (pending, None),
        Some(line) => match pending {
            None => (Some(now), Some(LogRecord::Request { line })),
            Some(start) => (
                None,
                match status_of(line) {
                    Some(status) => Some(
                        LogRecord::Response {
                            elapsed: elapsed_between(start, now),
                            status,
                            bucket: classify(status),
                            text: rendered(line, status),
                        },
                    ),
                    None => None,
                },
            ),
        },
    }
}

/// The view of an optional event.
pub open spec fn record_of(event: Option<LogEvent>) -> Option<LogRecord> {
    match event {
        Some(e) => Some(e@),
        None => None,
    }
}

/// `Colour::paint` followed by `to_string`: for the eight plain colours, the
/// text between `ESC [ 3n m` and `ESC [ 0 m`.
#[verifier::external_body]
fn paint(colour: Colour, text: &str) -> (r: String)
    requires
        !(colour is Fixed),
        !(colour is RGB),
    ensures
        r@ == painted(colour, text@),
{
    colour.paint(text).to_string()
}

/// `core::str::from_utf8`: succeeds on valid UTF-8 and on nothing else, and
/// gives the text that the bytes encode.
#[verifier::external_body]
fn utf8_text(bytes: &[u8]) -> (r: Result<&str, core::str::Utf8Error>)
    ensures
        r is Ok <==> valid_utf8(bytes@),
        r matches Ok(text) ==> text@ == decode_utf8(bytes@),
{
    core::str::from_utf8(bytes)
}

/// `String::push`: appends one character.
#[verifier::external_body]
fn push_char(s: &mut String, c: char)
    ensures
        final(s)@ == old(s)@.push(c),
{
    s.push(c)
}

/// The characters of `s`.
fn chars_of(s: &str) -> (v: Vec<char>)
    ensures
        v@ == s@,
{
    let mut v: Vec<char> = Vec::new();
    for c in it: s.chars()
        invariant
            v@ == it.seq().take(it.index() as int),
    {
        v.push(c);
    }
    v
}

/// The string of the characters `chars`.
fn string_of(chars: &[char]) -> (s: String)
    ensures
        s@ == chars@,
{
    let mut s = String::new();
    let mut i: usize = 0;
    while i < chars.len()
        invariant
            i <= chars@.len(),
            s@ == chars@.take(i as int),
        decreases chars@.len() - i,
    {
        push_char(&mut s, chars[i]);
        i += 1;
        assert(chars@.take(i as int) == chars@.take(i - 1).push(chars@[i - 1]));
    }
    assert(chars@.take(chars@.len() as int) == chars@);
    s
}

/// The version token as characters.
fn token_chars() -> (v: Vec<char>)
    ensures
        v@ == http_token(),
{
    let v = vec!['H', 'T', 'T', 'P', '/', '1', '.', '1'];
    assert(v@ =~= http_token());
    v
}

/// Sorts a status code into its bucket.
pub fn bucket_of(status: i32) -> (b: Bucket)
    ensures
        b == classify(status),
{
    if status == 404 {
        Bucket::NotFound
    } else if status >= 400 {
        Bucket::Error
    } else if status >= 200 {
        Bucket::Success
    } else {
        Bucket::Unclassified
    }
}

/// Reads the status code at the start of a cleaned line.
pub fn status_code(line: &[char]) -> (r: Option<i32>)
    ensures
        r == status_of(line@),
{
    match split_at_char(line, ' ') {
        Some((head, _)) => parse_number(head.as_slice()),
        None => None,
    }
}

/// Renders a status line for printing.
pub fn render(line: &[char], status: i32) -> (text: String)
    ensures
        text@ == rendered(line@, status),
{
    match bucket_of(status) {
        Bucket::NotFound => paint(Colour::Yellow, string_of(line).as_str()),
        Bucket::Error => paint(Colour::Red, string_of(line).as_str()),
        Bucket::Success => paint(Colour::Green, string_of(line).as_str()),
        Bucket::Unclassified => string_of(line),
    }
}

/// Cleans the line that a read counts for.
pub fn clean_line(data: &[u8]) -> (r: Option<Vec<char>>)
    ensures
        match r {
            Some(line) => qualifying_line(data@) == Some(line@),
            None => qualifying_line(data@) is None,
        },
{
    if data.len() == 0 {
        return None;
    }
    let text = match utf8_text(data) {
        Ok(text) => text,
        Err(_) => {
            return None;
        },
    };
    let chars = chars_of(text);
    let line = take_line(chars.as_slice());
    let token = token_chars();
    if !has_token(line.as_slice(), token.as_slice()) {
        return None;
    }
    let stripped = strip_token(line.as_slice(), token.as_slice());
    Some(trimmed(stripped.as_slice()))
}

impl LoggerState {
    /// A state with no request pending.
    pub fn new() -> (state: Self)
        ensures
            state.timestamp is None,
    {
        LoggerState { timestamp: None }
    }

    /// Takes note of one read of `data` at time `now`, and returns what is to be
    /// logged for it. `now` is a reading of a clock that does not go back, in
    /// any unit; `elapsed` comes out in the same unit.
    pub fn observe(&mut self, data: &[u8], now: u64) -> (event: Option<LogEvent>)
        ensures
            (final(self).timestamp, record_of(event)) == observe_spec(
                old(self).timestamp,
                data@,
                now,
            ),
    {
        let line = match clean_line(data) {
            Some(line) => line,
            None => {
                return None;
            },
        };
        match self.timestamp {
            None => {
                self.timestamp = Some(now);
                Some(LogEvent::Request { line: string_of(line.as_slice()) })
            },
            Some(start) => {
                self.timestamp = None;
                let status = match status_code(line.as_slice()) {
                    Some(status) => status,
                    None => {
                        return None;
                    },
                };
                let elapsed = if now >= start {
                    now - start
                } else {
                    0
                };
                Some(
                    LogEvent::Response {
                        elapsed,
                        status,
                        bucket: bucket_of(status),
                        text: render(line.as_slice(), status),
                    },
                )
            },
        }
    }
}

/// A read whose first line lacks the version token leaves the timer as it was
/// and logs nothing.
pub proof fn lemma_other_traffic_is_silent(pending: Option<u64>, data: Seq<u8>, now: u64)
    requires
        !valid_utf8(data) || !contains(first_line(decode_utf8(data)), http_token()),
    ensures
        observe_spec(pending, data, now) == (pending, None::<LogRecord>),
{
}

/// A counted line opens the timer when none is open and closes it when one is:
/// after two counted reads the observer is back where it began.
pub proof fn lemma_request_then_response(first: Seq<u8>, second: Seq<u8>, t1: u64, t2: u64)
    requires
        qualifying_line(first) is Some,
        qualifying_line(second) is Some,
    ensures
        observe_spec(None, first, t1).0 == Some(t1),
        observe_spec(None, first, t1).1 == Some(
            LogRecord::Request { line: qualifying_line(first)->0 },
        ),
        observe_spec(Some(t1), second, t2).0 is None,
{
}

} // verus!
