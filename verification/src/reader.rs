use vstd::prelude::*;

use std::time::{Duration, SystemTime, UNIX_EPOCH};

use crate::proto::{OverlayConfig, OverlayMessage, Status};

verus! {

/// A source of soul memory readings.
pub trait MemoryReader {
    /// Whether `r` is a reading this reader, as it stands, may give for
    /// `cfg`. A reader that does not define it admits every reading.
    open spec fn gives(&self, cfg: OverlayConfig, r: Result<i32, String>) -> bool {
        true
    }

    /// Reads soul memory as `cfg` describes.
    fn read_value(&mut self, cfg: &OverlayConfig) -> (r: Result<i32, String>)
        ensures
            old(self).gives(*cfg, r),
    ;
}

/// A reader that always reports the same value.
pub struct MockMemoryReader {
    value: i32,
}

impl MockMemoryReader {
    /// A reader that reports `value`.
    pub fn new(value: i32) -> (r: Self)
        ensures
            r.reported() == value,
    {
        Self { value }
    }

    /// The value this reader reports.
    pub closed spec fn reported(&self) -> i32 {
        self.value
    }
}

impl MemoryReader for MockMemoryReader {
    open spec fn gives(&self, cfg: OverlayConfig, r: Result<i32, String>) -> bool {
        r == Ok::<i32, String>(self.reported())
    }

    fn read_value(&mut self, cfg: &OverlayConfig) -> (r: Result<i32, String>)
        ensures
            r == Ok::<i32, String>(old(self).reported()),
            final(self).reported() == old(self).reported(),
    {
        Ok(self.value)
    }
}

/// Whether `m` reports `reading` at `now_ms`: the value with a success, or
/// the error's text with an error.
pub open spec fn reports(m: OverlayMessage, reading: Result<i32, String>, now_ms: u64) -> bool {
    &&& m.timestamp_ms == now_ms
    &&& match reading {
        Ok(v) => m.status == Status::Success && m.value == Some(v) && m.error is None,
        Err(e) => m.status == Status::Error && m.value is None && (m.error matches Some(t) && t@ == e@),
    }
}

/// The message that reports `reading` at `now_ms`.
pub fn message_from_reading(reading: Result<i32, String>, now_ms: u64) -> (m: OverlayMessage)
    ensures
        reports(m, reading, now_ms),
{
    match reading {
        Ok(value) => OverlayMessage::ok(value, now_ms),
        Err(err) => OverlayMessage::error(err.as_str(), now_ms),
    }
}

/// Reads once and reports the reading at `now_ms`.
pub fn build_message<R: MemoryReader + ?Sized>(reader: &mut R, cfg: &OverlayConfig, now_ms: u64) -> (m: OverlayMessage)
    ensures
        m.timestamp_ms == now_ms,
        m.status == Status::Success ==> m.value is Some && m.error is None,
        m.status == Status::Error ==> m.value is None && m.error is Some,
        exists|reading: Result<i32, String>| #[trigger] old(reader).gives(*cfg, reading) && reports(m, reading, now_ms),
{
    let reading = reader.read_value(cfg);
    message_from_reading(reading, now_ms)
}

#[verifier::external_type_specification]
#[verifier::external_body]
pub struct ExSystemTime(SystemTime);

/// The current time, by `SystemTime::now`.
#[verifier::external_body]
fn system_time_now() -> SystemTime {
    SystemTime::now()
}

/// How long after the Unix epoch `t` is, by `SystemTime::duration_since`;
/// `None` for a time before it.
#[verifier::external_body]
fn since_unix_epoch(t: SystemTime) -> Option<Duration> {
    t.duration_since(UNIX_EPOCH).ok()
}

/// The whole milliseconds in `d`, by `Duration::as_millis`.
#[verifier::external_body]
fn whole_millis(d: Duration) -> u128 {
    d.as_millis()
}

/// A time stamp from the whole milliseconds since the Unix epoch: their low
/// 64 bits, or 0 for a time before the epoch.
pub fn epoch_millis(elapsed_ms: Option<u128>) -> (r: u64)
    ensures
        r == match elapsed_ms {
            Some(m) => m as u64,
            None => 0,
        },
{
    match elapsed_ms {
        Some(m) => m as u64,
        None => 0,
    }
}

/// Milliseconds since the Unix epoch, truncated to 64 bits; 0 if the clock is
/// set before the epoch.
pub fn now_ms() -> u64 {
    let elapsed = match since_unix_epoch(system_time_now()) {
        Some(d) => Some(whole_millis(d)),
        None => None,
    };
    epoch_millis(elapsed)
}

} // verus!

verus! {

/// `n` in decimal, zero-padded to three digits.
pub open spec fn decimal3(n: nat) -> Seq<char> {
    if n < 10 {
        "00"@ + crate::text::decimal(n)
    } else if n < 100 {
        "0"@ + crate::text::decimal(n)
    } else {
        crate::text::decimal(n)
    }
}

/// A diagnostic line stamped with seconds and milliseconds since the epoch.
pub open spec fn log_text(now_ms: u64, message: Seq<char>) -> Seq<char> {
    "["@ + crate::text::decimal((now_ms / 1000) as nat) + "."@ + decimal3((now_ms % 1000) as nat) + "] "@ + message
}

/// Stamps a diagnostic line with the time `now_ms`.
pub fn log_line(now_ms: u64, message: &str) -> (r: String)
    ensures
        r@ == log_text(now_ms, message@),
{
    let mut r = crate::text::string_of("[");
    crate::text::push_decimal(&mut r, now_ms / 1000);
    r.append(".");
    let millis = now_ms % 1000;
    if millis < 10 {
        r.append("00");
    } else if millis < 100 {
        r.append("0");
    }
    crate::text::push_decimal(&mut r, millis);
    r.append("] ");
    r.append(message);
    r
}

/// The diagnostic to log for a message, if it reports an error.
pub fn message_log_text(msg: &OverlayMessage) -> (r: Option<String>)
    ensures
        match msg.error {
            Some(e) => r matches Some(t) && t@ == "memory read error: "@ + e@,
            None => r is None,
        },
{
    match &msg.error {
        Some(err) => {
            let mut t = crate::text::string_of("memory read error: ");
            t.append(err.as_str());
            Some(t)
        },
        None => None,
    }
}

} // verus!
