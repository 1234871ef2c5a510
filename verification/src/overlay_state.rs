use vstd::prelude::*;
use vstd::string::*;

use crate::plugin::{decimal_value, DEFAULT_SHOW_STALE_PREFIX};
use crate::proto::{OverlayMessage, Status};
use crate::text;
use crate::text::string_of;

verus! {

/// What the overlay last heard from the helper.
#[derive(Debug)]
pub enum PayloadState {
    Value(i32),
    Error(String),
    Disconnected,
}

/// The longest error, in bytes, that the overlay shows whole.
pub const MAX_ERROR_BYTES: usize = 96;

/// An error message as the overlay shows it: whole if its UTF-8 encoding is at
/// most 96 bytes, else its first 96 characters followed by `...`.
pub open spec fn summarized(message: Seq<char>) -> Seq<char> {
    if vstd::utf8::encode_utf8(message).len() <= 96 {
        message
    } else if message.len() <= 96 {
        message + "..."@
    } else {
        message.take(96) + "..."@
    }
}

/// The text the overlay shows for `payload`.
pub open spec fn display_for(payload: PayloadState, prefix: Seq<char>, show_stale_prefix: bool) -> Seq<char> {
    match payload {
        PayloadState::Value(v) => prefix + text::signed_decimal(v as int),
        PayloadState::Error(m) => "Error: "@ + summarized(m@),
        PayloadState::Disconnected => if show_stale_prefix {
            "[STALE] "@ + prefix
        } else {
            "Disconnected"@
        },
    }
}

/// The connection status shown for `payload`.
pub open spec fn status_for(payload: PayloadState) -> Seq<char> {
    match payload {
        PayloadState::Value(_) => "Connected"@,
        PayloadState::Error(_) => "Error"@,
        PayloadState::Disconnected => "Disconnected"@,
    }
}

/// Each character takes one to four bytes in UTF-8.
proof fn lemma_utf8_len_bounds(chars: Seq<char>)
    ensures
        chars.len() <= vstd::utf8::encode_utf8(chars).len() <= 4 * chars.len(),
    decreases chars.len(),
{
    if chars.len() > 0 {
        lemma_utf8_len_bounds(chars.drop_first());
    }
}

/// Shortens an error message for display.
pub fn summarize_error(message: &str) -> (r: String)
    ensures
        r@ == summarized(message@),
{
    let n = message.unicode_len();
    proof {
        lemma_utf8_len_bounds(message@);
    }
    if n <= MAX_ERROR_BYTES && message.len() <= MAX_ERROR_BYTES {
        return string_of(message);
    }
    let keep = if n <= MAX_ERROR_BYTES {
        n
    } else {
        MAX_ERROR_BYTES
    };
    let head = message.substring_char(0, keep);
    let mut out = string_of(head);
    out.append("...");
    if n <= MAX_ERROR_BYTES {
        assert(head@ =~= message@);
    }
    out
}

/// The overlay source's settings and what it shows.
pub struct OverlayState {
    pub prefix: String,
    pub pipe_name: String,
    pub reconnect_ms: u64,
    pub font_face: String,
    pub font_size: u32,
    pub text_color: u32,
    pub stale_color: u32,
    pub show_stale_prefix: bool,
    pub status_text: String,
    pub update_status: String,
    pub value: Option<i32>,
    pub stale: bool,
    pub last_error: Option<String>,
    pub last_update_ms: Option<u64>,
    pub payload: PayloadState,
    pub display_text: String,
    pub dirty: bool,
}

/// The settings a user can change, with strings by their views.
pub struct OverlaySettings {
    pub prefix: Seq<char>,
    pub pipe_name: Seq<char>,
    pub reconnect_ms: u64,
    pub font_face: Seq<char>,
    pub font_size: u32,
    pub text_color: u32,
    pub stale_color: u32,
    pub show_stale_prefix: bool,
}

/// What taking `msg` makes of the record: the time of the last update, and
/// the payload, value, staleness and error that the message reports.
pub open spec fn message_applied(before: OverlayState, after: OverlayState, msg: OverlayMessage) -> bool {
    &&& after.last_update_ms == Some(msg.timestamp_ms)
    &&& match (msg.status, msg.value) {
        (Status::Success, Some(v)) => {
            &&& after.payload == PayloadState::Value(v)
            &&& after.value == Some(v)
            &&& !after.stale
            &&& after.last_error is None
        },
        (Status::Success, None) => {
            &&& after.payload matches PayloadState::Error(e) && e@ == "helper returned ok without value"@
            &&& after.value == before.value
            &&& after.stale
            &&& after.last_error matches Some(e) && e@ == "helper returned ok without value"@
        },
        (Status::Error, _) => {
            let shown = match msg.error {
                Some(e) => e@,
                None => "helper error"@,
            };
            &&& after.payload matches PayloadState::Error(e) && e@ == shown
            &&& after.value == before.value
            &&& after.stale
            &&& after.last_error matches Some(e) && e@ == shown
        },
    }
}

impl OverlayState {
    /// The shown text and status agree with the payload and settings.
    pub open spec fn wf(&self) -> bool {
        &&& self.display_text@ == display_for(self.payload, self.prefix@, self.show_stale_prefix)
        &&& self.status_text@ == status_for(self.payload)
    }

    /// The user-changeable settings.
    pub open spec fn settings(&self) -> OverlaySettings {
        OverlaySettings {
            prefix: self.prefix@,
            pipe_name: self.pipe_name@,
            reconnect_ms: self.reconnect_ms,
            font_face: self.font_face@,
            font_size: self.font_size,
            text_color: self.text_color,
            stale_color: self.stale_color,
            show_stale_prefix: self.show_stale_prefix,
        }
    }

    /// The record of readings: last value, staleness, last error and update time.
    pub open spec fn same_record(&self, other: &Self) -> bool {
        &&& self.value == other.value
        &&& self.stale == other.stale
        &&& self.last_error == other.last_error
        &&& self.last_update_ms == other.last_update_ms
    }

    /// A state showing that no helper is connected yet.
    pub fn new(
        prefix: String,
        pipe_name: String,
        reconnect_ms: u64,
        font_face: String,
        font_size: u32,
        text_color: u32,
        stale_color: u32,
        show_stale_prefix: bool,
    ) -> (s: Self)
        ensures
            s.wf(),
            s.settings() == (OverlaySettings {
                prefix: prefix@,
                pipe_name: pipe_name@,
                reconnect_ms,
                font_face: font_face@,
                font_size,
                text_color,
                stale_color,
                show_stale_prefix,
            }),
            s.update_status@ == "checking for updates"@,
            s.value is None,
            s.stale,
            s.last_error is None,
            s.last_update_ms is None,
            s.payload is Disconnected,
            s.dirty,
    {
        let mut state = Self {
            prefix,
            pipe_name,
            reconnect_ms,
            font_face,
            font_size,
            text_color,
            stale_color,
            show_stale_prefix,
            status_text: string_of("Disconnected"),
            update_status: string_of("checking for updates"),
            value: None,
            stale: true,
            last_error: None,
            last_update_ms: None,
            payload: PayloadState::Disconnected,
            display_text: String::new(),
            dirty: true,
        };
        state.refresh_display_text();
        state
    }

    /// Recomputes the shown text and status from the payload.
    pub fn refresh_display_text(&mut self)
        ensures
            final(self).wf(),
            final(self).settings() == old(self).settings(),
            final(self).same_record(old(self)),
            final(self).payload == old(self).payload,
            final(self).update_status == old(self).update_status,
            final(self).dirty == old(self).dirty,
    {
        let (status, shown) = match &self.payload {
            PayloadState::Value(value) => {
                let mut t = self.prefix.clone();
                text::push_signed_decimal(&mut t, *value as i64);
                (string_of("Connected"), t)
            },
            PayloadState::Error(message) => {
                let mut t = string_of("Error: ");
                let short = summarize_error(message.as_str());
                t.append(short.as_str());
                (string_of("Error"), t)
            },
            PayloadState::Disconnected => {
                let t = if self.show_stale_prefix {
                    let mut t = string_of("[STALE] ");
                    t.append(self.prefix.as_str());
                    t
                } else {
                    string_of("Disconnected")
                };
                (string_of("Disconnected"), t)
            },
        };
        self.status_text = status;
        self.display_text = shown;
    }

    /// What showing `payload` does: the text follows the payload, settings and
    /// record stay, and the text is marked for redraw if it changed.
    pub open spec fn shows_payload(before: Self, after: Self, payload: PayloadState) -> bool {
        &&& after.wf()
        &&& after.payload == payload
        &&& after.settings() == before.settings()
        &&& after.same_record(&before)
        &&& after.update_status == before.update_status
        &&& after.dirty == (before.dirty || after.display_text@ != before.display_text@)
    }

    /// Shows `payload`, marking the text for redraw if it changed.
    pub fn set_payload(&mut self, payload: PayloadState)
        requires
            old(self).wf(),
        ensures
            Self::shows_payload(*old(self), *final(self), payload),
    {
        let old_text = self.display_text.clone();
        self.payload = payload;
        self.refresh_display_text();
        if !(self.display_text == old_text) {
            self.dirty = true;
        }
    }

    /// Takes new settings; where any differs, recomputes the text and marks it for redraw.
    pub fn set_config(
        &mut self,
        prefix: String,
        pipe_name: String,
        reconnect_ms: u64,
        font_face: String,
        font_size: u32,
        text_color: u32,
        stale_color: u32,
        show_stale_prefix: bool,
    )
        requires
            old(self).wf(),
        ensures
            final(self).wf(),
            final(self).settings() == (OverlaySettings {
                prefix: prefix@,
                pipe_name: pipe_name@,
                reconnect_ms,
                font_face: font_face@,
                font_size,
                text_color,
                stale_color,
                show_stale_prefix,
            }),
            final(self).payload == old(self).payload,
            final(self).same_record(old(self)),
            final(self).update_status == old(self).update_status,
            final(self).dirty == (old(self).dirty || final(self).settings() != old(self).settings()),
    {
        let mut changed = false;
        if !(self.prefix == prefix) {
            self.prefix = prefix;
            changed = true;
        }
        if !(self.pipe_name == pipe_name) {
            self.pipe_name = pipe_name;
            changed = true;
        }
        if self.reconnect_ms != reconnect_ms {
            self.reconnect_ms = reconnect_ms;
            changed = true;
        }
        if !(self.font_face == font_face) {
            self.font_face = font_face;
            changed = true;
        }
        if self.font_size != font_size {
            self.font_size = font_size;
            changed = true;
        }
        if self.text_color != text_color {
            self.text_color = text_color;
            changed = true;
        }
        if self.stale_color != stale_color {
            self.stale_color = stale_color;
            changed = true;
        }
        if self.show_stale_prefix != show_stale_prefix {
            self.show_stale_prefix = show_stale_prefix;
            changed = true;
        }
        assert(changed == (self.settings() != old(self).settings()));
        if changed {
            self.refresh_display_text();
            self.dirty = true;
        }
    }

    /// The status line with the update check's outcome.
    pub fn status_with_update(&self) -> (r: String)
        ensures
            r@ == self.status_text@ + " | Update: "@ + self.update_status@,
    {
        let mut r = self.status_text.clone();
        r.append(" | Update: ");
        r.append(self.update_status.as_str());
        r
    }

    /// Takes a message from the helper.
    pub fn apply_message(&mut self, msg: OverlayMessage)
        requires
            old(self).wf(),
        ensures
            final(self).wf(),
            final(self).settings() == old(self).settings(),
            final(self).update_status == old(self).update_status,
            final(self).dirty == (old(self).dirty || final(self).display_text@ != old(self).display_text@),
            message_applied(*old(self), *final(self), msg),
    {
        self.last_update_ms = Some(msg.timestamp_ms);
        match msg.status {
            Status::Success => {
                match msg.value {
                    Some(value) => {
                        self.value = Some(value);
                        self.last_error = None;
                        self.stale = false;
                        self.set_payload(PayloadState::Value(value));
                    },
                    None => {
                        self.stale = true;
                        self.last_error = Some(string_of("helper returned ok without value"));
                        self.set_payload(PayloadState::Error(string_of("helper returned ok without value")));
                    },
                }
            },
            Status::Error => {
                let err = match msg.error {
                    Some(e) => e,
                    None => string_of("helper error"),
                };
                self.stale = true;
                self.last_error = Some(err.clone());
                self.set_payload(PayloadState::Error(err));
            },
        }
    }

    /// Notes that the helper is not connected, and why.
    pub fn mark_disconnected(&mut self, reason: Option<String>)
        requires
            old(self).wf(),
        ensures
            final(self).wf(),
            final(self).payload is Disconnected,
            final(self).stale,
            final(self).last_error == reason,
            final(self).value == old(self).value,
            final(self).last_update_ms == old(self).last_update_ms,
            final(self).settings() == old(self).settings(),
            final(self).update_status == old(self).update_status,
            final(self).dirty == (old(self).dirty || final(self).display_text@ != old(self).display_text@),
    {
        self.stale = true;
        self.last_error = reason;
        self.set_payload(PayloadState::Disconnected);
    }
}

} // verus!

verus! {

/// The width, in pixels, of the text area.
pub const TEXT_EXTENTS_CX: u32 = 600;

/// The height, in pixels, of the text area.
pub const TEXT_EXTENTS_CY: u32 = 80;

/// What the source draws on a video tick.
pub struct TextFrame {
    /// The text to hand to the text source, where it changed since the last tick.
    pub text: Option<String>,
    pub should_render: bool,
    pub color: u32,
    pub font_face: String,
    pub font_size: u32,
    pub width: u32,
    pub height: u32,
}

/// What the connection to the helper reported.
pub enum LinkEvent {
    /// The helper's socket could not be reached.
    ConnectFailed,
    /// A line holding a message.
    Message(OverlayMessage),
    /// A line that is not a message, with the parse error.
    InvalidPayload(String),
    /// The helper closed the socket.
    Closed,
    /// Reading the socket failed.
    ReadFailed,
    /// The worker reading the socket panicked.
    WorkerPanicked,
}

/// What the connection to the helper reporting `event` makes of the state:
/// the record stays well formed and keeps its settings, a message is taken,
/// a panicked worker shows an error, and any other event marks the source
/// disconnected, with the reason.
pub open spec fn link_step(before: OverlayState, after: OverlayState, event: LinkEvent) -> bool {
    &&& after.wf()
    &&& after.settings() == before.settings()
    &&& after.update_status == before.update_status
    &&& after.dirty == (before.dirty || after.display_text@ != before.display_text@)
    &&& match event {
        LinkEvent::Message(m) => message_applied(before, after, m),
        LinkEvent::WorkerPanicked => {
            &&& after.payload matches PayloadState::Error(e) && e@ == "worker thread panicked"@
            &&& after.same_record(&before)
        },
        _ => {
            &&& after.payload is Disconnected
            &&& after.stale
            &&& after.value == before.value
            &&& after.last_update_ms == before.last_update_ms
            &&& after.last_error matches Some(reason) && reason@ == match event {
                LinkEvent::ConnectFailed => "helper socket not connected"@,
                LinkEvent::Closed => "helper socket closed"@,
                LinkEvent::ReadFailed => "helper socket read failed"@,
                LinkEvent::InvalidPayload(err) => "invalid IPC payload: "@ + err@,
                _ => Seq::<char>::empty(),
            }
        },
    }
}

/// The time of the last message among `events`, or `initial` if none is one.
pub open spec fn last_message_time(events: Seq<LinkEvent>, initial: Option<u64>) -> Option<u64>
    decreases events.len(),
{
    if events.len() == 0 {
        initial
    } else {
        match events.last() {
            LinkEvent::Message(m) => Some(m.timestamp_ms),
            _ => last_message_time(events.drop_last(), initial),
        }
    }
}

/// The value of the last message among `events` that carried one, or
/// `initial` if none did.
pub open spec fn last_value(events: Seq<LinkEvent>, initial: Option<i32>) -> Option<i32>
    decreases events.len(),
{
    if events.len() == 0 {
        initial
    } else {
        match events.last() {
            LinkEvent::Message(m) => match (m.status, m.value) {
                (Status::Success, Some(v)) => Some(v),
                _ => last_value(events.drop_last(), initial),
            },
            _ => last_value(events.drop_last(), initial),
        }
    }
}

/// Over any run of link events, as the worker meets them: the record stays
/// well formed with the settings and update status it began with, its time
/// of last update is that of the last message, and the value it keeps is
/// that of the last message that carried one, however the connection came
/// and went.
pub proof fn lemma_link_run(states: Seq<OverlayState>, events: Seq<LinkEvent>)
    requires
        states.len() == events.len() + 1,
        states[0].wf(),
        forall|i: int| 0 <= i < events.len() ==> #[trigger] link_step(states[i], states[i + 1], events[i]),
    ensures
        forall|i: int|
            0 <= i < states.len() ==> {
                &&& (#[trigger] states[i]).wf()
                &&& states[i].settings() == states[0].settings()
                &&& states[i].update_status == states[0].update_status
            },
        states.last().last_update_ms == last_message_time(events, states[0].last_update_ms),
        states.last().value == last_value(events, states[0].value),
    decreases events.len(),
{
    if events.len() > 0 {
        let n = events.len() - 1;
        let prev_states = states.drop_last();
        let prev_events = events.drop_last();
        assert forall|i: int| 0 <= i < prev_events.len() implies #[trigger] link_step(
            prev_states[i],
            prev_states[i + 1],
            prev_events[i],
        ) by {
            assert(link_step(states[i], states[i + 1], events[i]));
        }
        lemma_link_run(prev_states, prev_events);
        assert(link_step(states[n], states[n + 1], events[n]));
        assert(prev_states.last() == states[n]);
        assert(events.last() == events[n]);
        assert forall|i: int| 0 <= i < states.len() implies {
            &&& (#[trigger] states[i]).wf()
            &&& states[i].settings() == states[0].settings()
            &&& states[i].update_status == states[0].update_status
        } by {
            if i < states.len() - 1 {
                assert(states[i] == prev_states[i]);
            }
        }
    }
}

/// The shown text and status are a function of the payload and the settings.
pub proof fn lemma_display_follows_payload(s: OverlayState, t: OverlayState)
    requires
        s.wf(),
        t.wf(),
        s.payload == t.payload,
        s.settings() == t.settings(),
    ensures
        s.display_text@ == t.display_text@,
        s.status_text@ == t.status_text@,
{
}

/// Showing the payload already shown changes nothing that is drawn, and asks
/// for no redraw.
pub proof fn lemma_same_payload_no_redraw(s0: OverlayState, s1: OverlayState, s2: OverlayState, payload: PayloadState)
    requires
        OverlayState::shows_payload(s0, s1, payload),
        OverlayState::shows_payload(s1, s2, payload),
    ensures
        s2.display_text@ == s1.display_text@,
        s2.status_text@ == s1.status_text@,
        s2.dirty == s1.dirty,
{
}

/// What a signed decimal text reads as: an optional `-`, then digits.
pub open spec fn signed_decimal_value(s: Seq<char>) -> Option<int> {
    if s.len() > 0 && s[0] == '-' {
        match decimal_value(s.drop_first()) {
            Some(n) => Some(-(n as int)),
            None => None,
        }
    } else {
        match decimal_value(s) {
            Some(n) => Some(n as int),
            None => None,
        }
    }
}

proof fn lemma_decimal_reads_back(n: nat)
    ensures
        decimal_value(text::decimal(n)) == Some(n),
        text::decimal(n).len() > 0,
        text::decimal(n)[0] != '-',
    decreases n,
{
    if n < 10 {
        let d = text::decimal_digit(n);
        assert(text::decimal(n) == seq![d]);
        assert(seq![d].drop_last() =~= Seq::<char>::empty());
        assert(decimal_value(Seq::<char>::empty()) == Some(0nat));
        assert(d as u32 == 48 + n);
        assert(decimal_value(seq![d]) == Some((10 * 0 + ((d as u32) - 48)) as nat));
    } else {
        lemma_decimal_reads_back(n / 10);
        let d = text::decimal_digit(n % 10);
        let digits = text::decimal(n);
        assert(digits == text::decimal(n / 10).push(d));
        assert(digits.drop_last() =~= text::decimal(n / 10));
        assert(d as u32 == 48 + n % 10);
        assert(10 * (n / 10) + n % 10 == n) by (nonlinear_arith);
        assert(decimal_value(digits) == Some((10 * (n / 10) + ((d as u32) - 48)) as nat));
        assert(digits[0] == text::decimal(n / 10)[0]);
    }
}

/// The text shown for a value is the prefix followed by the value in full:
/// what follows the prefix reads back, as a signed decimal, to the value,
/// for every `i32`.
pub proof fn lemma_value_text_reads_back(v: i32, prefix: Seq<char>, show_stale_prefix: bool)
    ensures
        display_for(PayloadState::Value(v), prefix, show_stale_prefix).take(prefix.len() as int) == prefix,
        signed_decimal_value(display_for(PayloadState::Value(v), prefix, show_stale_prefix).skip(prefix.len() as int))
            == Some(v as int),
{
    let shown = display_for(PayloadState::Value(v), prefix, show_stale_prefix);
    let digits = text::signed_decimal(v as int);
    assert(shown.take(prefix.len() as int) =~= prefix);
    assert(shown.skip(prefix.len() as int) =~= digits);
    if v < 0 {
        lemma_decimal_reads_back((-(v as int)) as nat);
        assert(digits.drop_first() =~= text::decimal((-(v as int)) as nat));
    } else {
        lemma_decimal_reads_back(v as nat);
    }
}

/// With the stale prefix left at its default, a source that is not
/// connected shows `Disconnected`, as its status does.
pub proof fn lemma_default_disconnected_shows_disconnected(s: OverlayState)
    requires
        s.wf(),
        s.payload is Disconnected,
        s.show_stale_prefix == DEFAULT_SHOW_STALE_PREFIX,
    ensures
        s.display_text@ == "Disconnected"@,
        s.status_text@ == "Disconnected"@,
{
}

/// A shown error is never longer than 99 characters, and one of at most 96
/// bytes is shown whole.
pub proof fn lemma_summary_bounded(message: Seq<char>)
    ensures
        summarized(message).len() <= 99,
        vstd::utf8::encode_utf8(message).len() <= 96 ==> summarized(message) == message,
{
    lemma_utf8_len_bounds(message);
    reveal_strlit("...");
}

impl OverlayState {
    /// Prepares a frame: hands out the text if it changed, and sizes the area
    /// to the text extents when there is text to show.
    pub fn tick(&mut self) -> (f: TextFrame)
        ensures
            final(self).dirty == false,
            final(self).display_text == old(self).display_text,
            final(self).payload == old(self).payload,
            final(self).settings() == old(self).settings(),
            final(self).same_record(old(self)),
            final(self).status_text == old(self).status_text,
            final(self).update_status == old(self).update_status,
            old(self).dirty ==> (f.text matches Some(t) && t@ == old(self).display_text@),
            !old(self).dirty ==> f.text is None,
            f.should_render == (old(self).display_text@.len() > 0),
            f.color == (if old(self).payload is Disconnected {
                old(self).stale_color
            } else {
                old(self).text_color
            }),
            f.font_face@ == old(self).font_face@,
            f.font_size == old(self).font_size,
            f.should_render ==> f.width == TEXT_EXTENTS_CX && f.height == TEXT_EXTENTS_CY,
            !f.should_render ==> f.width == 0 && f.height == 0,
    {
        let should_render = self.display_text.as_str().unicode_len() > 0;
        let color = match self.payload {
            PayloadState::Disconnected => self.stale_color,
            _ => self.text_color,
        };
        let text = if self.dirty {
            self.dirty = false;
            Some(self.display_text.clone())
        } else {
            None
        };
        let (width, height) = if should_render {
            (TEXT_EXTENTS_CX, TEXT_EXTENTS_CY)
        } else {
            (0, 0)
        };
        TextFrame {
            text,
            should_render,
            color,
            font_face: self.font_face.clone(),
            font_size: self.font_size,
            width,
            height,
        }
    }

    /// How long to wait before reconnecting: the configured interval, at least 100 ms.
    pub fn reconnect_wait_ms(&self) -> (r: u64)
        ensures
            r == if self.reconnect_ms < 100 {
                100
            } else {
                self.reconnect_ms
            },
    {
        if self.reconnect_ms < 100 {
            100
        } else {
            self.reconnect_ms
        }
    }

    /// Takes what the connection to the helper reported.
    pub fn on_link_event(&mut self, event: LinkEvent)
        requires
            old(self).wf(),
        ensures
            link_step(*old(self), *final(self), event),
    {
        match event {
            LinkEvent::ConnectFailed => self.mark_disconnected(Some(string_of("helper socket not connected"))),
            LinkEvent::Message(m) => self.apply_message(m),
            LinkEvent::InvalidPayload(err) => {
                let mut reason = string_of("invalid IPC payload: ");
                reason.append(err.as_str());
                self.mark_disconnected(Some(reason));
            },
            LinkEvent::Closed => self.mark_disconnected(Some(string_of("helper socket closed"))),
            LinkEvent::ReadFailed => self.mark_disconnected(Some(string_of("helper socket read failed"))),
            LinkEvent::WorkerPanicked => self.set_payload(PayloadState::Error(string_of("worker thread panicked"))),
        }
    }
}

} // verus!
