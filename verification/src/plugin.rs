use vstd::prelude::*;
use vstd::string::*;

use crate::text;
use crate::text::string_of;

verus! {

// ---------------------------------------------------------------------------
// Source settings
// ---------------------------------------------------------------------------

/// The reconnect interval used when none is set.
pub const DEFAULT_RECONNECT_MS: u64 = 1000;

/// The font size used when none is set.
pub const DEFAULT_FONT_SIZE: u64 = 36;

/// The text colour used when none is set.
pub const DEFAULT_TEXT_COLOR: u64 = 0x00FF_FFFF;

/// The colour of stale text used when none is set.
pub const DEFAULT_STALE_COLOR: u64 = 0x0000_FFFF;

/// The view of an optional string.
pub open spec fn option_view(value: Option<String>) -> Option<Seq<char>> {
    match value {
        Some(v) => Some(v@),
        None => None,
    }
}

/// A text setting: its value unless unset or empty, else `fallback`.
pub open spec fn text_value(value: Option<Seq<char>>, fallback: Seq<char>) -> Seq<char> {
    match value {
        Some(v) => if v.len() > 0 {
            v
        } else {
            fallback
        },
        None => fallback,
    }
}

/// The reconnect interval: the value set, or the default, and at least 100.
pub open spec fn reconnect_value(value: Option<i64>) -> int {
    let v = match value {
        Some(v) => v as int,
        None => DEFAULT_RECONNECT_MS as int,
    };
    if v < 100 {
        100
    } else {
        v
    }
}

/// The font size: the value set, or the default, clamped to 8..=144.
pub open spec fn font_size_value(value: Option<i64>) -> int {
    let v = match value {
        Some(v) => v as int,
        None => DEFAULT_FONT_SIZE as int,
    };
    if v < 8 {
        8
    } else if v > 144 {
        144
    } else {
        v
    }
}

/// A colour: the value set, negative ones taken as 0, cut to its low 32
/// bits; the fallback, cut likewise, when unset.
pub open spec fn color_value(value: Option<i64>, fallback: u64) -> u32 {
    match value {
        Some(v) => if v < 0 {
            0u32
        } else {
            v as u32
        },
        None => fallback as u32,
    }
}

/// A text setting: its value unless unset or empty, else `fallback`.
pub fn string_setting(value: Option<String>, fallback: &str) -> (r: String)
    ensures
        r@ == text_value(option_view(value), fallback@),
{
    match value {
        Some(v) => {
            if v.as_str().unicode_len() > 0 {
                v
            } else {
                string_of(fallback)
            }
        },
        None => string_of(fallback),
    }
}

/// The reconnect interval setting, at least 100 ms.
pub fn reconnect_setting(value: Option<i64>) -> (r: u64)
    ensures
        r == reconnect_value(value),
{
    let v = match value {
        Some(v) => v,
        None => DEFAULT_RECONNECT_MS as i64,
    };
    if v < 100 {
        100
    } else {
        v as u64
    }
}

/// The font size setting, clamped to 8..=144.
pub fn font_size_setting(value: Option<i64>) -> (r: u32)
    ensures
        r == font_size_value(value),
{
    let v = match value {
        Some(v) => v,
        None => DEFAULT_FONT_SIZE as i64,
    };
    if v < 8 {
        8
    } else if v > 144 {
        144
    } else {
        v as u32
    }
}

/// A colour setting: the value, negative ones taken as 0, cut to its low 32
/// bits; the fallback, cut likewise, when unset.
pub fn color_setting(value: Option<i64>, fallback: u64) -> (r: u32)
    ensures
        r == color_value(value, fallback),
{
    match value {
        Some(v) => if v < 0 {
            0
        } else {
            v as u32
        },
        None => fallback as u32,
    }
}

/// The label prefix used when none is set.
pub open spec fn default_prefix() -> Seq<char> {
    "Soul Memory: "@
}

/// The pipe name used when none is set.
pub open spec fn default_pipe_name() -> Seq<char> {
    "SoulMemoryOverlay"@
}

/// The font face used when none is set.
pub open spec fn default_font_face() -> Seq<char> {
    "Segoe UI"@
}

/// Whether a source without a connection shows the stale prefix in place of
/// `Disconnected`, when not set: it does not, so that an unconfigured source
/// reads `Disconnected` while the helper is not connected.
pub const DEFAULT_SHOW_STALE_PREFIX: bool = false;

/// The settings as the source's property store holds them, each unset or set.
pub struct RawSettings {
    pub prefix: Option<String>,
    pub pipe_name: Option<String>,
    pub reconnect_ms: Option<i64>,
    pub font_face: Option<String>,
    pub font_size: Option<i64>,
    pub text_color: Option<i64>,
    pub stale_color: Option<i64>,
    pub show_stale_prefix: Option<bool>,
    pub open_config_folder: Option<bool>,
}

/// The settings the source runs with.
pub struct SourceSettings {
    pub prefix: String,
    pub pipe_name: String,
    pub reconnect_ms: u64,
    pub font_face: String,
    pub font_size: u32,
    pub text_color: u32,
    pub stale_color: u32,
    pub show_stale_prefix: bool,
    /// Whether the user asked to open the configuration folder.
    pub open_config_folder: bool,
}

/// Reads the settings, each falling back to its default and kept in range.
pub fn source_settings(raw: RawSettings) -> (s: SourceSettings)
    ensures
        s.prefix@ == text_value(option_view(raw.prefix), default_prefix()),
        s.pipe_name@ == text_value(option_view(raw.pipe_name), default_pipe_name()),
        s.reconnect_ms == reconnect_value(raw.reconnect_ms),
        s.font_face@ == text_value(option_view(raw.font_face), default_font_face()),
        s.font_size == font_size_value(raw.font_size),
        s.text_color == color_value(raw.text_color, DEFAULT_TEXT_COLOR),
        s.stale_color == color_value(raw.stale_color, DEFAULT_STALE_COLOR),
        s.show_stale_prefix == match raw.show_stale_prefix {
            Some(b) => b,
            None => DEFAULT_SHOW_STALE_PREFIX,
        },
        s.open_config_folder == match raw.open_config_folder {
            Some(b) => b,
            None => false,
        },
{
    SourceSettings {
        prefix: string_setting(raw.prefix, "Soul Memory: "),
        pipe_name: string_setting(raw.pipe_name, "SoulMemoryOverlay"),
        reconnect_ms: reconnect_setting(raw.reconnect_ms),
        font_face: string_setting(raw.font_face, "Segoe UI"),
        font_size: font_size_setting(raw.font_size),
        text_color: color_setting(raw.text_color, DEFAULT_TEXT_COLOR),
        stale_color: color_setting(raw.stale_color, DEFAULT_STALE_COLOR),
        show_stale_prefix: match raw.show_stale_prefix {
            Some(b) => b,
            None => DEFAULT_SHOW_STALE_PREFIX,
        },
        open_config_folder: match raw.open_config_folder {
            Some(b) => b,
            None => false,
        },
    }
}

/// A setting's value in the property store.
pub enum SettingValue {
    Text(String),
    Integer(i64),
    Flag(bool),
}

/// The view of a setting's value.
pub enum SettingValueView {
    Text(Seq<char>),
    Integer(i64),
    Flag(bool),
}

impl View for SettingValue {
    type V = SettingValueView;

    open spec fn view(&self) -> SettingValueView {
        match self {
            SettingValue::Text(t) => SettingValueView::Text(t@),
            SettingValue::Integer(i) => SettingValueView::Integer(*i),
            SettingValue::Flag(b) => SettingValueView::Flag(*b),
        }
    }
}

/// A setting's default: its key and value.
pub struct SettingDefault {
    pub key: String,
    pub value: SettingValue,
}

impl View for SettingDefault {
    type V = (Seq<char>, SettingValueView);

    open spec fn view(&self) -> Self::V {
        (self.key@, self.value@)
    }
}

/// The defaults the source registers, key by key.
pub open spec fn defaults_spec() -> Seq<(Seq<char>, SettingValueView)> {
    seq![
        ("prefix"@, SettingValueView::Text(default_prefix())),
        ("pipe_name"@, SettingValueView::Text(default_pipe_name())),
        ("reconnect_ms"@, SettingValueView::Integer(DEFAULT_RECONNECT_MS as i64)),
        ("font_face"@, SettingValueView::Text(default_font_face())),
        ("font_size"@, SettingValueView::Integer(DEFAULT_FONT_SIZE as i64)),
        ("text_color"@, SettingValueView::Integer(DEFAULT_TEXT_COLOR as i64)),
        ("stale_color"@, SettingValueView::Integer(DEFAULT_STALE_COLOR as i64)),
        ("show_stale_prefix"@, SettingValueView::Flag(DEFAULT_SHOW_STALE_PREFIX)),
        ("status"@, SettingValueView::Text("Disconnected"@)),
        ("open_config_folder"@, SettingValueView::Flag(false)),
    ]
}

fn text_default(key: &str, value: &str) -> (d: SettingDefault)
    ensures
        d@ == (key@, SettingValueView::Text(value@)),
{
    SettingDefault { key: string_of(key), value: SettingValue::Text(string_of(value)) }
}

fn integer_default(key: &str, value: i64) -> (d: SettingDefault)
    ensures
        d@ == (key@, SettingValueView::Integer(value)),
{
    SettingDefault { key: string_of(key), value: SettingValue::Integer(value) }
}

fn flag_default(key: &str, value: bool) -> (d: SettingDefault)
    ensures
        d@ == (key@, SettingValueView::Flag(value)),
{
    SettingDefault { key: string_of(key), value: SettingValue::Flag(value) }
}

/// The defaults the source registers.
pub fn setting_defaults() -> (r: Vec<SettingDefault>)
    ensures
        r@.map_values(|d: SettingDefault| d@) == defaults_spec(),
{
    let mut r: Vec<SettingDefault> = Vec::new();
    r.push(text_default("prefix", "Soul Memory: "));
    r.push(text_default("pipe_name", "SoulMemoryOverlay"));
    r.push(integer_default("reconnect_ms", DEFAULT_RECONNECT_MS as i64));
    r.push(text_default("font_face", "Segoe UI"));
    r.push(integer_default("font_size", DEFAULT_FONT_SIZE as i64));
    r.push(integer_default("text_color", DEFAULT_TEXT_COLOR as i64));
    r.push(integer_default("stale_color", DEFAULT_STALE_COLOR as i64));
    r.push(flag_default("show_stale_prefix", DEFAULT_SHOW_STALE_PREFIX));
    r.push(text_default("status", "Disconnected"));
    r.push(flag_default("open_config_folder", false));
    assert(r@.map_values(|d: SettingDefault| d@) =~= defaults_spec());
    r
}

/// How a setting is edited among the source's properties.
#[derive(Clone, Copy, Debug, PartialEq, Eq, Structural)]
pub enum SettingWidget {
    /// A line of text.
    Text,
    /// A whole number within `min..=max`.
    Integer { min: i64, max: i64 },
    /// A colour picker.
    Color,
    /// A check box.
    Toggle,
}

/// One property of the source: its key, the label shown, and how it is edited.
pub struct SettingField {
    pub key: String,
    pub label: String,
    pub widget: SettingWidget,
}

impl View for SettingField {
    type V = (Seq<char>, Seq<char>, SettingWidget);

    open spec fn view(&self) -> Self::V {
        (self.key@, self.label@, self.widget)
    }
}

/// The source's properties, in the order shown; the status line is labelled
/// with `status_label`.
pub open spec fn form_spec(status_label: Seq<char>) -> Seq<(Seq<char>, Seq<char>, SettingWidget)> {
    seq![
        ("prefix"@, "Label Prefix"@, SettingWidget::Text),
        ("pipe_name"@, "Pipe Name"@, SettingWidget::Text),
        ("reconnect_ms"@, "Reconnect Interval (ms)"@, SettingWidget::Integer { min: 100, max: 60_000 }),
        ("font_face"@, "Font Face"@, SettingWidget::Text),
        ("font_size"@, "Font Size"@, SettingWidget::Integer { min: 8, max: 144 }),
        ("text_color"@, "Text Color"@, SettingWidget::Color),
        ("stale_color"@, "Stale Color"@, SettingWidget::Color),
        ("show_stale_prefix"@, "Show Stale Prefix"@, SettingWidget::Toggle),
        ("status"@, status_label, SettingWidget::Text),
        ("open_config_folder"@, "Open Config Folder (toggle)"@, SettingWidget::Toggle),
    ]
}

fn field(key: &str, label: &str, widget: SettingWidget) -> (f: SettingField)
    ensures
        f@ == (key@, label@, widget),
{
    SettingField { key: string_of(key), label: string_of(label), widget }
}

/// The source's properties, in the order shown.
pub fn settings_form(status_label: &str) -> (r: Vec<SettingField>)
    ensures
        r@.map_values(|f: SettingField| f@) == form_spec(status_label@),
{
    let mut r: Vec<SettingField> = Vec::new();
    r.push(field("prefix", "Label Prefix", SettingWidget::Text));
    r.push(field("pipe_name", "Pipe Name", SettingWidget::Text));
    r.push(field("reconnect_ms", "Reconnect Interval (ms)", SettingWidget::Integer { min: 100, max: 60_000 }));
    r.push(field("font_face", "Font Face", SettingWidget::Text));
    r.push(field("font_size", "Font Size", SettingWidget::Integer { min: 8, max: 144 }));
    r.push(field("text_color", "Text Color", SettingWidget::Color));
    r.push(field("stale_color", "Stale Color", SettingWidget::Color));
    r.push(field("show_stale_prefix", "Show Stale Prefix", SettingWidget::Toggle));
    r.push(field("status", status_label, SettingWidget::Text));
    r.push(field("open_config_folder", "Open Config Folder (toggle)", SettingWidget::Toggle));
    assert(r@.map_values(|f: SettingField| f@) =~= form_spec(status_label@));
    r
}

/// Every number the properties offer for the reconnect interval and the font
/// size is read back unchanged.
pub proof fn lemma_form_ranges_read_back(status_label: Seq<char>, v: i64)
    ensures
        form_spec(status_label)[2].0 == "reconnect_ms"@,
        form_spec(status_label)[2].2 matches SettingWidget::Integer { min, max } && (min <= v <= max
            ==> reconnect_value(Some(v)) == v),
        form_spec(status_label)[4].0 == "font_size"@,
        form_spec(status_label)[4].2 matches SettingWidget::Integer { min, max } && (min <= v <= max
            ==> font_size_value(Some(v)) == v),
{
}

/// Holding a registered default reads the same as holding nothing: each
/// setting's default in the store gives what an empty store gives.
pub proof fn lemma_defaults_read_back()
    ensures
        defaults_spec()[0] == ("prefix"@, SettingValueView::Text(default_prefix())),
        text_value(Some(default_prefix()), default_prefix()) == text_value(None, default_prefix()),
        defaults_spec()[1] == ("pipe_name"@, SettingValueView::Text(default_pipe_name())),
        text_value(Some(default_pipe_name()), default_pipe_name()) == text_value(None, default_pipe_name()),
        defaults_spec()[2] == ("reconnect_ms"@, SettingValueView::Integer(1000)),
        reconnect_value(Some(1000)) == reconnect_value(None),
        defaults_spec()[3] == ("font_face"@, SettingValueView::Text(default_font_face())),
        text_value(Some(default_font_face()), default_font_face()) == text_value(None, default_font_face()),
        defaults_spec()[4] == ("font_size"@, SettingValueView::Integer(36)),
        font_size_value(Some(36)) == font_size_value(None),
        defaults_spec()[5] == ("text_color"@, SettingValueView::Integer(0x00FF_FFFF)),
        color_value(Some(0x00FF_FFFF), DEFAULT_TEXT_COLOR) == color_value(None, DEFAULT_TEXT_COLOR),
        defaults_spec()[6] == ("stale_color"@, SettingValueView::Integer(0x0000_FFFF)),
        color_value(Some(0x0000_FFFF), DEFAULT_STALE_COLOR) == color_value(None, DEFAULT_STALE_COLOR),
        defaults_spec()[7] == ("show_stale_prefix"@, SettingValueView::Flag(false)),
        DEFAULT_SHOW_STALE_PREFIX == false,
{
}

// ---------------------------------------------------------------------------
// The helper's port
// ---------------------------------------------------------------------------

/// The 32-bit FNV-1a hash of `bytes`.
pub open spec fn fnv1a(bytes: Seq<u8>) -> u32
    decreases bytes.len(),
{
    if bytes.len() == 0 {
        0x811C9DC5
    } else {
        let h = fnv1a(bytes.drop_last()) ^ (bytes.last() as u32);
        ((h as nat * 16777619nat) % 0x1_0000_0000nat) as u32
    }
}

/// The local TCP port for a pipe name: 20000 plus its FNV-1a hash modulo 20000.
pub open spec fn port_for(name: Seq<u8>) -> u16 {
    (20000 + fnv1a(name) % 20000) as u16
}

/// The local TCP port the helper serves for `pipe_name`.
pub fn pipe_name_to_port(pipe_name: &str) -> (r: u16)
    ensures
        r == port_for(pipe_name.spec_bytes()),
        20000 <= r < 40000,
{
    let bytes = pipe_name.as_bytes();
    let mut hash: u32 = 0x811C9DC5;
    let mut i: usize = 0;
    assert(bytes@.take(0) =~= Seq::<u8>::empty());
    while i < bytes.len()
        invariant
            i <= bytes@.len(),
            hash == fnv1a(bytes@.take(i as int)),
        decreases bytes@.len() - i,
    {
        assert(bytes@.take(i + 1).drop_last() =~= bytes@.take(i as int));
        hash = hash ^ (bytes[i] as u32);
        hash = hash.wrapping_mul(16777619);
        i = i + 1;
    }
    assert(bytes@.take(bytes@.len() as int) =~= bytes@);
    let base: u16 = 20_000;
    base + (hash % 20_000) as u16
}

// ---------------------------------------------------------------------------
// Supervising the helper process
// ---------------------------------------------------------------------------

/// The wait before restarting the helper after `attempt` failures: 100 ms
/// doubled per failure, counting at most ten, and never above 5 s.
pub open spec fn backoff_ms(attempt: u32) -> nat {
    let doubled = 100 * vstd::arithmetic::power2::pow2(if attempt < 10 {
        attempt as nat
    } else {
        10nat
    });
    if doubled < 5000 {
        doubled
    } else {
        5000
    }
}

/// The wait before restarting the helper after `attempt` failures.
pub fn backoff_delay_ms(attempt: u32) -> (r: u64)
    ensures
        r == backoff_ms(attempt),
{
    let shift: u64 = if attempt < 10 {
        attempt as u64
    } else {
        10
    };
    proof {
        vstd::arithmetic::power2::lemma2_to64();
        assert(vstd::arithmetic::power2::pow2(shift as nat) <= 1024);
        vstd::bits::lemma_u64_shl_is_mul(100, shift);
    }
    let shifted = 100u64 << shift;
    if shifted < 5000 {
        shifted
    } else {
        5000
    }
}

/// The wait starts at 100 ms, never shrinks as failures mount, and never
/// exceeds 5 s.
pub proof fn lemma_backoff_grows_to_cap(a: u32, b: u32)
    requires
        a <= b,
    ensures
        backoff_ms(0) == 100,
        backoff_ms(a) <= backoff_ms(b),
        backoff_ms(b) <= 5000,
{
    vstd::arithmetic::power2::lemma2_to64();
    let ea: nat = if a < 10 { a as nat } else { 10 };
    let eb: nat = if b < 10 { b as nat } else { 10 };
    if ea < eb {
        vstd::arithmetic::power2::lemma_pow2_strictly_increases(ea, eb);
    }
}

/// The longest single sleep of a wait, in milliseconds, so that a request to
/// stop is seen soon.
pub const WAIT_SLICE_MS: u64 = 50;

/// The next sleep of a wait with `remaining` milliseconds left.
pub fn wait_slice_ms(remaining: u64) -> (r: u64)
    ensures
        r == if remaining < WAIT_SLICE_MS {
            remaining
        } else {
            WAIT_SLICE_MS
        },
{
    if remaining < WAIT_SLICE_MS {
        remaining
    } else {
        WAIT_SLICE_MS
    }
}

/// What happened to the helper between two waits of its supervisor.
pub enum SupervisorEvent {
    /// It could not be located or started.
    LaunchFailed,
    /// It ran for this many milliseconds and stopped.
    Stopped(u64),
}

/// One more failure counted, up to the largest count held.
pub open spec fn one_more(count: u32) -> u32 {
    if count == u32::MAX {
        u32::MAX
    } else {
        (count + 1) as u32
    }
}

/// The failure count after `event`, and the wait that follows it: a failed
/// launch waits by the failures before it, a stop waits by the count after it.
pub open spec fn supervisor_step(count: u32, event: SupervisorEvent) -> (u32, nat) {
    match event {
        SupervisorEvent::LaunchFailed => (one_more(count), backoff_ms(count)),
        SupervisorEvent::Stopped(uptime_ms) => {
            let next = if uptime_ms >= HEALTHY_RUN_MS {
                0
            } else {
                one_more(count)
            };
            (next, backoff_ms(next))
        },
    }
}

/// The failure count and the waits, in order, after `events`, from `count`.
pub open spec fn supervisor_run(count: u32, events: Seq<SupervisorEvent>) -> (u32, Seq<nat>)
    decreases events.len(),
{
    if events.len() == 0 {
        (count, seq![])
    } else {
        let (c, waits) = supervisor_run(count, events.drop_last());
        let (next, wait) = supervisor_step(c, events.last());
        (next, waits.push(wait))
    }
}

/// The failures in a row at the end of `events`: those since the last run of
/// the helper that lasted long enough to count as good.
pub open spec fn failure_streak(events: Seq<SupervisorEvent>) -> nat
    decreases events.len(),
{
    if events.len() == 0 {
        0
    } else {
        match events.last() {
            SupervisorEvent::Stopped(uptime_ms) if uptime_ms >= HEALTHY_RUN_MS => 0,
            _ => failure_streak(events.drop_last()) + 1,
        }
    }
}

/// Over any run of the helper's failures and stops, from a fresh supervisor:
/// the count is the failures in a row since the last good run (held at the
/// largest `u32`), there is one wait per event, every wait lies between
/// 100 ms and 5 s, and the wait after a good run is 100 ms.
pub proof fn lemma_supervisor_run(events: Seq<SupervisorEvent>)
    ensures
        supervisor_run(0, events).0 == if failure_streak(events) >= u32::MAX {
            u32::MAX as nat
        } else {
            failure_streak(events)
        },
        supervisor_run(0, events).1.len() == events.len(),
        forall|i: int|
            0 <= i < events.len() ==> 100 <= #[trigger] supervisor_run(0, events).1[i] <= 5000,
        forall|i: int|
            0 <= i < events.len() ==> (#[trigger] events[i] matches SupervisorEvent::Stopped(up) && up
                >= HEALTHY_RUN_MS) ==> supervisor_run(0, events).1[i] == 100,
    decreases events.len(),
{
    if events.len() > 0 {
        let prev = events.drop_last();
        lemma_supervisor_run(prev);
        let (c, waits) = supervisor_run(0, prev);
        let (next, wait) = supervisor_step(c, events.last());
        lemma_backoff_grows_to_cap(0, c);
        lemma_backoff_grows_to_cap(0, next);
        assert forall|i: int| 0 <= i < events.len() implies 100 <= #[trigger] supervisor_run(0, events).1[i] <= 5000 by {
            if i < prev.len() {
                assert(supervisor_run(0, events).1[i] == waits[i]);
            }
        }
        assert forall|i: int|
            0 <= i < events.len() implies (#[trigger] events[i] matches SupervisorEvent::Stopped(up) && up
                >= HEALTHY_RUN_MS) ==> supervisor_run(0, events).1[i] == 100 by {
            if i < prev.len() {
                assert(supervisor_run(0, events).1[i] == waits[i]);
                assert(events[i] == prev[i]);
            } else {
                assert(events[i] == events.last());
            }
        }
    }
}

/// How many times in a row the helper has failed, which sets how long to wait
/// before the next start.
pub struct HelperSupervisor {
    pub failure_count: u32,
}

/// Running this long, in milliseconds, counts as a good run that clears the failures.
pub const HEALTHY_RUN_MS: u64 = 30_000;

impl HelperSupervisor {
    /// No failures yet.
    pub fn new() -> (r: Self)
        ensures
            r.failure_count == 0,
    {
        HelperSupervisor { failure_count: 0 }
    }

    /// The helper could not be located or started: wait by the failures so
    /// far, then count one more.
    pub fn launch_failed(&mut self) -> (delay_ms: u64)
        ensures
            (final(self).failure_count, delay_ms as nat) == supervisor_step(
                old(self).failure_count,
                SupervisorEvent::LaunchFailed,
            ),
            delay_ms == backoff_ms(old(self).failure_count),
            final(self).failure_count == if old(self).failure_count == u32::MAX {
                u32::MAX
            } else {
                (old(self).failure_count + 1) as u32
            },
    {
        let delay = backoff_delay_ms(self.failure_count);
        self.failure_count = self.failure_count.saturating_add(1);
        delay
    }

    /// The helper stopped after running `uptime_ms`: a good run clears the
    /// failures, a short one counts as one more; then wait by the count.
    pub fn helper_stopped(&mut self, uptime_ms: u64) -> (delay_ms: u64)
        ensures
            final(self).failure_count == if uptime_ms >= HEALTHY_RUN_MS {
                0
            } else if old(self).failure_count == u32::MAX {
                u32::MAX
            } else {
                (old(self).failure_count + 1) as u32
            },
            delay_ms == backoff_ms(final(self).failure_count),
            (final(self).failure_count, delay_ms as nat) == supervisor_step(
                old(self).failure_count,
                SupervisorEvent::Stopped(uptime_ms),
            ),
    {
        if uptime_ms >= HEALTHY_RUN_MS {
            self.failure_count = 0;
        } else {
            self.failure_count = self.failure_count.saturating_add(1);
        }
        backoff_delay_ms(self.failure_count)
    }
}

/// Describes where the helper and its configuration were found.
pub fn launch_diagnostics(helper_path: &str, helper_source: &str, config_path: &str, config_source: &str) -> (r: String)
    ensures
        r@ == "helper="@ + helper_path@ + " ["@ + helper_source@ + "], config="@ + config_path@ + " ["@
            + config_source@ + "]"@,
{
    let mut r = string_of("helper=");
    r.append(helper_path);
    r.append(" [");
    r.append(helper_source);
    r.append("], config=");
    r.append(config_path);
    r.append(" [");
    r.append(config_source);
    r.append("]");
    r
}

/// The error shown when the helper could not be located.
pub fn path_resolution_failure(error: &str) -> (r: String)
    ensures
        r@ == "helper path resolution failed: "@ + error@,
{
    let mut r = string_of("helper path resolution failed: ");
    r.append(error);
    r
}

/// The error shown when the helper could not be started.
pub fn spawn_failure(diagnostics: &str, error: &str) -> (r: String)
    ensures
        r@ == "spawn helper failed ("@ + diagnostics@ + "): "@ + error@,
{
    let mut r = string_of("spawn helper failed (");
    r.append(diagnostics);
    r.append("): ");
    r.append(error);
    r
}

/// The error shown when the helper exited.
pub fn helper_exit_message(status: &str, diagnostics: &str) -> (r: String)
    ensures
        r@ == "helper exited with status: "@ + status@ + " ("@ + diagnostics@ + ")"@,
{
    let mut r = string_of("helper exited with status: ");
    r.append(status);
    r.append(" (");
    r.append(diagnostics);
    r.append(")");
    r
}

/// The error shown when the helper's state could not be checked.
pub fn status_check_failure(error: &str, diagnostics: &str) -> (r: String)
    ensures
        r@ == "helper process status check failed: "@ + error@ + " ("@ + diagnostics@ + ")"@,
{
    let mut r = string_of("helper process status check failed: ");
    r.append(error);
    r.append(" (");
    r.append(diagnostics);
    r.append(")");
    r
}

} // verus!

verus! {

// ---------------------------------------------------------------------------
// Checking for a newer release
// ---------------------------------------------------------------------------

/// The JSON key of a release's tag, quotes included.
pub open spec fn tag_key() -> Seq<char> {
    seq!['"', 't', 'a', 'g', '_', 'n', 'a', 'm', 'e', '"']
}

/// The release tag in a release description: after the first `"tag_name"`,
/// the next `:`, and any whitespace, a double-quoted string, with its leading
/// `v`s dropped.
pub open spec fn tag_name_in(body: Seq<char>) -> Option<Seq<char>> {
    match text::find_chars(body, tag_key(), 0) {
        None => None,
        Some(k) => {
            let n = body.len() as int;
            let colon = text::scan_chars(body, |c: char| c == ':', k + 10, n);
            if colon >= n {
                None
            } else {
                let open = text::scan_chars(body, |c: char| !text::is_whitespace(c), colon + 1, n);
                if open >= n || body[open] != '"' {
                    None
                } else {
                    let close = text::scan_chars(body, |c: char| c == '"', open + 1, n);
                    if close >= n {
                        None
                    } else {
                        let start = text::scan_chars(body, |c: char| c != 'v', open + 1, close);
                        Some(body.subrange(start, close))
                    }
                }
            }
        },
    }
}

/// Finds the release tag in a release description.
pub fn extract_tag_name(body: &str) -> (r: Option<String>)
    ensures
        match r {
            Some(t) => tag_name_in(body@) == Some(t@),
            None => tag_name_in(body@) is None,
        },
{
    let chars = text::chars_of(body);
    let key = vec!['"', 't', 'a', 'g', '_', 'n', 'a', 'm', 'e', '"'];
    assert(key@ =~= tag_key());
    let n = chars.len();
    let k = match text::find_in(&chars, &key, 0) {
        Some(k) => k,
        None => return None,
    };
    let colon = text::scan_for(&chars, ':', k + 10, n);
    if colon >= n {
        return None;
    }
    let open = text::scan_past_whitespace(&chars, colon + 1, n);
    if open >= n || chars[open] != '"' {
        return None;
    }
    let close = text::scan_for(&chars, '"', open + 1, n);
    if close >= n {
        return None;
    }
    let start = text::scan_past(&chars, 'v', open + 1, close);
    Some(text::string_from_chars(&chars, start, close))
}

/// The value of a run of decimal digits, or `None` if one is not a digit.
pub open spec fn decimal_value(digits: Seq<char>) -> Option<nat>
    decreases digits.len(),
{
    if digits.len() == 0 {
        Some(0)
    } else {
        match decimal_value(digits.drop_last()) {
            None => None,
            Some(v) => {
                let u = digits.last() as u32;
                if 48 <= u <= 57 {
                    Some(10 * v + (u - 48) as nat)
                } else {
                    None
                }
            },
        }
    }
}

/// A number as `u64::from_str` reads it: an optional `+`, then at least one
/// decimal digit, with a value that fits.
pub open spec fn parse_u64(token: Seq<char>) -> Option<u64> {
    let digits = if token.len() > 0 && token[0] == '+' {
        token.drop_first()
    } else {
        token
    };
    if digits.len() == 0 {
        None
    } else {
        match decimal_value(digits) {
            Some(v) => if v <= u64::MAX {
                Some(v as u64)
            } else {
                None
            },
            None => None,
        }
    }
}

/// A `major.minor.patch` version: the first three `.`-separated parts, the
/// third cut at its first `-`, each a number.
pub open spec fn semver_of(version: Seq<char>) -> Option<(u64, u64, u64)> {
    let n = version.len() as int;
    let d1 = text::scan_chars(version, |c: char| c == '.', 0, n);
    if d1 >= n {
        None
    } else {
        let d2 = text::scan_chars(version, |c: char| c == '.', d1 + 1, n);
        if d2 >= n {
            None
        } else {
            let d3 = text::scan_chars(version, |c: char| c == '.', d2 + 1, n);
            let dash = text::scan_chars(version, |c: char| c == '-', d2 + 1, d3);
            match (
                parse_u64(version.subrange(0, d1)),
                parse_u64(version.subrange(d1 + 1, d2)),
                parse_u64(version.subrange(d2 + 1, dash)),
            ) {
                (Some(major), Some(minor), Some(patch)) => Some((major, minor, patch)),
                _ => None,
            }
        }
    }
}

fn parse_u64_in(s: &Vec<char>, from: usize, to: usize) -> (r: Option<u64>)
    requires
        from <= to <= s@.len(),
    ensures
        r == parse_u64(s@.subrange(from as int, to as int)),
{
    let ghost token = s@.subrange(from as int, to as int);
    let first = if from < to && s[from] == '+' {
        from + 1
    } else {
        from
    };
    let ghost digits = if token.len() > 0 && token[0] == '+' {
        token.drop_first()
    } else {
        token
    };
    assert(digits =~= s@.subrange(first as int, to as int));
    if first == to {
        return None;
    }
    let cap: u128 = 0x1_0000_0000_0000_0000;
    let mut acc: u128 = 0;
    let mut valid = true;
    let mut i = first;
    assert(digits.take(0) =~= Seq::<char>::empty());
    while i < to
        invariant
            first <= i <= to <= s@.len(),
            cap == 0x1_0000_0000_0000_0000u128,
            digits =~= s@.subrange(first as int, to as int),
            valid == (decimal_value(digits.take(i - first)) is Some),
            valid ==> acc <= cap,
            valid ==> (acc == if decimal_value(digits.take(i - first))->0 <= cap {
                decimal_value(digits.take(i - first))->0
            } else {
                cap as nat
            }),
        decreases to - i,
    {
        let c = s[i];
        assert(digits.take(i + 1 - first).drop_last() =~= digits.take(i - first));
        assert(digits.take(i + 1 - first).last() == c);
        let u = c as u32;
        if 48 <= u && u <= 57 {
            if valid {
                let next = 10 * acc + (u - 48) as u128;
                acc = if next <= cap {
                    next
                } else {
                    cap
                };
            }
        } else {
            valid = false;
        }
        i = i + 1;
    }
    assert(digits.take(to - first) =~= digits);
    if valid && acc < cap {
        Some(acc as u64)
    } else {
        None
    }
}

/// Reads a `major.minor.patch` version.
pub fn parse_semver(version: &str) -> (r: Option<(u64, u64, u64)>)
    ensures
        r == semver_of(version@),
{
    let s = text::chars_of(version);
    let n = s.len();
    let d1 = text::scan_for(&s, '.', 0, n);
    if d1 >= n {
        return None;
    }
    let d2 = text::scan_for(&s, '.', d1 + 1, n);
    if d2 >= n {
        return None;
    }
    let d3 = text::scan_for(&s, '.', d2 + 1, n);
    let dash = text::scan_for(&s, '-', d2 + 1, d3);
    let major = parse_u64_in(&s, 0, d1);
    let minor = parse_u64_in(&s, d1 + 1, d2);
    let patch = parse_u64_in(&s, d2 + 1, dash);
    match (major, minor, patch) {
        (Some(a), Some(b), Some(c)) => Some((a, b, c)),
        _ => None,
    }
}

/// Whether version `a` is later than version `b`.
pub open spec fn is_newer(a: (u64, u64, u64), b: (u64, u64, u64)) -> bool {
    ||| a.0 > b.0
    ||| a.0 == b.0 && a.1 > b.1
    ||| a.0 == b.0 && a.1 == b.1 && a.2 > b.2
}

/// The update status for a plugin at version `current`, given the release
/// description fetched, if any was.
pub open spec fn update_status_text(current: Seq<char>, body: Option<Seq<char>>) -> Seq<char> {
    match body {
        None => "unable to check"@,
        Some(b) => match tag_name_in(b) {
            None => "unable to check"@,
            Some(latest) => match (semver_of(current), semver_of(latest)) {
                (Some(cur), Some(lat)) => if is_newer(lat, cur) {
                    "update available ("@ + latest + ")"@
                } else {
                    "up-to-date"@
                },
                _ => "unable to check"@,
            },
        },
    }
}

/// A release tagged with the running version, where that version is readable,
/// is reported as up to date.
pub proof fn lemma_same_version_up_to_date(current: Seq<char>, body: Seq<char>)
    requires
        tag_name_in(body) == Some(current),
        semver_of(current) is Some,
    ensures
        update_status_text(current, Some(body)) == "up-to-date"@,
{
}

/// Versions compare as `(major, minor, patch)` in lexicographic order: a
/// higher major version is newer whatever follows, a lower one is not, and
/// equal majors leave the decision to the minor, then the patch, version.
pub proof fn lemma_versions_compare_lexicographically(a: (u64, u64, u64), b: (u64, u64, u64))
    ensures
        a.0 > b.0 ==> is_newer(a, b),
        a.0 < b.0 ==> !is_newer(a, b),
        a.0 == b.0 && a.1 > b.1 ==> is_newer(a, b),
        a.0 == b.0 && a.1 < b.1 ==> !is_newer(a, b),
        a.0 == b.0 && a.1 == b.1 ==> (is_newer(a, b) <==> a.2 > b.2),
        !(is_newer(a, b) && is_newer(b, a)),
        a != b ==> is_newer(a, b) || is_newer(b, a),
{
}

/// A release whose version is higher than the running one, at any of its
/// three places, is reported as an update, with its tag.
pub proof fn lemma_higher_release_reports_update(current: Seq<char>, body: Seq<char>, latest: Seq<char>)
    requires
        tag_name_in(body) == Some(latest),
        semver_of(current) is Some,
        semver_of(latest) is Some,
        ({
            let c = semver_of(current).unwrap();
            let l = semver_of(latest).unwrap();
            ||| l.0 > c.0
            ||| l.0 == c.0 && l.1 > c.1
            ||| l.0 == c.0 && l.1 == c.1 && l.2 > c.2
        }),
    ensures
        update_status_text(current, Some(body)) == "update available ("@ + latest + ")"@,
{
    lemma_versions_compare_lexicographically(semver_of(latest).unwrap(), semver_of(current).unwrap());
}

/// A release whose version is not higher than the running one is reported
/// as up to date.
pub proof fn lemma_older_release_up_to_date(current: Seq<char>, body: Seq<char>, latest: Seq<char>)
    requires
        tag_name_in(body) == Some(latest),
        semver_of(current) is Some,
        semver_of(latest) is Some,
        ({
            let c = semver_of(current).unwrap();
            let l = semver_of(latest).unwrap();
            ||| l.0 < c.0
            ||| l.0 == c.0 && l.1 < c.1
            ||| l.0 == c.0 && l.1 == c.1 && l.2 <= c.2
        }),
    ensures
        update_status_text(current, Some(body)) == "up-to-date"@,
{
    lemma_versions_compare_lexicographically(semver_of(latest).unwrap(), semver_of(current).unwrap());
}

/// Compares the latest release with the running version.
pub fn update_status_from(current: &str, body: Option<&str>) -> (r: String)
    ensures
        r@ == update_status_text(
            current@,
            match body {
                Some(b) => Some(b@),
                None => None,
            },
        ),
{
    let b = match body {
        Some(b) => b,
        None => return string_of("unable to check"),
    };
    let latest = match extract_tag_name(b) {
        Some(t) => t,
        None => return string_of("unable to check"),
    };
    match (parse_semver(current), parse_semver(latest.as_str())) {
        (Some(cur), Some(lat)) => {
            if lat.0 > cur.0 || (lat.0 == cur.0 && lat.1 > cur.1) || (lat.0 == cur.0 && lat.1 == cur.1 && lat.2 > cur.2) {
                let mut r = string_of("update available (");
                r.append(latest.as_str());
                r.append(")");
                r
            } else {
                string_of("up-to-date")
            }
        },
        _ => string_of("unable to check"),
    }
}

} // verus!
