use soul_memory_overlay::overlay_state::{summarize_error, LinkEvent, OverlayState, PayloadState};
use soul_memory_overlay::plugin::{
    backoff_delay_ms, color_setting, extract_tag_name, font_size_setting, helper_exit_message,
    launch_diagnostics, parse_semver, path_resolution_failure, pipe_name_to_port,
    reconnect_setting, setting_defaults, settings_form, source_settings, spawn_failure,
    status_check_failure, string_setting, update_status_from, wait_slice_ms, HelperSupervisor,
    RawSettings,
    SettingValue, SettingWidget, DEFAULT_STALE_COLOR, DEFAULT_TEXT_COLOR,
};
use soul_memory_overlay::proto::{OverlayMessage, Status};
use soul_memory_overlay::reader::{log_line, message_log_text};

fn state(show_stale_prefix: bool) -> OverlayState {
    OverlayState::new(
        "Soul Memory: ".to_string(),
        "SoulMemoryOverlay".to_string(),
        1000,
        "Segoe UI".to_string(),
        36,
        0x00FF_FFFF,
        0x0000_FFFF,
        show_stale_prefix,
    )
}

#[test]
fn new_state_shows_disconnected() {
    let s = state(true);
    assert_eq!(s.display_text, "[STALE] Soul Memory: ");
    assert_eq!(s.status_text, "Disconnected");
    assert_eq!(s.status_with_update(), "Disconnected | Update: checking for updates");
    assert!(s.dirty);
    assert!(s.stale);
    let s = state(false);
    assert_eq!(s.display_text, "Disconnected");
}

#[test]
fn helper_value_is_shown_with_prefix() {
    let mut s = state(true);
    s.apply_message(OverlayMessage::ok(123, 999));
    assert_eq!(s.display_text, "Soul Memory: 123");
    assert_eq!(s.status_text, "Connected");
    assert_eq!(s.value, Some(123));
    assert!(!s.stale);
    assert_eq!(s.last_update_ms, Some(999));
    assert_eq!(s.last_error, None);
    s.apply_message(OverlayMessage::ok(-7, 1000));
    assert_eq!(s.display_text, "Soul Memory: -7");
}

#[test]
fn helper_errors_are_shown() {
    let mut s = state(true);
    s.apply_message(OverlayMessage::error("cannot read memory", 42));
    assert_eq!(s.display_text, "Error: cannot read memory");
    assert_eq!(s.status_text, "Error");
    assert!(s.stale);
    assert_eq!(s.last_error.as_deref(), Some("cannot read memory"));
    let odd = OverlayMessage { status: Status::Success, value: None, error: None, timestamp_ms: 1 };
    s.apply_message(odd);
    assert_eq!(s.display_text, "Error: helper returned ok without value");
    let bare = OverlayMessage { status: Status::Error, value: Some(3), error: None, timestamp_ms: 2 };
    s.apply_message(bare);
    assert_eq!(s.display_text, "Error: helper error");
    assert_eq!(s.last_update_ms, Some(2));
}

#[test]
fn long_errors_are_cut() {
    let long = "a".repeat(100);
    assert_eq!(summarize_error(&long), format!("{}...", "a".repeat(96)));
    let exact = "b".repeat(96);
    assert_eq!(summarize_error(&exact), exact);
    // 50 two-byte characters: 100 bytes, but fewer than 96 characters.
    let wide = "é".repeat(50);
    assert_eq!(summarize_error(&wide), format!("{wide}..."));
    let fits = "é".repeat(48);
    assert_eq!(summarize_error(&fits), fits);
}

#[test]
fn redraw_only_when_text_changes() {
    let mut s = state(true);
    let frame = s.tick();
    assert_eq!(frame.text.as_deref(), Some("[STALE] Soul Memory: "));
    assert!(frame.should_render);
    assert_eq!(frame.color, 0x0000_FFFF);
    assert_eq!((frame.width, frame.height), (600, 80));
    assert!(!s.dirty);
    s.set_payload(PayloadState::Disconnected);
    assert!(!s.dirty);
    assert_eq!(s.tick().text, None);
    s.set_payload(PayloadState::Value(5));
    assert!(s.dirty);
    let frame = s.tick();
    assert_eq!(frame.text.as_deref(), Some("Soul Memory: 5"));
    assert_eq!(frame.color, 0x00FF_FFFF);
    assert_eq!(frame.font_face, "Segoe UI");
    assert_eq!(frame.font_size, 36);
}

#[test]
fn config_changes_redraw() {
    let mut s = state(true);
    s.tick();
    s.set_config(
        "Soul Memory: ".to_string(),
        "SoulMemoryOverlay".to_string(),
        1000,
        "Segoe UI".to_string(),
        36,
        0x00FF_FFFF,
        0x0000_FFFF,
        true,
    );
    assert!(!s.dirty);
    s.set_config(
        "SM: ".to_string(),
        "SoulMemoryOverlay".to_string(),
        1000,
        "Segoe UI".to_string(),
        36,
        0x00FF_FFFF,
        0x0000_FFFF,
        false,
    );
    assert!(s.dirty);
    assert_eq!(s.prefix, "SM: ");
    assert_eq!(s.display_text, "Disconnected");
    s.tick();
    s.set_config(
        "SM: ".to_string(),
        "SoulMemoryOverlay".to_string(),
        2000,
        "Segoe UI".to_string(),
        36,
        0x00FF_FFFF,
        0x0000_FFFF,
        false,
    );
    assert!(s.dirty);
    assert_eq!(s.reconnect_ms, 2000);
}

#[test]
fn link_events_update_state() {
    let mut s = state(false);
    s.on_link_event(LinkEvent::Message(OverlayMessage::ok(10, 5)));
    assert_eq!(s.display_text, "Soul Memory: 10");
    s.on_link_event(LinkEvent::Closed);
    assert_eq!(s.display_text, "Disconnected");
    assert_eq!(s.last_error.as_deref(), Some("helper socket closed"));
    assert_eq!(s.value, Some(10));
    s.on_link_event(LinkEvent::ConnectFailed);
    assert_eq!(s.last_error.as_deref(), Some("helper socket not connected"));
    s.on_link_event(LinkEvent::ReadFailed);
    assert_eq!(s.last_error.as_deref(), Some("helper socket read failed"));
    s.on_link_event(LinkEvent::InvalidPayload("expected value".to_string()));
    assert_eq!(s.last_error.as_deref(), Some("invalid IPC payload: expected value"));
    s.on_link_event(LinkEvent::WorkerPanicked);
    assert_eq!(s.display_text, "Error: worker thread panicked");
}

#[test]
fn reconnect_wait_is_at_least_100ms() {
    let mut s = state(true);
    assert_eq!(s.reconnect_wait_ms(), 1000);
    s.reconnect_ms = 10;
    assert_eq!(s.reconnect_wait_ms(), 100);
}

#[test]
fn settings_fall_back_and_clamp() {
    assert_eq!(string_setting(Some("x".to_string()), "fallback"), "x");
    assert_eq!(string_setting(Some(String::new()), "fallback"), "fallback");
    assert_eq!(string_setting(None, "fallback"), "fallback");
    assert_eq!(reconnect_setting(None), 1000);
    assert_eq!(reconnect_setting(Some(50)), 100);
    assert_eq!(reconnect_setting(Some(60_000)), 60_000);
    assert_eq!(font_size_setting(None), 36);
    assert_eq!(font_size_setting(Some(2)), 8);
    assert_eq!(font_size_setting(Some(200)), 144);
    assert_eq!(font_size_setting(Some(72)), 72);
    assert_eq!(color_setting(Some(-5), DEFAULT_TEXT_COLOR), 0);
    assert_eq!(color_setting(Some(0x1_0000_00FF), DEFAULT_TEXT_COLOR), 0xFF);
    assert_eq!(color_setting(None, DEFAULT_TEXT_COLOR), 0x00FF_FFFF);
    assert_eq!(color_setting(None, DEFAULT_STALE_COLOR), 0x0000_FFFF);
}

#[test]
fn pipe_names_map_to_ports() {
    assert_eq!(pipe_name_to_port("SoulMemoryOverlay"), 31791);
    assert_eq!(pipe_name_to_port(""), 36261);
}

#[test]
fn helper_restart_backs_off() {
    assert_eq!(backoff_delay_ms(0), 100);
    assert_eq!(backoff_delay_ms(1), 200);
    assert_eq!(backoff_delay_ms(5), 3200);
    assert_eq!(backoff_delay_ms(6), 5000);
    assert_eq!(backoff_delay_ms(u32::MAX), 5000);
    let mut sup = HelperSupervisor::new();
    assert_eq!(sup.launch_failed(), 100);
    assert_eq!(sup.launch_failed(), 200);
    assert_eq!(sup.failure_count, 2);
    assert_eq!(sup.helper_stopped(10), 800);
    assert_eq!(sup.failure_count, 3);
    assert_eq!(sup.helper_stopped(30_000), 100);
    assert_eq!(sup.failure_count, 0);
    sup.failure_count = u32::MAX;
    assert_eq!(sup.launch_failed(), 5000);
    assert_eq!(sup.failure_count, u32::MAX);
}

#[test]
fn helper_messages() {
    let diag = launch_diagnostics("C:\\h.exe", "exe-dir", "C:\\c.toml", "appdata-override");
    assert_eq!(diag, "helper=C:\\h.exe [exe-dir], config=C:\\c.toml [appdata-override]");
    assert_eq!(path_resolution_failure("none"), "helper path resolution failed: none");
    assert_eq!(spawn_failure("d", "e"), "spawn helper failed (d): e");
    assert_eq!(helper_exit_message("exit code: 1", "d"), "helper exited with status: exit code: 1 (d)");
    assert_eq!(status_check_failure("e", "d"), "helper process status check failed: e (d)");
}

#[test]
fn release_tags_are_found() {
    let body = r#"{"url":"x","tag_name": "v1.2.3","name":"r"}"#;
    assert_eq!(extract_tag_name(body).as_deref(), Some("1.2.3"));
    assert_eq!(extract_tag_name(r#"{"tag_name":"vv2.0.0"}"#).as_deref(), Some("2.0.0"));
    assert_eq!(extract_tag_name(r#"{"tag_name" :	"0.3.0" }"#).as_deref(), Some("0.3.0"));
    assert_eq!(extract_tag_name(r#"{"name":"v1.0.0"}"#), None);
    assert_eq!(extract_tag_name(r#"{"tag_name": 5}"#), None);
    assert_eq!(extract_tag_name(r#"{"tag_name": "unterminated"#), None);
    assert_eq!(extract_tag_name(r#"{"tag_name""#), None);
}

#[test]
fn versions_are_read() {
    assert_eq!(parse_semver("1.2.3"), Some((1, 2, 3)));
    assert_eq!(parse_semver("1.2.3-beta.1"), Some((1, 2, 3)));
    assert_eq!(parse_semver("1.2.3.4"), Some((1, 2, 3)));
    assert_eq!(parse_semver("+1.2.3"), Some((1, 2, 3)));
    assert_eq!(parse_semver("1.2"), None);
    assert_eq!(parse_semver("1.x.3"), None);
    assert_eq!(parse_semver("1.2.-3"), None);
    assert_eq!(parse_semver("18446744073709551615.0.0"), Some((u64::MAX, 0, 0)));
    assert_eq!(parse_semver("18446744073709551616.0.0"), None);
}

#[test]
fn update_status_compares_versions() {
    let body = |tag: &str| format!(r#"{{"tag_name": "{tag}"}}"#);
    assert_eq!(update_status_from("0.1.0", Some(&body("v0.2.0"))), "update available (0.2.0)");
    assert_eq!(update_status_from("0.1.0", Some(&body("v0.1.0"))), "up-to-date");
    assert_eq!(update_status_from("0.2.0", Some(&body("0.1.9"))), "up-to-date");
    assert_eq!(update_status_from("1.0.0", Some(&body("1.0.1-rc1"))), "update available (1.0.1-rc1)");
    assert_eq!(update_status_from("0.1.0", Some(&body("latest"))), "unable to check");
    assert_eq!(update_status_from("0.1.0", Some("not json")), "unable to check");
    assert_eq!(update_status_from("0.1.0", None), "unable to check");
}

#[test]
fn log_lines_are_stamped() {
    assert_eq!(log_line(1_234_567, "hi"), "[1234.567] hi");
    assert_eq!(log_line(5, "x"), "[0.005] x");
    assert_eq!(log_line(1_050, "x"), "[1.050] x");
    assert_eq!(
        message_log_text(&OverlayMessage::error("boom", 1)).as_deref(),
        Some("memory read error: boom")
    );
    assert_eq!(message_log_text(&OverlayMessage::ok(1, 1)), None);
}

fn raw(reconnect_ms: Option<i64>, font_size: Option<i64>) -> RawSettings {
    RawSettings {
        prefix: None,
        pipe_name: Some(String::new()),
        reconnect_ms,
        font_face: Some("Consolas".to_string()),
        font_size,
        text_color: Some(-1),
        stale_color: None,
        show_stale_prefix: None,
        open_config_folder: Some(true),
    }
}

#[test]
fn source_settings_apply_defaults_and_ranges() {
    let s = source_settings(raw(Some(20), Some(300)));
    assert_eq!(s.prefix, "Soul Memory: ");
    assert_eq!(s.pipe_name, "SoulMemoryOverlay");
    assert_eq!(s.reconnect_ms, 100);
    assert_eq!(s.font_face, "Consolas");
    assert_eq!(s.font_size, 144);
    assert_eq!(s.text_color, 0);
    assert_eq!(s.stale_color, DEFAULT_STALE_COLOR as u32);
    assert!(!s.show_stale_prefix);
    assert!(s.open_config_folder);

    let s = source_settings(raw(None, None));
    assert_eq!(s.reconnect_ms, 1000);
    assert_eq!(s.font_size, 36);
}

#[test]
fn defaults_cover_every_setting() {
    let defaults = setting_defaults();
    let keys: Vec<String> = defaults.iter().map(|d| d.key.clone()).collect();
    assert_eq!(
        keys,
        vec![
            "prefix",
            "pipe_name",
            "reconnect_ms",
            "font_face",
            "font_size",
            "text_color",
            "stale_color",
            "show_stale_prefix",
            "status",
            "open_config_folder",
        ]
    );
    match &defaults[0].value {
        SettingValue::Text(t) => assert_eq!(t, "Soul Memory: "),
        _ => panic!("prefix default is text"),
    }
    match &defaults[2].value {
        SettingValue::Integer(n) => assert_eq!(*n, 1000),
        _ => panic!("reconnect default is a number"),
    }
    match &defaults[8].value {
        SettingValue::Text(t) => assert_eq!(t, "Disconnected"),
        _ => panic!("status default is text"),
    }
    match &defaults[9].value {
        SettingValue::Flag(b) => assert!(!*b),
        _ => panic!("folder toggle default is a flag"),
    }
}

#[test]
fn default_values_read_back_unchanged() {
    let store = RawSettings {
        prefix: Some("Soul Memory: ".to_string()),
        pipe_name: Some("SoulMemoryOverlay".to_string()),
        reconnect_ms: Some(1000),
        font_face: Some("Segoe UI".to_string()),
        font_size: Some(36),
        text_color: Some(DEFAULT_TEXT_COLOR as i64),
        stale_color: Some(DEFAULT_STALE_COLOR as i64),
        show_stale_prefix: Some(false),
        open_config_folder: Some(false),
    };
    let empty = RawSettings {
        prefix: None,
        pipe_name: None,
        reconnect_ms: None,
        font_face: None,
        font_size: None,
        text_color: None,
        stale_color: None,
        show_stale_prefix: None,
        open_config_folder: None,
    };
    let a = source_settings(store);
    let b = source_settings(empty);
    assert_eq!(a.prefix, b.prefix);
    assert_eq!(a.pipe_name, b.pipe_name);
    assert_eq!(a.reconnect_ms, b.reconnect_ms);
    assert_eq!(a.font_face, b.font_face);
    assert_eq!(a.font_size, b.font_size);
    assert_eq!(a.text_color, b.text_color);
    assert_eq!(a.stale_color, b.stale_color);
    assert_eq!(a.show_stale_prefix, b.show_stale_prefix);
}

#[test]
fn properties_form_in_order() {
    let form = settings_form("Status: Connected");
    assert_eq!(form.len(), 10);
    assert_eq!(form[0].key, "prefix");
    assert_eq!(form[0].label, "Label Prefix");
    assert_eq!(form[0].widget, SettingWidget::Text);
    assert_eq!(form[2].widget, SettingWidget::Integer { min: 100, max: 60_000 });
    assert_eq!(form[4].widget, SettingWidget::Integer { min: 8, max: 144 });
    assert_eq!(form[5].widget, SettingWidget::Color);
    assert_eq!(form[8].key, "status");
    assert_eq!(form[8].label, "Status: Connected");
    assert_eq!(form[9].label, "Open Config Folder (toggle)");
    assert_eq!(form[9].widget, SettingWidget::Toggle);
    for v in [100i64, 60_000] {
        assert_eq!(reconnect_setting(Some(v)), v as u64);
    }
    for v in [8i64, 144] {
        assert_eq!(font_size_setting(Some(v)), v as u32);
    }
}

#[test]
fn waits_sleep_in_short_slices() {
    assert_eq!(wait_slice_ms(1000), 50);
    assert_eq!(wait_slice_ms(50), 50);
    assert_eq!(wait_slice_ms(20), 20);
    assert_eq!(wait_slice_ms(0), 0);
}

#[test]
fn default_source_shows_disconnected() {
    let settings = source_settings(RawSettings {
        prefix: None,
        pipe_name: None,
        reconnect_ms: None,
        font_face: None,
        font_size: None,
        text_color: None,
        stale_color: None,
        show_stale_prefix: None,
        open_config_folder: None,
    });
    let mut s = OverlayState::new(
        settings.prefix,
        settings.pipe_name,
        settings.reconnect_ms,
        settings.font_face,
        settings.font_size,
        settings.text_color,
        settings.stale_color,
        settings.show_stale_prefix,
    );
    assert_eq!(s.display_text, "Disconnected");
    s.apply_message(OverlayMessage::ok(12, 5));
    assert_eq!(s.display_text, "Soul Memory: 12");
    s.mark_disconnected(Some("helper socket not connected".to_string()));
    assert_eq!(s.display_text, "Disconnected");
    assert_eq!(s.status_text, "Disconnected");
}

#[test]
fn a_run_of_link_events_keeps_the_last_value_and_time() {
    let mut s = state(false);
    s.on_link_event(LinkEvent::ConnectFailed);
    s.on_link_event(LinkEvent::Message(OverlayMessage::ok(7, 100)));
    s.on_link_event(LinkEvent::Message(OverlayMessage::error("cannot read memory", 200)));
    s.on_link_event(LinkEvent::Closed);
    s.on_link_event(LinkEvent::WorkerPanicked);
    assert_eq!(s.value, Some(7));
    assert_eq!(s.last_update_ms, Some(200));
    assert_eq!(s.prefix, "Soul Memory: ");
}

#[test]
fn a_run_of_helper_failures_backs_off_and_resets() {
    let mut sup = HelperSupervisor::new();
    let waits: Vec<u64> = vec![
        sup.launch_failed(),
        sup.launch_failed(),
        sup.helper_stopped(1_000),
        sup.helper_stopped(40_000),
        sup.launch_failed(),
    ];
    assert_eq!(waits, vec![100, 200, 800, 100, 100]);
    assert_eq!(sup.failure_count, 1);
}
