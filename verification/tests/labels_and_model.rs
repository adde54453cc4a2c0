use gamefloat::ids::IdSeq;
use gamefloat::labels::{content_label, id_from_label, menu_label, ui_label, window_label};
use gamefloat::model::{build_state, Bounds, FloatWindow, HotkeyAction, Settings};

fn action(id: &str, name: &str, hotkey: &str, code: &str) -> HotkeyAction {
    HotkeyAction {
        id: id.to_string(),
        name: name.to_string(),
        hotkey: hotkey.to_string(),
        code: code.to_string(),
    }
}

fn window(id: &str, name: &str, url: &str, toggle: &str, hotkeys: Vec<HotkeyAction>) -> FloatWindow {
    FloatWindow {
        id: id.to_string(),
        name: name.to_string(),
        url: url.to_string(),
        toggle_hotkey: toggle.to_string(),
        bounds: None,
        hotkeys,
    }
}

fn is_hex(s: &str) -> bool {
    !s.is_empty() && s.chars().all(|c| c.is_ascii_digit() || ('a'..='f').contains(&c))
}

#[test]
fn labels_are_built_from_the_id() {
    assert_eq!(window_label("abc"), "w-abc");
    assert_eq!(ui_label("abc"), "w-abc:ui");
    assert_eq!(menu_label("abc"), "w-abc:menu");
    assert_eq!(content_label("abc"), "w-abc:content");
}

#[test]
fn id_from_label_strips_prefix_and_one_known_suffix() {
    assert_eq!(id_from_label("w-abc"), Some("abc".to_string()));
    assert_eq!(id_from_label("w-abc:ui"), Some("abc".to_string()));
    assert_eq!(id_from_label("w-abc:menu"), Some("abc".to_string()));
    assert_eq!(id_from_label("w-abc:content"), Some("abc".to_string()));
    assert_eq!(id_from_label("w-a:b:menu"), Some("a:b".to_string()));
    assert_eq!(id_from_label("w-a:other"), Some("a:other".to_string()));
    assert_eq!(id_from_label("settings"), None);
    assert_eq!(id_from_label("w-"), None);
    assert_eq!(id_from_label("w-:ui"), None);
    assert_eq!(id_from_label("x-abc"), None);
}

#[test]
fn child_labels_round_trip() {
    for id in ["a", "win-1f", "x:y", "a:ui"] {
        assert_eq!(id_from_label(&ui_label(id)), Some(id.to_string()));
        assert_eq!(id_from_label(&menu_label(id)), Some(id.to_string()));
        assert_eq!(id_from_label(&content_label(id)), Some(id.to_string()));
    }
    assert_eq!(id_from_label(&window_label("plain")), Some("plain".to_string()));
    // An id ending in a child suffix loses it through the window label.
    assert_eq!(id_from_label(&window_label("a:ui")), Some("a".to_string()));
}

#[test]
fn defaults() {
    let b = Bounds::default();
    assert_eq!((b.x, b.y, b.width, b.height), (None, None, 480, 720));
    let s = Settings::default();
    assert!(s.windows.is_empty());
    assert_eq!(s.default_bounds.width, 480);
    assert_eq!(s.default_bounds.height, 720);
}

#[test]
fn uuid_like_is_clock_then_sequence_in_hex() {
    let mut ids = IdSeq::new();
    let a = ids.uuid_like();
    let b = ids.uuid_like();
    assert!(is_hex(&a));
    assert!(is_hex(&b));
    assert!(a.ends_with('0'));
    assert!(b.ends_with('1'));
    assert_ne!(a, b);
    assert_eq!(ids.next, 2);
    let mut last = IdSeq { next: u64::MAX };
    let c = last.uuid_like();
    assert!(c.ends_with("ffffffffffffffff"));
    assert_eq!(last.next, 0);
}

#[test]
fn normalize_fills_in_missing_and_repeated_ids() {
    let mut s = Settings {
        windows: vec![
            window("", "A", "https://a", "", vec![action("", "x", "", ""), action("k", "y", "", "")]),
            window("dup", "B", "https://b", "", vec![action("k", "p", "", ""), action("k", "q", "", "")]),
            window("dup", "C", "https://c", "", vec![]),
        ],
        default_bounds: Bounds::default(),
    };
    let mut ids = IdSeq::new();
    s.normalize(&mut ids);
    assert_eq!(s.windows.len(), 3);
    assert!(s.windows[0].id.starts_with("win-") && is_hex(&s.windows[0].id[4..]));
    assert!(s.windows[0].hotkeys[0].id.starts_with("act-"));
    assert_eq!(s.windows[0].hotkeys[1].id, "k");
    assert_eq!(s.windows[1].id, "dup");
    assert_eq!(s.windows[1].hotkeys[0].id, "k");
    assert!(s.windows[1].hotkeys[1].id.starts_with("act-"));
    assert!(s.windows[2].id.starts_with("win-"));
    // Only ids change.
    assert_eq!(s.windows[2].name, "C");
    assert_eq!(s.windows[1].hotkeys[1].name, "q");
    // Four ids were made up, one sequence number each.
    assert_eq!(ids.next, 4);
    let all: Vec<&String> = s.windows.iter().map(|w| &w.id).collect();
    assert_ne!(all[0], all[2]);
}

#[test]
fn normalize_keeps_clean_settings() {
    let mut s = Settings {
        windows: vec![
            window("w1", "A", "https://a", "ctrl+a", vec![action("a1", "x", "", "")]),
            window("w2", "B", "https://b", "", vec![action("a1", "y", "", "")]),
        ],
        default_bounds: Bounds::default(),
    };
    let before = s.clone();
    let mut ids = IdSeq::new();
    s.normalize(&mut ids);
    assert_eq!(ids.next, 0);
    assert_eq!(format!("{:?}", s), format!("{:?}", before));
}

#[test]
fn find_window_returns_the_first_match() {
    let s = Settings {
        windows: vec![window("a", "first", "", "", vec![]), window("a", "second", "", "", vec![])],
        default_bounds: Bounds::default(),
    };
    assert_eq!(s.find_window("a").unwrap().name, "first");
    assert!(s.find_window("b").is_none());
    let state = build_state("a", &s).unwrap();
    assert_eq!(state.item.name, "first");
    assert!(build_state("zz", &s).is_none());
}

#[test]
fn record_bounds_updates_the_named_window_only() {
    let mut s = Settings {
        windows: vec![window("a", "A", "", "", vec![]), window("b", "B", "", "", vec![])],
        default_bounds: Bounds::default(),
    };
    let b = Bounds { x: Some(10), y: Some(-20), width: 300, height: 200 };
    s.record_bounds("b", b);
    let got = s.find_window("b").unwrap().bounds.unwrap();
    assert_eq!((got.x, got.y, got.width, got.height), (Some(10), Some(-20), 300, 200));
    assert!(s.find_window("a").unwrap().bounds.is_none());
    s.record_bounds("missing", b);
    assert_eq!(s.windows.len(), 2);
}

#[test]
fn saving_keeps_bounds_recorded_at_run_time() {
    let mut previous = Settings {
        windows: vec![window("a", "A", "", "", vec![]), window("b", "B", "", "", vec![])],
        default_bounds: Bounds::default(),
    };
    previous.record_bounds("a", Bounds { x: Some(1), y: Some(2), width: 3, height: 4 });
    let mut patch = Settings {
        windows: vec![
            window("a", "A2", "", "", vec![]),
            window("b", "B2", "", "", vec![]),
            window("c", "C", "", "", vec![]),
        ],
        default_bounds: Bounds { x: None, y: None, width: 100, height: 100 },
    };
    patch.windows[0].bounds = Some(Bounds { x: None, y: None, width: 9, height: 9 });
    patch.windows[1].bounds = Some(Bounds { x: None, y: None, width: 7, height: 7 });
    let merged = Settings::merge_runtime_bounds(&previous, patch);
    assert_eq!(merged.windows[0].name, "A2");
    assert_eq!(merged.windows[0].bounds.unwrap().width, 3);
    assert_eq!(merged.windows[1].bounds.unwrap().width, 7);
    assert!(merged.windows[2].bounds.is_none());
    assert_eq!(merged.default_bounds.width, 100);
}

#[test]
fn find_action_needs_window_and_action() {
    let s = Settings {
        windows: vec![window("w", "W", "", "", vec![action("a", "act", "", "code")])],
        default_bounds: Bounds::default(),
    };
    assert_eq!(s.find_action("w", "a").unwrap().code, "code");
    assert!(s.find_action("w", "b").is_none());
    assert!(s.find_action("v", "a").is_none());
}
