use gamefloat::ids::IdSeq;
use gamefloat::labels::{content_label, id_from_label, menu_label, ui_label};
use gamefloat::model::{Bounds, FloatWindow, HotkeyAction, Settings};
use gamefloat::overlay::{
    close_menu, close_request_hides, is_menu_open, is_quitting, mark_menu_open, set_quitting, toggle_menu,
    OverlayRuntime,
};
use gamefloat::shortcuts::plan_shortcuts;
use gamefloat::text::str_eq;
use gamefloat::tray::{fixed_tray_items, parse_tray_event, tray_entries, TrayCommand};

fn messy() -> Settings {
    let act = |id: &str, hk: &str| HotkeyAction {
        id: id.to_string(),
        name: "n".to_string(),
        hotkey: hk.to_string(),
        code: "c()".to_string(),
    };
    let win = |id: &str, toggle: &str, hotkeys: Vec<HotkeyAction>| FloatWindow {
        id: id.to_string(),
        name: "w".to_string(),
        url: "https://example.com".to_string(),
        toggle_hotkey: toggle.to_string(),
        bounds: None,
        hotkeys,
    };
    Settings {
        windows: vec![
            win("", "F1", vec![act("", "F2"), act("", "F2"), act("x", "")]),
            win("a", "nonsense+", vec![act("x", "shift+F3"), act("x", "Shift+F3")]),
            win("a", "", vec![]),
        ],
        default_bounds: Bounds::default(),
    }
}

#[test]
fn normalized_ids_are_non_empty_and_unique() {
    let mut s = messy();
    let mut ids = IdSeq::new();
    s.normalize(&mut ids);
    let mut seen = std::collections::HashSet::new();
    for w in &s.windows {
        assert!(!w.id.is_empty());
        assert!(seen.insert(w.id.clone()));
        let mut actions = std::collections::HashSet::new();
        for a in &w.hotkeys {
            assert!(!a.id.is_empty());
            assert!(actions.insert(a.id.clone()));
        }
    }
}

#[test]
fn normalizing_twice_changes_nothing_more() {
    let mut s = messy();
    let mut ids = IdSeq::new();
    s.normalize(&mut ids);
    let once = format!("{:?}", s);
    let used = ids.next;
    s.normalize(&mut ids);
    assert_eq!(format!("{:?}", s), once);
    assert_eq!(ids.next, used);
}

#[test]
fn child_labels_name_their_window() {
    for id in ["w", "a:b", "x:content", "长 id"] {
        for label in [ui_label(id), menu_label(id), content_label(id)] {
            assert_eq!(id_from_label(&label).as_deref(), Some(id));
        }
    }
}

#[test]
fn toggling_a_menu_twice_restores_it() {
    let mut rt = OverlayRuntime::new();
    let first = toggle_menu(&mut rt, "m");
    let second = toggle_menu(&mut rt, "m");
    assert_ne!(first, second);
    assert!(!is_menu_open(&rt, "m"));
}

#[test]
fn every_request_is_bound_or_reported_once() {
    let s = messy();
    let plan = plan_shortcuts(&s);
    // Requests: F1, F2, F2, nonsense+, shift+F3, Shift+F3 (blank hotkeys skipped).
    assert_eq!(plan.bindings.len() + plan.issues.len(), 6);
    assert_eq!(plan.keys.len(), plan.bindings.len());
    assert_eq!(plan.texts.len(), plan.keys.len());
    let mut keys = plan.keys.clone();
    keys.sort();
    keys.dedup();
    assert_eq!(keys.len(), plan.keys.len());
    assert_eq!(plan.texts, vec!["F1".to_string(), "F2".to_string(), "shift+F3".to_string()]);
}

#[test]
fn tray_entries_lead_back_to_their_commands() {
    let mut s = messy();
    let mut ids = IdSeq::new();
    s.normalize(&mut ids);
    for (menu, w) in tray_entries(&s, &vec![false, true]).iter().zip(&s.windows) {
        assert!(matches!(parse_tray_event(&menu.items[0].id), TrayCommand::Toggle(id) if id == w.id));
        for (item, a) in menu.items[1..].iter().zip(&w.hotkeys) {
            assert!(matches!(parse_tray_event(&item.id),
                TrayCommand::RunAction(wid, aid) if wid == w.id && aid == a.id));
        }
    }
}

fn window(id: &str, toggle: &str, hotkeys: Vec<HotkeyAction>) -> FloatWindow {
    FloatWindow {
        id: id.to_string(),
        name: "w".to_string(),
        url: "https://example.com".to_string(),
        toggle_hotkey: toggle.to_string(),
        bounds: None,
        hotkeys,
    }
}

fn action(id: &str, hotkey: &str) -> HotkeyAction {
    HotkeyAction {
        id: id.to_string(),
        name: "n".to_string(),
        hotkey: hotkey.to_string(),
        code: "c()".to_string(),
    }
}

#[test]
fn repeated_and_empty_window_ids_get_distinct_fresh_ids() {
    let mut s = Settings {
        windows: vec![window("a", "", vec![]), window("a", "", vec![]), window("", "", vec![])],
        default_bounds: Bounds::default(),
    };
    let mut ids = IdSeq::new();
    s.normalize(&mut ids);
    assert_eq!(s.windows[0].id, "a");
    assert!(s.windows[1].id.starts_with("win-"));
    assert!(s.windows[2].id.starts_with("win-"));
    assert_ne!(s.windows[1].id, s.windows[2].id);
    assert_ne!(s.windows[0].id, s.windows[1].id);
    assert_eq!(ids.next, 2);
}

#[test]
fn made_up_ids_carry_the_sequence_numbers_in_order() {
    let mut s = Settings {
        windows: vec![
            window("", "", vec![action("", ""), action("x", "")]),
            window("b", "", vec![action("", "")]),
        ],
        default_bounds: Bounds::default(),
    };
    let mut ids = IdSeq { next: 0x1d };
    s.normalize(&mut ids);
    assert!(s.windows[0].id.starts_with("win-") && s.windows[0].id.ends_with("1d"));
    assert!(s.windows[0].hotkeys[0].id.starts_with("act-") && s.windows[0].hotkeys[0].id.ends_with("1e"));
    assert_eq!(s.windows[0].hotkeys[1].id, "x");
    assert_eq!(s.windows[1].id, "b");
    assert!(s.windows[1].hotkeys[0].id.starts_with("act-") && s.windows[1].hotkeys[0].id.ends_with("1f"));
    assert_eq!(ids.next, 0x20);
}

#[test]
fn padding_hotkeys_with_white_space_changes_no_binding() {
    let plain = Settings {
        windows: vec![
            window("w1", "F1", vec![action("a1", "shift+F3"), action("a2", "")]),
            window("w2", "F1", vec![action("a3", "nonsense+")]),
        ],
        default_bounds: Bounds::default(),
    };
    let padded = Settings {
        windows: vec![
            window("w1", " F1\t", vec![action("a1", " shift+F3\t"), action("a2", " \t ")]),
            window("w2", " F1\t", vec![action("a3", " nonsense+\t")]),
        ],
        default_bounds: Bounds::default(),
    };
    let p = plan_shortcuts(&plain);
    let q = plan_shortcuts(&padded);
    assert_eq!(p.keys, q.keys);
    assert_eq!(p.texts, q.texts);
    for k in &p.keys {
        assert_eq!(format!("{:?}", p.bindings[k]), format!("{:?}", q.bindings[k]));
    }
    assert_eq!(format!("{:?}", p.issues), format!("{:?}", q.issues));
    assert_eq!(p.bindings.len(), 2);
    assert_eq!(p.issues.len(), 2);
}

#[test]
fn quitting_stays_set_and_closes_windows() {
    let mut rt = OverlayRuntime::new();
    assert!(close_request_hides(&rt));
    set_quitting(&mut rt);
    mark_menu_open(&mut rt, "a", true);
    toggle_menu(&mut rt, "b");
    close_menu(&mut rt, "a");
    set_quitting(&mut rt);
    assert!(is_quitting(&rt));
    assert!(!close_request_hides(&rt));
}

#[test]
fn a_closed_menu_stays_closed_until_opened() {
    let mut rt = OverlayRuntime::new();
    mark_menu_open(&mut rt, "a", true);
    assert!(close_menu(&mut rt, "a"));
    toggle_menu(&mut rt, "b");
    mark_menu_open(&mut rt, "c", true);
    close_menu(&mut rt, "a");
    mark_menu_open(&mut rt, "a", false);
    assert!(!is_menu_open(&rt, "a"));
    assert!(is_menu_open(&rt, "b"));
    assert!(toggle_menu(&mut rt, "a"));
    assert!(is_menu_open(&rt, "a"));
}

#[test]
fn ids_that_cannot_be_made_up_are_kept_and_others_stay_apart() {
    let mut s = Settings {
        windows: vec![
            window("win-main", "", vec![action("act-x", ""), action("", ""), action("", "")]),
            window("win-1", "", vec![]),
            window("win-main", "", vec![]),
            window("", "", vec![]),
        ],
        default_bounds: Bounds::default(),
    };
    let mut ids = IdSeq::new();
    s.normalize(&mut ids);
    assert_eq!(s.windows[0].id, "win-main");
    assert_eq!(s.windows[1].id, "win-1");
    assert_ne!(s.windows[2].id, s.windows[3].id);
    assert!(s.windows[2].id.len() >= 6 && s.windows[3].id.len() >= 6);
    assert_eq!(s.windows[0].hotkeys[0].id, "act-x");
    assert_ne!(s.windows[0].hotkeys[1].id, s.windows[0].hotkeys[2].id);
    assert_eq!(ids.next, 4);
}

#[test]
fn fixed_tray_entries_lead_to_settings_and_quit() {
    let items = fixed_tray_items();
    assert_eq!(items.len(), 2);
    assert_eq!(items[0].id, "settings");
    assert_eq!(items[0].label, "设置...");
    assert_eq!(items[1].id, "quit");
    assert_eq!(items[1].label, "退出 GameFloat");
    assert!(matches!(parse_tray_event(&items[0].id), TrayCommand::OpenSettings));
    assert!(matches!(parse_tray_event(&items[1].id), TrayCommand::Quit));
}

#[test]
fn texts_compare_by_their_characters() {
    assert!(str_eq("长 id", "长 id"));
    assert!(!str_eq("长 id", "长 ie"));
    assert!(!str_eq("ab", "abc"));
    assert!(str_eq("", ""));
}
