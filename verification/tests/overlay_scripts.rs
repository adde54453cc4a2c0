use gamefloat::model::{Bounds, FloatWindow, HotkeyAction, Settings};
use gamefloat::overlay::{
    close_menu, close_request_hides, content_target, effective_bounds, initial_position,
    is_menu_open, is_quitting, json_string, mark_menu_open, navigate_script, navigation_target,
    pill_metrics_script, plan_action, plan_script, set_quitting, stale_window_ids, toggle_menu,
    window_title, wrap_script, OverlayRuntime, UI_PILL_HEIGHT, UI_PILL_TOP, UI_PILL_WIDTH,
};

fn window(id: &str, url: &str, hotkeys: Vec<HotkeyAction>) -> FloatWindow {
    FloatWindow {
        id: id.to_string(),
        name: String::new(),
        url: url.to_string(),
        toggle_hotkey: String::new(),
        bounds: None,
        hotkeys,
    }
}

#[test]
fn quitting_flag() {
    let mut rt = OverlayRuntime::new();
    assert!(!is_quitting(&rt));
    assert!(close_request_hides(&rt));
    set_quitting(&mut rt);
    assert!(is_quitting(&rt));
    assert!(!close_request_hides(&rt));
}

#[test]
fn menu_open_state() {
    let mut rt = OverlayRuntime::new();
    assert!(!is_menu_open(&rt, "a"));
    assert!(toggle_menu(&mut rt, "a"));
    assert!(is_menu_open(&rt, "a"));
    assert!(!is_menu_open(&rt, "b"));
    mark_menu_open(&mut rt, "b", true);
    mark_menu_open(&mut rt, "b", true);
    assert!(!toggle_menu(&mut rt, "a"));
    assert!(!is_menu_open(&rt, "a"));
    assert!(is_menu_open(&rt, "b"));
    assert!(close_menu(&mut rt, "b"));
    assert!(!is_menu_open(&rt, "b"));
    assert!(!close_menu(&mut rt, "b"));
}

#[test]
fn pill_script_carries_the_pill_geometry() {
    assert_eq!((UI_PILL_WIDTH, UI_PILL_HEIGHT, UI_PILL_TOP), (64, 26, 8));
    assert_eq!(pill_metrics_script(), "window.__GF_PILL__={width:64,height:26,top:8};");
}

#[test]
fn user_code_is_wrapped() {
    assert_eq!(
        wrap_script("go()"),
        "(async () => {\n  try {\ngo()\n  } catch (__error) {\n    console.error('[GameFloat] JS 执行失败:', __error);\n  }\n})()"
    );
    assert_eq!(plan_script("  \n\t"), None);
    assert_eq!(plan_script(""), None);
    assert_eq!(plan_script("x()"), Some(wrap_script("x()")));
}

#[test]
fn running_actions() {
    let s = Settings {
        windows: vec![window(
            "w",
            "",
            vec![
                HotkeyAction { id: "a".into(), name: "n".into(), hotkey: "".into(), code: "scroll()".into() },
                HotkeyAction { id: "b".into(), name: "n".into(), hotkey: "".into(), code: "   ".into() },
            ],
        )],
        default_bounds: Bounds::default(),
    };
    assert_eq!(plan_action(&s, "w", "a").unwrap(), Some(wrap_script("scroll()")));
    assert_eq!(plan_action(&s, "w", "b").unwrap(), None);
    let e = plan_action(&s, "w", "c").unwrap_err();
    assert!(!e.ok);
    assert_eq!(e.error.as_deref(), Some("快捷键动作不存在"));
    assert!(plan_action(&s, "v", "a").is_err());
}

#[test]
fn json_string_escapes() {
    assert_eq!(json_string("abc"), "\"abc\"");
    assert_eq!(json_string("a\"b\\c"), "\"a\\\"b\\\\c\"");
    assert_eq!(json_string("\n\t\r\u{8}\u{c}"), "\"\\n\\t\\r\\b\\f\"");
    assert_eq!(json_string("\u{1}\u{1f}"), "\"\\u0001\\u001f\"");
    assert_eq!(json_string("中/文\u{7f}"), "\"中/文\u{7f}\"");
}

#[test]
fn navigation_needs_a_full_url() {
    assert_eq!(
        navigate_script("  https://example.com/a?b=1 "),
        Some("location.href = \"https://example.com/a?b=1\"".to_string())
    );
    assert_eq!(navigate_script("example.com"), None);
    assert_eq!(navigate_script(""), None);
    assert_eq!(content_target(" https://x.org "), Some("https://x.org".to_string()));
    assert_eq!(content_target("not a url"), None);
}

#[test]
fn window_setup() {
    assert_eq!(window_title(""), "GameFloat");
    assert_eq!(window_title("攻略"), "攻略");
    let mut w = window("a", "", vec![]);
    let d = Bounds { x: Some(5), y: None, width: 1, height: 2 };
    assert_eq!(effective_bounds(&w, d).width, 1);
    w.bounds = Some(Bounds { x: Some(3), y: Some(4), width: 10, height: 20 });
    assert_eq!(effective_bounds(&w, d).width, 10);
    assert_eq!(initial_position(w.bounds.unwrap()), Some((3, 4)));
    assert_eq!(initial_position(d), None);
}

#[test]
fn stale_windows_are_those_missing_from_settings() {
    let s = Settings {
        windows: vec![window("keep", "", vec![])],
        default_bounds: Bounds::default(),
    };
    let labels: Vec<String> = vec![
        "settings".into(),
        "w-keep".into(),
        "w-gone".into(),
        "w-old".into(),
    ];
    assert_eq!(stale_window_ids(&labels, &s), vec!["gone".to_string(), "old".to_string()]);
}

#[test]
fn navigation_after_settings_change() {
    let previous = Settings {
        windows: vec![window("a", "https://a.com", vec![]), window("b", "https://b.com", vec![])],
        default_bounds: Bounds::default(),
    };
    assert_eq!(navigation_target(&previous, &window("a", " https://a.com ", vec![])), None);
    assert_eq!(
        navigation_target(&previous, &window("b", "https://c.com", vec![])),
        Some("https://c.com".to_string())
    );
    assert_eq!(navigation_target(&previous, &window("b", "  ", vec![])), None);
    assert_eq!(
        navigation_target(&previous, &window("new", "https://n.com", vec![])),
        Some("https://n.com".to_string())
    );
}
