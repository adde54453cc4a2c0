use gamefloat::config::{check_import_text, export_result, import_failure, import_success, strip_bom, ImportFailure};
use gamefloat::model::{Bounds, FloatWindow, HotkeyAction, Settings};
use gamefloat::shortcuts::{plan_shortcuts, registration_issue, Binding};
use gamefloat::tray::{parse_tray_event, tray_entries, TrayCommand};

fn settings() -> Settings {
    Settings {
        windows: vec![
            FloatWindow {
                id: "w1".into(),
                name: "Guide".into(),
                url: "https://a".into(),
                toggle_hotkey: " Ctrl+Shift+A ".into(),
                bounds: None,
                hotkeys: vec![
                    HotkeyAction { id: "a1".into(), name: "Scroll".into(), hotkey: "Alt+S".into(), code: "".into() },
                    HotkeyAction { id: "a2".into(), name: "Click".into(), hotkey: "".into(), code: "".into() },
                    HotkeyAction { id: "a3".into(), name: "Bad".into(), hotkey: "Ctrl+Foo".into(), code: "".into() },
                ],
            },
            FloatWindow {
                id: "w2".into(),
                name: "".into(),
                url: "".into(),
                toggle_hotkey: "control+shift+KeyA".into(),
                bounds: None,
                hotkeys: vec![],
            },
        ],
        default_bounds: Bounds::default(),
    }
}

#[test]
fn shortcut_plan_binds_reports_and_skips() {
    let plan = plan_shortcuts(&settings());
    assert_eq!(plan.keys.len(), 2);
    assert_eq!(plan.bindings.len(), 2);
    assert!(matches!(&plan.bindings[&plan.keys[0]], Binding::Toggle(id) if id == "w1"));
    assert!(matches!(&plan.bindings[&plan.keys[1]], Binding::Action(w, a) if w == "w1" && a == "a1"));
    assert_eq!(plan.issues.len(), 2);
    assert_eq!(plan.issues[0].hotkey, "Ctrl+Foo");
    assert!(plan.issues[0].reason.contains("Foo"));
    assert_eq!(plan.issues[1].hotkey, "control+shift+KeyA");
    assert_eq!(plan.issues[1].reason, "与其他快捷键重复");
    let k = plan.keys[0];
    assert!(matches!(plan.binding_for(k), Some(Binding::Toggle(id)) if id == "w1"));
    assert!(plan.binding_for(k ^ 0xffff_0000).is_none());
}

#[test]
fn registration_problem_text() {
    let i = registration_issue("shift+KeyQ".into(), "busy");
    assert_eq!(i.hotkey, "shift+KeyQ");
    assert_eq!(i.reason, "注册失败：busy");
}

#[test]
fn tray_menu_entries() {
    let s = settings();
    let menus = tray_entries(&s, &vec![true]);
    assert_eq!(menus.len(), 2);
    assert_eq!(menus[0].title, "Guide");
    assert_eq!(menus[1].title, "小窗");
    assert_eq!(menus[0].items[0].id, "toggle:w1");
    assert_eq!(menus[0].items[0].label, "隐藏小窗");
    assert_eq!(menus[1].items[0].label, "显示小窗");
    assert_eq!(menus[0].items[1].id, "action:w1\u{1f}a1");
    assert_eq!(menus[0].items[1].label, "Scroll  (Alt+S)");
    assert_eq!(menus[0].items[2].label, "Click");
    assert_eq!(menus[0].items.len(), 4);
    assert_eq!(menus[1].items.len(), 1);
}

#[test]
fn tray_events() {
    assert!(matches!(parse_tray_event("settings"), TrayCommand::OpenSettings));
    assert!(matches!(parse_tray_event("quit"), TrayCommand::Quit));
    assert!(matches!(parse_tray_event("toggle:w1"), TrayCommand::Toggle(id) if id == "w1"));
    assert!(matches!(parse_tray_event("action:w1\u{1f}a1"), TrayCommand::RunAction(w, a) if w == "w1" && a == "a1"));
    assert!(matches!(parse_tray_event("action:a\u{1f}b\u{1f}c"), TrayCommand::RunAction(w, a) if w == "a" && a == "b\u{1f}c"));
    assert!(matches!(parse_tray_event("action:nosep"), TrayCommand::Ignore));
    assert!(matches!(parse_tray_event("other"), TrayCommand::Ignore));
    let s = settings();
    for m in tray_entries(&s, &vec![]) {
        assert!(matches!(parse_tray_event(&m.items[0].id), TrayCommand::Toggle(_)));
    }
}

#[test]
fn config_text_clean_up() {
    assert_eq!(strip_bom("\u{feff}\u{feff}{}"), "{}");
    assert_eq!(strip_bom("{}\u{feff}"), "{}\u{feff}");
    assert_eq!(strip_bom(""), "");
}

#[test]
fn import_answers() {
    assert!(check_import_text("  \n ").is_err());
    assert!(matches!(check_import_text(""), Err(ImportFailure::Empty)));
    assert!(check_import_text("[]").is_ok());
    let r = import_failure(ImportFailure::Empty);
    assert!(!r.ok);
    assert_eq!(r.error.as_deref(), Some("剪贴板为空"));
    assert_eq!(import_failure(ImportFailure::InvalidJson).error.as_deref(), Some("剪贴板内容不是有效的 JSON"));
    assert_eq!(
        import_failure(ImportFailure::MissingWindows).error.as_deref(),
        Some("未找到小窗数据（缺少 windows 数组）")
    );
    assert_eq!(import_failure(ImportFailure::Clipboard("boom".into())).error.as_deref(), Some("boom"));
    let ok = import_success(settings());
    assert!(ok.ok);
    assert_eq!(ok.count, Some(2));
    assert!(ok.settings.is_some());
}

#[test]
fn export_answers() {
    let r = export_result(Ok(()), 3);
    assert!(r.ok && r.error.is_none() && r.count == Some(3) && r.settings.is_none());
    let r = export_result(Err("denied".into()), 3);
    assert!(!r.ok);
    assert_eq!(r.error.as_deref(), Some("denied"));
    assert_eq!(r.count, None);
}
