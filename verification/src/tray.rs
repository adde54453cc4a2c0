//! The tray menu: one submenu per overlay window, and the commands its
//! entries stand for.
use vstd::prelude::*;
use vstd::string::StringExecFns;
use crate::text::{chars_of, push_char, starts_with, string_of_range, vec_starts_with};
use crate::model::{ActionView, FloatWindow, HotkeyAction, Settings, WindowView};

verus! {

/// One clickable entry: the id the menu reports back, and the text shown.
#[derive(Debug)]
pub struct TrayItem {
    pub id: String,
    pub label: String,
}

/// The submenu of one overlay window.
#[derive(Debug)]
pub struct TraySubmenu {
    pub title: String,
    pub items: Vec<TrayItem>,
}

pub open spec fn unit_separator() -> char {
    '\u{1f}'
}

pub open spec fn submenu_title_of(w: WindowView) -> Seq<char> {
    if w.name.len() == 0 {
        "小窗"@
    } else {
        w.name
    }
}

pub open spec fn toggle_label_of(visible: bool) -> Seq<char> {
    if visible {
        "隐藏小窗"@
    } else {
        "显示小窗"@
    }
}

pub open spec fn toggle_item_id(id: Seq<char>) -> Seq<char> {
    seq!['t', 'o', 'g', 'g', 'l', 'e', ':'] + id
}

pub open spec fn action_item_id(window_id: Seq<char>, action_id: Seq<char>) -> Seq<char> {
    seq!['a', 'c', 't', 'i', 'o', 'n', ':'] + window_id + seq![unit_separator()] + action_id
}

pub open spec fn action_label_of(a: ActionView) -> Seq<char> {
    if a.hotkey.len() == 0 {
        a.name
    } else {
        a.name + "  ("@ + a.hotkey + ")"@
    }
}

/// The entries of a window's submenu: show/hide first, then one per action.
pub open spec fn items_of(w: WindowView, visible: bool) -> Seq<(Seq<char>, Seq<char>)> {
    seq![(toggle_item_id(w.id), toggle_label_of(visible))] + w.hotkeys.map_values(
        |a: ActionView| (action_item_id(w.id, a.id), action_label_of(a)),
    )
}

pub open spec fn tray_items_view(v: Seq<TrayItem>) -> Seq<(Seq<char>, Seq<char>)> {
    v.map_values(|t: TrayItem| (t.id@, t.label@))
}

/// Whether window `i` counts as shown: entries missing from `visible` count as hidden.
pub open spec fn shown(visible: Seq<bool>, i: int) -> bool {
    i < visible.len() && visible[i]
}

fn action_entry(window_id: &str, a: &HotkeyAction) -> (r: TrayItem)
    ensures
        r.id@ == action_item_id(window_id@, a@.id),
        r.label@ == action_label_of(a@),
{
    let mut id = String::from_str("action:");
    proof {
        reveal_strlit("action:");
    }
    id.append(window_id);
    push_char(&mut id, '\u{1f}');
    id.append(a.id.as_str());
    assert(id@ =~= action_item_id(window_id@, a@.id));
    let label = if a.hotkey.as_str().is_empty() {
        a.name.clone()
    } else {
        let mut l = a.name.clone();
        l.append("  (");
        l.append(a.hotkey.as_str());
        l.append(")");
        l
    };
    TrayItem { id, label }
}

fn window_submenu(w: &FloatWindow, visible: bool) -> (r: TraySubmenu)
    ensures
        r.title@ == submenu_title_of(w@),
        tray_items_view(r.items@) == items_of(w@, visible),
{
    let title = if w.name.as_str().is_empty() {
        String::from_str("小窗")
    } else {
        w.name.clone()
    };
    let mut toggle_id = String::from_str("toggle:");
    proof {
        reveal_strlit("toggle:");
    }
    toggle_id.append(w.id.as_str());
    assert(toggle_id@ =~= toggle_item_id(w@.id));
    let label = if visible {
        String::from_str("隐藏小窗")
    } else {
        String::from_str("显示小窗")
    };
    let mut items: Vec<TrayItem> = Vec::new();
    items.push(TrayItem { id: toggle_id, label });
    let ghost f = |a: ActionView| (action_item_id(w@.id, a.id), action_label_of(a));
    let mut k: usize = 0;
    while k < w.hotkeys.len()
        invariant
            k <= w.hotkeys.len(),
            f == (|a: ActionView| (action_item_id(w@.id, a.id), action_label_of(a))),
            tray_items_view(items@) =~= seq![(toggle_item_id(w@.id), toggle_label_of(visible))]
                + w@.hotkeys.take(k as int).map_values(f),
        decreases w.hotkeys.len() - k,
    {
        let e = action_entry(w.id.as_str(), &w.hotkeys[k]);
        let ghost ev = (e.id@, e.label@);
        let ghost prev = items@;
        items.push(e);
        assert(w@.hotkeys[k as int] == w.hotkeys@[k as int]@);
        assert(f(w@.hotkeys[k as int]) == ev);
        assert(tray_items_view(items@) =~= tray_items_view(prev).push(ev));
        assert(w@.hotkeys.take(k + 1).map_values(f) =~= w@.hotkeys.take(k as int).map_values(f).push(
            f(w@.hotkeys[k as int]),
        ));
        k = k + 1;
    }
    assert(w@.hotkeys.take(w.hotkeys.len() as int) =~= w@.hotkeys);
    TraySubmenu { title, items }
}

/// The tray submenus, one per window in order. `visible[i]` tells whether
/// window `i` is shown, which picks the label of its show/hide entry.
pub fn tray_entries(settings: &Settings, visible: &Vec<bool>) -> (r: Vec<TraySubmenu>)
    ensures
        r.len() == settings@.windows.len(),
        forall|i: int|
            0 <= i < r.len() ==> {
                &&& (#[trigger] r@[i]).title@ == submenu_title_of(settings@.windows[i])
                &&& tray_items_view(r@[i].items@) == items_of(
                    settings@.windows[i],
                    shown(visible@, i),
                )
            },
{
    let mut out: Vec<TraySubmenu> = Vec::new();
    let mut i: usize = 0;
    while i < settings.windows.len()
        invariant
            i <= settings.windows.len(),
            out.len() == i,
            forall|j: int|
                0 <= j < i ==> {
                    &&& (#[trigger] out@[j]).title@ == submenu_title_of(settings@.windows[j])
                    &&& tray_items_view(out@[j].items@) == items_of(
                        settings@.windows[j],
                        shown(visible@, j),
                    )
                },
        decreases settings.windows.len() - i,
    {
        let v = i < visible.len() && visible[i];
        assert(settings@.windows[i as int] == settings.windows@[i as int]@);
        out.push(window_submenu(&settings.windows[i], v));
        i = i + 1;
    }
    out
}

/// The show/hide entry of window `i` is the first of its submenu and reads
/// "hide" exactly when `visible[i]`, that window's own visibility, is true;
/// windows beyond `visible` read "show". The two labels differ.
pub proof fn lemma_toggle_entry_follows_own_visibility(w: WindowView, visible: Seq<bool>, i: int)
    requires
        0 <= i,
    ensures
        items_of(w, shown(visible, i))[0].0 == toggle_item_id(w.id),
        items_of(w, shown(visible, i))[0].1 == (if i < visible.len() && visible[i] {
            "隐藏小窗"@
        } else {
            "显示小窗"@
        }),
        "隐藏小窗"@ != "显示小窗"@,
{
    reveal_strlit("隐藏小窗");
    reveal_strlit("显示小窗");
    assert("隐藏小窗"@[0] != "显示小窗"@[0]);
}

// ------------------------------------------------------------------------
// Menu events
// ------------------------------------------------------------------------

/// What a click on a tray entry asks for.
#[derive(Debug)]
pub enum TrayCommand {
    OpenSettings,
    Quit,
    Toggle(String),
    RunAction(String, String),
    Ignore,
}

pub enum TrayCommandView {
    OpenSettings,
    Quit,
    Toggle(Seq<char>),
    RunAction(Seq<char>, Seq<char>),
    Ignore,
}

impl View for TrayCommand {
    type V = TrayCommandView;

    open spec fn view(&self) -> TrayCommandView {
        match self {
            TrayCommand::OpenSettings => TrayCommandView::OpenSettings,
            TrayCommand::Quit => TrayCommandView::Quit,
            TrayCommand::Toggle(id) => TrayCommandView::Toggle(id@),
            TrayCommand::RunAction(w, a) => TrayCommandView::RunAction(w@, a@),
            TrayCommand::Ignore => TrayCommandView::Ignore,
        }
    }
}

pub open spec fn settings_item_id() -> Seq<char> {
    seq!['s', 'e', 't', 't', 'i', 'n', 'g', 's']
}

pub open spec fn quit_item_id() -> Seq<char> {
    seq!['q', 'u', 'i', 't']
}

pub open spec fn toggle_prefix() -> Seq<char> {
    seq!['t', 'o', 'g', 'g', 'l', 'e', ':']
}

pub open spec fn action_prefix() -> Seq<char> {
    seq!['a', 'c', 't', 'i', 'o', 'n', ':']
}

/// `j` is the first position of the separator in `s`.
pub open spec fn first_separator(s: Seq<char>, j: int) -> bool {
    0 <= j < s.len() && s[j] == unit_separator() && forall|k: int| 0 <= k < j ==> s[k] != unit_separator()
}

/// The command an entry id stands for.
pub open spec fn tray_command_of(id: Seq<char>) -> TrayCommandView {
    if id == settings_item_id() {
        TrayCommandView::OpenSettings
    } else if id == quit_item_id() {
        TrayCommandView::Quit
    } else if starts_with(id, toggle_prefix()) {
        TrayCommandView::Toggle(id.subrange(7, id.len() as int))
    } else if starts_with(id, action_prefix()) {
        let rest = id.subrange(7, id.len() as int);
        if exists|j: int| first_separator(rest, j) {
            let j = choose|j: int| first_separator(rest, j);
            TrayCommandView::RunAction(rest.subrange(0, j), rest.subrange(j + 1, rest.len() as int))
        } else {
            TrayCommandView::Ignore
        }
    } else {
        TrayCommandView::Ignore
    }
}

fn literal_chars(s: &str) -> (v: Vec<char>)
    ensures
        v@ == s@,
{
    chars_of(s)
}

fn vec_eq(a: &Vec<char>, b: &Vec<char>) -> (r: bool)
    ensures
        r == (a@ == b@),
{
    if a.len() != b.len() {
        return false;
    }
    let mut i: usize = 0;
    while i < a.len()
        invariant
            a.len() == b.len(),
            i <= a.len(),
            forall|k: int| 0 <= k < i ==> a@[k] == b@[k],
        decreases a.len() - i,
    {
        if a[i] != b[i] {
            return false;
        }
        i = i + 1;
    }
    assert(a@ =~= b@);
    true
}

proof fn lemma_first_separator_unique(s: Seq<char>, a: int, b: int)
    requires
        first_separator(s, a),
        first_separator(s, b),
    ensures
        a == b,
{
    if a < b {
        assert(s[a] != unit_separator());
    }
    if b < a {
        assert(s[b] != unit_separator());
    }
}

/// Reads the command out of a clicked entry id.
pub fn parse_tray_event(id: &str) -> (r: TrayCommand)
    ensures
        r@ == tray_command_of(id@),
{
    let v = chars_of(id);
    let settings = literal_chars("settings");
    let quit = literal_chars("quit");
    let toggle = literal_chars("toggle:");
    let action = literal_chars("action:");
    proof {
        reveal_strlit("settings");
        reveal_strlit("quit");
        reveal_strlit("toggle:");
        reveal_strlit("action:");
        assert(settings@ =~= settings_item_id());
        assert(quit@ =~= quit_item_id());
        assert(toggle@ =~= toggle_prefix());
        assert(action@ =~= action_prefix());
    }
    if vec_eq(&v, &settings) {
        TrayCommand::OpenSettings
    } else if vec_eq(&v, &quit) {
        TrayCommand::Quit
    } else if vec_starts_with(&v, &toggle) {
        TrayCommand::Toggle(string_of_range(&v, 7, v.len()))
    } else if vec_starts_with(&v, &action) {
        let ghost rest = v@.subrange(7, v.len() as int);
        let mut j: usize = 7;
        while j < v.len()
            invariant
                7 <= j <= v.len(),
                v@ == id@,
                id@ != settings_item_id(),
                id@ != quit_item_id(),
                !starts_with(id@, toggle_prefix()),
                starts_with(id@, action_prefix()),
                rest == v@.subrange(7, v.len() as int),
                forall|k: int| 0 <= k < j - 7 ==> rest[k] != unit_separator(),
            decreases v.len() - j,
        {
            if v[j] == '\u{1f}' {
                proof {
                    assert(first_separator(rest, j - 7));
                    let c = choose|c: int| first_separator(rest, c);
                    lemma_first_separator_unique(rest, c, j - 7);
                    assert(rest.subrange(0, j - 7) =~= v@.subrange(7, j as int));
                    assert(rest.subrange(j - 7 + 1, rest.len() as int) =~= v@.subrange(j + 1, v.len() as int));
                }
                let left = string_of_range(&v, 7, j);
                let right = string_of_range(&v, j + 1, v.len());
                let r = TrayCommand::RunAction(left, right);
                proof {
                    assert(v@ == id@);
                    assert(id@ != settings_item_id());
                    assert(id@ != quit_item_id());
                    assert(!starts_with(id@, toggle_prefix()));
                    assert(starts_with(id@, action_prefix()));
                    assert(exists|c: int| first_separator(rest, c));
                    assert(r@ == TrayCommandView::RunAction(rest.subrange(0, j - 7), rest.subrange(j - 7 + 1, rest.len() as int)));
                }
                return r;
            }
            j = j + 1;
        }
        TrayCommand::Ignore
    } else {
        TrayCommand::Ignore
    }
}

pub open spec fn settings_label() -> Seq<char> {
    "设置..."@
}

pub open spec fn quit_label() -> Seq<char> {
    "退出 GameFloat"@
}

/// The entries that follow the window submenus: open the settings, then quit.
pub fn fixed_tray_items() -> (r: Vec<TrayItem>)
    ensures
        tray_items_view(r@) == seq![(settings_item_id(), settings_label()), (quit_item_id(), quit_label())],
        tray_command_of(r@[0].id@) == TrayCommandView::OpenSettings,
        tray_command_of(r@[1].id@) == TrayCommandView::Quit,
{
    proof {
        reveal_strlit("settings");
        reveal_strlit("quit");
    }
    let settings = TrayItem { id: String::from_str("settings"), label: String::from_str("设置...") };
    let quit = TrayItem { id: String::from_str("quit"), label: String::from_str("退出 GameFloat") };
    assert(settings.id@ =~= settings_item_id());
    assert(quit.id@ =~= quit_item_id());
    let mut r: Vec<TrayItem> = Vec::new();
    r.push(settings);
    r.push(quit);
    assert(tray_items_view(r@) =~= seq![(settings_item_id(), settings_label()), (quit_item_id(), quit_label())]);
    r
}

/// Clicking a window's show/hide entry toggles that window.
pub proof fn lemma_toggle_entry_round_trip(id: Seq<char>)
    ensures
        tray_command_of(toggle_item_id(id)) == TrayCommandView::Toggle(id),
{
    let s = toggle_item_id(id);
    assert(s[0] == 't');
    assert(s != settings_item_id());
    assert(s != quit_item_id());
    assert(s.subrange(0, 7) =~= toggle_prefix());
    assert(s.subrange(7, s.len() as int) =~= id);
}

/// Clicking an action entry runs that action, as long as the window id
/// holds no unit separator (U+001F).
pub proof fn lemma_action_entry_round_trip(window_id: Seq<char>, action_id: Seq<char>)
    requires
        forall|k: int| 0 <= k < window_id.len() ==> window_id[k] != unit_separator(),
    ensures
        tray_command_of(action_item_id(window_id, action_id)) == TrayCommandView::RunAction(
            window_id,
            action_id,
        ),
{
    let s = action_item_id(window_id, action_id);
    assert(s[0] == 'a');
    assert(s != settings_item_id());
    assert(s != quit_item_id());
    assert(s.subrange(0, 7) =~= action_prefix());
    assert(!starts_with(s, toggle_prefix())) by {
        assert(s.subrange(0, 7)[0] != toggle_prefix()[0]);
    }
    let rest = s.subrange(7, s.len() as int);
    let j = window_id.len() as int;
    assert(rest =~= window_id + seq![unit_separator()] + action_id);
    assert(first_separator(rest, j));
    let c = choose|c: int| first_separator(rest, c);
    lemma_first_separator_unique(rest, c, j);
    assert(rest.subrange(0, j) =~= window_id);
    assert(rest.subrange(j + 1, rest.len() as int) =~= action_id);
}

} // verus!
