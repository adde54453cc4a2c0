//! Decisions behind the overlay windows: which drop-down menus are open,
//! whether a close request really closes, what a window is titled and where
//! it starts, which scripts its content page is sent.
use vstd::prelude::*;
use vstd::string::StringExecFns;
use vstd::hash_set::StringHashSet;
use crate::text::{concat, str_eq, trim, trim_text, all_white, lemma_trim_empty, push_char};
use crate::ids::hex_table;
use crate::labels::{id_from_label, id_of_label};
use crate::model::{
    Bounds, FloatWindow, JsResult, Settings, SettingsView, WindowView, lookup_window,
    lookup_action,
};

verus! {

/// Width of the pill button at the top of an overlay, in logical pixels.
pub const UI_PILL_WIDTH: u32 = 64;

/// Height of the pill button, in logical pixels.
pub const UI_PILL_HEIGHT: u32 = 26;

/// Gap between the top of the window and the pill button, in logical pixels.
pub const UI_PILL_TOP: u32 = 8;

// ------------------------------------------------------------------------
// Run-time state: quitting flag and open drop-down menus
// ------------------------------------------------------------------------

/// What the overlays remember while the program runs: whether it is
/// quitting, and the ids of the windows whose drop-down menu is open.
pub struct OverlayRuntime {
    quitting: bool,
    menus: StringHashSet,
}

pub struct RuntimeView {
    pub quitting: bool,
    pub open_menus: Set<Seq<char>>,
}

impl View for OverlayRuntime {
    type V = RuntimeView;

    closed spec fn view(&self) -> RuntimeView {
        RuntimeView { quitting: self.quitting, open_menus: self.menus@ }
    }
}

impl OverlayRuntime {
    pub fn new() -> (r: OverlayRuntime)
        ensures
            !r@.quitting,
            r@.open_menus == Set::<Seq<char>>::empty(),
    {
        OverlayRuntime { quitting: false, menus: StringHashSet::new() }
    }
}

/// Marks the program as quitting: from now on closing a window closes it.
pub fn set_quitting(rt: &mut OverlayRuntime)
    ensures
        final(rt)@ == runtime_step(old(rt)@, RuntimeEvent::Quit),
        final(rt)@.quitting,
        final(rt)@.open_menus == old(rt)@.open_menus,
{
    rt.quitting = true;
}

/// Whether the program is quitting.
pub fn is_quitting(rt: &OverlayRuntime) -> (r: bool)
    ensures
        r == rt@.quitting,
{
    rt.quitting
}

/// Whether the drop-down menu of window `id` is open.
pub fn is_menu_open(rt: &OverlayRuntime, id: &str) -> (r: bool)
    ensures
        r == rt@.open_menus.contains(id@),
{
    rt.menus.contains(id)
}

/// Records the drop-down menu of window `id` as open or closed.
pub fn mark_menu_open(rt: &mut OverlayRuntime, id: &str, open: bool)
    ensures
        final(rt)@ == runtime_step(old(rt)@, RuntimeEvent::MarkMenu(id@, open)),
        final(rt)@.quitting == old(rt)@.quitting,
        final(rt)@.open_menus == if open {
            old(rt)@.open_menus.insert(id@)
        } else {
            old(rt)@.open_menus.remove(id@)
        },
{
    if open {
        rt.menus.insert(String::from_str(id));
    } else {
        rt.menus.remove(id);
    }
}

/// Flips the drop-down menu of window `id` and returns whether it is now open.
pub fn toggle_menu(rt: &mut OverlayRuntime, id: &str) -> (open: bool)
    ensures
        open == !old(rt)@.open_menus.contains(id@),
        final(rt)@ == runtime_step(old(rt)@, RuntimeEvent::ToggleMenu(id@)),
        final(rt)@.quitting == old(rt)@.quitting,
        final(rt)@.open_menus == if open {
            old(rt)@.open_menus.insert(id@)
        } else {
            old(rt)@.open_menus.remove(id@)
        },
{
    let open = !is_menu_open(rt, id);
    mark_menu_open(rt, id, open);
    open
}

/// Closes the drop-down menu of window `id`; returns whether it was open
/// (so that there is anything to take down).
pub fn close_menu(rt: &mut OverlayRuntime, id: &str) -> (was_open: bool)
    ensures
        was_open == old(rt)@.open_menus.contains(id@),
        final(rt)@ == runtime_step(old(rt)@, RuntimeEvent::CloseMenu(id@)),
        final(rt)@.quitting == old(rt)@.quitting,
        final(rt)@.open_menus == old(rt)@.open_menus.remove(id@),
{
    if is_menu_open(rt, id) {
        mark_menu_open(rt, id, false);
        true
    } else {
        proof {
            assert(rt@.open_menus.remove(id@) =~= rt@.open_menus);
        }
        false
    }
}

/// Whether a request to close an overlay window is turned into hiding it:
/// always, unless the program is quitting.
pub fn close_request_hides(rt: &OverlayRuntime) -> (hide: bool)
    ensures
        hide == close_hides(rt@),
{
    !rt.quitting
}

/// A close request is turned into hiding the window unless the program is
/// quitting.
pub open spec fn close_hides(r: RuntimeView) -> bool {
    !r.quitting
}

/// A close request is turned into hiding exactly when the program is not
/// quitting, whatever drop-down menus are open: two states with the same
/// quitting flag answer alike.
pub proof fn lemma_close_hides_unless_quitting(r: RuntimeView, other: RuntimeView)
    ensures
        !r.quitting ==> close_hides(r),
        r.quitting ==> !close_hides(r),
        r.quitting == other.quitting ==> close_hides(r) == close_hides(other),
{
}

/// A call that changes the run-time state: `set_quitting`, `mark_menu_open`
/// (which hiding and destroying a window make with `false`), `toggle_menu`
/// and `close_menu`.
pub enum RuntimeEvent {
    Quit,
    MarkMenu(Seq<char>, bool),
    ToggleMenu(Seq<char>),
    CloseMenu(Seq<char>),
}

/// The state after one call.
pub open spec fn runtime_step(r: RuntimeView, e: RuntimeEvent) -> RuntimeView {
    match e {
        RuntimeEvent::Quit => RuntimeView { quitting: true, open_menus: r.open_menus },
        RuntimeEvent::MarkMenu(id, open) => RuntimeView {
            quitting: r.quitting,
            open_menus: if open { r.open_menus.insert(id) } else { r.open_menus.remove(id) },
        },
        RuntimeEvent::ToggleMenu(id) => RuntimeView {
            quitting: r.quitting,
            open_menus: if r.open_menus.contains(id) {
                r.open_menus.remove(id)
            } else {
                r.open_menus.insert(id)
            },
        },
        RuntimeEvent::CloseMenu(id) => RuntimeView { quitting: r.quitting, open_menus: r.open_menus.remove(id) },
    }
}

/// The state after the calls `es`, one after the other.
pub open spec fn runtime_after(r: RuntimeView, es: Seq<RuntimeEvent>) -> RuntimeView
    decreases es.len(),
{
    if es.len() == 0 {
        r
    } else {
        runtime_step(runtime_after(r, es.drop_last()), es.last())
    }
}

/// The call may open the drop-down menu of window `id`.
pub open spec fn may_open_menu(e: RuntimeEvent, id: Seq<char>) -> bool {
    e == RuntimeEvent::MarkMenu(id, true) || e == RuntimeEvent::ToggleMenu(id)
}

/// The call names the drop-down menu of window `id`.
pub open spec fn names_menu(e: RuntimeEvent, id: Seq<char>) -> bool {
    match e {
        RuntimeEvent::Quit => false,
        RuntimeEvent::MarkMenu(x, _) => x == id,
        RuntimeEvent::ToggleMenu(x) => x == id,
        RuntimeEvent::CloseMenu(x) => x == id,
    }
}

/// Once the program is quitting it stays quitting, whatever calls follow.
pub proof fn lemma_quitting_stays(r: RuntimeView, es: Seq<RuntimeEvent>)
    requires
        r.quitting,
    ensures
        runtime_after(r, es).quitting,
    decreases es.len(),
{
    if es.len() > 0 {
        lemma_quitting_stays(r, es.drop_last());
    }
}

/// After `set_quitting`, no later close request is turned into hiding: the
/// window closes.
pub proof fn lemma_close_after_quitting_closes(r: RuntimeView, es: Seq<RuntimeEvent>)
    ensures
        !close_hides(runtime_after(runtime_step(r, RuntimeEvent::Quit), es)),
{
    lemma_quitting_stays(runtime_step(r, RuntimeEvent::Quit), es);
}

/// A closed drop-down menu stays closed through any calls none of which may
/// open it (marking it open or toggling it).
pub proof fn lemma_closed_menu_stays_closed(r: RuntimeView, es: Seq<RuntimeEvent>, id: Seq<char>)
    requires
        !r.open_menus.contains(id),
        forall|i: int| 0 <= i < es.len() ==> !may_open_menu(#[trigger] es[i], id),
    ensures
        !runtime_after(r, es).open_menus.contains(id),
    decreases es.len(),
{
    if es.len() > 0 {
        assert forall|i: int| 0 <= i < es.drop_last().len() implies !may_open_menu(
            #[trigger] es.drop_last()[i],
            id,
        ) by {
            assert(es.drop_last()[i] == es[i]);
        }
        lemma_closed_menu_stays_closed(r, es.drop_last(), id);
        assert(!may_open_menu(es[es.len() - 1], id));
    }
}

/// Calls that do not name the drop-down menu of window `id` leave it as it
/// was, open or closed.
pub proof fn lemma_other_calls_keep_menu(r: RuntimeView, es: Seq<RuntimeEvent>, id: Seq<char>)
    requires
        forall|i: int| 0 <= i < es.len() ==> !names_menu(#[trigger] es[i], id),
    ensures
        runtime_after(r, es).open_menus.contains(id) == r.open_menus.contains(id),
    decreases es.len(),
{
    if es.len() > 0 {
        assert forall|i: int| 0 <= i < es.drop_last().len() implies !names_menu(
            #[trigger] es.drop_last()[i],
            id,
        ) by {
            assert(es.drop_last()[i] == es[i]);
        }
        lemma_other_calls_keep_menu(r, es.drop_last(), id);
        assert(!names_menu(es[es.len() - 1], id));
    }
}

/// Toggling a drop-down menu twice leaves the open menus as they were, and
/// the two toggles report opposite states.
pub proof fn lemma_toggle_twice_restores(s: Set<Seq<char>>, id: Seq<char>)
    ensures
        ({
            let open1 = !s.contains(id);
            let s1 = if open1 { s.insert(id) } else { s.remove(id) };
            let open2 = !s1.contains(id);
            let s2 = if open2 { s1.insert(id) } else { s1.remove(id) };
            open2 == !open1 && s2 == s
        }),
{
    let open1 = !s.contains(id);
    let s1 = if open1 { s.insert(id) } else { s.remove(id) };
    let open2 = !s1.contains(id);
    let s2 = if open2 { s1.insert(id) } else { s1.remove(id) };
    assert(s2 =~= s);
}

/// Marking a menu open or closed is what reading it back gives, and no other
/// window's menu changes.
pub proof fn lemma_marked_menu_reads_back(s: Set<Seq<char>>, id: Seq<char>, open: bool, other: Seq<char>)
    requires
        other != id,
    ensures
        (if open { s.insert(id) } else { s.remove(id) }).contains(id) == open,
        (if open { s.insert(id) } else { s.remove(id) }).contains(other) == s.contains(other),
{
}

// ------------------------------------------------------------------------
// Window set-up
// ------------------------------------------------------------------------

pub open spec fn default_title() -> Seq<char> {
    "GameFloat"@
}

/// The title of an overlay window: its name, or the program name when the
/// name is empty.
pub fn window_title(name: &str) -> (r: String)
    ensures
        r@ == if name@.len() == 0 {
            default_title()
        } else {
            name@
        },
{
    if name.is_empty() {
        String::from_str("GameFloat")
    } else {
        String::from_str(name)
    }
}

/// The bounds a window is created with: its own, or the default ones.
pub fn effective_bounds(item: &FloatWindow, default: Bounds) -> (r: Bounds)
    ensures
        r == match item.bounds {
            Some(b) => b,
            None => default,
        },
{
    match item.bounds {
        Some(b) => b,
        None => default,
    }
}

/// Where a window is placed on creation: only when both coordinates are known.
pub fn initial_position(b: Bounds) -> (r: Option<(i32, i32)>)
    ensures
        r == match (b.x, b.y) {
            (Some(x), Some(y)) => Some((x, y)),
            _ => None::<(i32, i32)>,
        },
{
    match (b.x, b.y) {
        (Some(x), Some(y)) => Some((x, y)),
        _ => None,
    }
}

// ------------------------------------------------------------------------
// Scripts for the content page
// ------------------------------------------------------------------------

pub open spec fn pill_script_of(w: u32, h: u32, t: u32) -> Seq<char> {
    "window.__GF_PILL__={width:"@ + dec(w as nat) + ",height:"@ + dec(h as nat) + ",top:"@ + dec(
        t as nat,
    ) + "};"@
}

pub open spec fn dec_table() -> Seq<char> {
    seq!['0', '1', '2', '3', '4', '5', '6', '7', '8', '9']
}

/// The decimal digits of `n`, most significant first.
pub open spec fn dec(n: nat) -> Seq<char>
    decreases n,
{
    if n < 10 {
        seq![dec_table()[n as int]]
    } else {
        dec(n / 10).push(dec_table()[(n % 10) as int])
    }
}

/// Appends the decimal digits of `n`.
pub fn push_dec(s: &mut String, n: u32)
    ensures
        final(s)@ == old(s)@ + dec(n as nat),
    decreases n,
{
    if n >= 10 {
        push_dec(s, n / 10);
    }
    let table: [char; 10] = ['0', '1', '2', '3', '4', '5', '6', '7', '8', '9'];
    assert(table@ =~= dec_table());
    push_char(s, table[(n % 10) as usize]);
    assert(final(s)@ =~= old(s)@ + dec(n as nat));
}

/// The script that hands the pill geometry to the menu page, so that its
/// opening animation starts from the button.
pub fn pill_metrics_script() -> (r: String)
    ensures
        r@ == pill_script_of(UI_PILL_WIDTH, UI_PILL_HEIGHT, UI_PILL_TOP),
{
    let mut s = String::from_str("window.__GF_PILL__={width:");
    push_dec(&mut s, UI_PILL_WIDTH);
    s.append(",height:");
    push_dec(&mut s, UI_PILL_HEIGHT);
    s.append(",top:");
    push_dec(&mut s, UI_PILL_TOP);
    s.append("};");
    assert(s@ =~= pill_script_of(UI_PILL_WIDTH, UI_PILL_HEIGHT, UI_PILL_TOP));
    s
}

pub open spec fn script_head() -> Seq<char> {
    "(async () => {\n  try {\n"@
}

pub open spec fn script_tail() -> Seq<char> {
    "\n  } catch (__error) {\n    console.error('[GameFloat] JS 执行失败:', __error);\n  }\n})()"@
}

/// User code wrapped in an async function whose errors are logged rather
/// than thrown.
pub fn wrap_script(code: &str) -> (r: String)
    ensures
        r@ == script_head() + code@ + script_tail(),
{
    let mut s = String::from_str("(async () => {\n  try {\n");
    s.append(code);
    s.append(
        "\n  } catch (__error) {\n    console.error('[GameFloat] JS 执行失败:', __error);\n  }\n})()",
    );
    s
}

/// The script to run for some user code: none for blank code, else the
/// wrapped code.
pub fn plan_script(code: &str) -> (r: Option<String>)
    ensures
        match r {
            Some(s) => !all_white(code@) && s@ == script_head() + code@ + script_tail(),
            None => all_white(code@),
        },
{
    let t = trim_text(code);
    proof {
        lemma_trim_empty(code@);
    }
    if t.is_empty() {
        None
    } else {
        Some(wrap_script(code))
    }
}

pub open spec fn missing_action_message() -> Seq<char> {
    "快捷键动作不存在"@
}

/// A successful script request.
pub fn js_ok() -> (r: JsResult)
    ensures
        r.ok,
        r.error is None,
{
    JsResult { ok: true, error: None }
}

/// What running action `action_id` of window `window_id` comes to: an
/// error answer when there is no such action; otherwise the script to run,
/// none when the action's code is blank.
pub fn plan_action(settings: &Settings, window_id: &str, action_id: &str) -> (r: Result<
    Option<String>,
    JsResult,
>)
    ensures
        match r {
            Err(e) => {
                &&& (lookup_window(settings@, window_id@) is None || lookup_action(
                    lookup_window(settings@, window_id@)->0,
                    action_id@,
                ) is None)
                &&& !e.ok
                &&& e.error matches Some(m) && m@ == missing_action_message()
            },
            Ok(script) => {
                &&& lookup_window(settings@, window_id@) is Some
                &&& lookup_action(lookup_window(settings@, window_id@)->0, action_id@) is Some
                &&& ({
                    let code = lookup_action(lookup_window(settings@, window_id@)->0, action_id@)->0.code;
                    match script {
                        Some(s) => !all_white(code) && s@ == script_head() + code + script_tail(),
                        None => all_white(code),
                    }
                })
            },
        },
{
    match settings.find_action(window_id, action_id) {
        None => Err(JsResult { ok: false, error: Some(String::from_str("快捷键动作不存在")) }),
        Some(action) => Ok(plan_script(action.code.as_str())),
    }
}

// ------------------------------------------------------------------------
// Navigation
// ------------------------------------------------------------------------

#[verifier::external_type_specification]
#[verifier::external_body]
pub struct ExJsonError(serde_json::Error);

#[verifier::external_type_specification]
#[verifier::external_body]
pub struct ExUrl(url::Url);

#[verifier::external_type_specification]
#[verifier::external_body]
pub struct ExUrlParseError(url::ParseError);

/// How JSON writes one character inside a string literal.
pub open spec fn json_escape_char(c: char) -> Seq<char> {
    let u = c as u32;
    if c == '"' {
        seq!['\\', '"']
    } else if c == '\\' {
        seq!['\\', '\\']
    } else if u == 0x08 {
        seq!['\\', 'b']
    } else if u == 0x09 {
        seq!['\\', 't']
    } else if u == 0x0a {
        seq!['\\', 'n']
    } else if u == 0x0c {
        seq!['\\', 'f']
    } else if u == 0x0d {
        seq!['\\', 'r']
    } else if u < 0x20 {
        seq!['\\', 'u', '0', '0', hex_table()[(u / 16) as int], hex_table()[(u % 16) as int]]
    } else {
        seq![c]
    }
}

pub open spec fn json_escape(s: Seq<char>) -> Seq<char>
    decreases s.len(),
{
    if s.len() == 0 {
        Seq::empty()
    } else {
        json_escape(s.drop_last()) + json_escape_char(s.last())
    }
}

/// `s` as a JSON string literal.
pub open spec fn json_quoted(s: Seq<char>) -> Seq<char> {
    seq!['"'] + json_escape(s) + seq!['"']
}

/// `serde_json::to_string` on a `&str`: the JSON string literal of the text.
/// Quote and backslash are escaped, so are the control characters below
/// U+0020 (`\b \t \n \f \r` by name, the rest as `\u00xx`); everything
/// else is written as it is. Serialising a string into memory does not fail.
#[verifier::external_body]
fn json_encode_str(value: &str) -> (r: Result<String, serde_json::Error>)
    ensures
        r is Ok,
        r->Ok_0@ == json_quoted(value@),
{
    serde_json::to_string(value)
}

/// `value` as a JSON string literal, ready to paste into a script.
pub fn json_string(value: &str) -> (r: String)
    ensures
        r@ == json_quoted(value@),
{
    match json_encode_str(value) {
        Ok(s) => s,
        Err(_) => String::from_str("\"\""),
    }
}

/// Whether the `url` crate accepts `s` as an absolute URL (with a scheme).
pub uninterp spec fn url_accepts(s: Seq<char>) -> bool;

/// `url::Url::parse`: succeeds exactly on the texts the `url` crate accepts
/// as absolute URLs; which texts those are is left to the crate.
#[verifier::external_body]
fn parse_url(s: &str) -> (r: Result<url::Url, url::ParseError>)
    ensures
        r is Ok == url_accepts(s@),
{
    url::Url::parse(s)
}

/// Whether `s` is a full URL.
pub fn is_full_url(s: &str) -> (r: bool)
    ensures
        r == url_accepts(s@),
{
    match parse_url(s) {
        Ok(_) => true,
        Err(_) => false,
    }
}

pub open spec fn navigate_prefix() -> Seq<char> {
    "location.href = "@
}

/// The script that sends a content page to `url`: none unless the trimmed
/// text is a full URL (a bare domain would be taken as a relative path).
pub fn navigate_script(url: &str) -> (r: Option<String>)
    ensures
        match r {
            Some(s) => url_accepts(trim(url@)) && s@ == navigate_prefix() + json_quoted(trim(url@)),
            None => !url_accepts(trim(url@)),
        },
{
    let target = trim_text(url);
    if !is_full_url(target) {
        return None;
    }
    let quoted = json_string(target);
    Some(concat("location.href = ", quoted.as_str()))
}

/// The address a new content page opens: the trimmed URL when it is a full
/// URL; none otherwise (the page then starts blank).
pub fn content_target(url: &str) -> (r: Option<String>)
    ensures
        match r {
            Some(s) => url_accepts(trim(url@)) && s@ == trim(url@),
            None => !url_accepts(trim(url@)),
        },
{
    let target = trim_text(url);
    if is_full_url(target) {
        Some(String::from_str(target))
    } else {
        None
    }
}

// ------------------------------------------------------------------------
// Keeping windows in step with the settings
// ------------------------------------------------------------------------

/// The windows whose label names an id that the settings no longer hold.
pub open spec fn is_stale(label: Seq<char>, current: SettingsView) -> bool {
    id_of_label(label) is Some && lookup_window(current, id_of_label(label)->0) is None
}

/// The ids of the open windows (given by their labels) that the settings no
/// longer hold, in label order, one per such label.
pub fn stale_window_ids(labels: &Vec<String>, current: &Settings) -> (r: Vec<String>)
    ensures
        r@.map_values(|s: String| s@) == labels@.filter(|l: String| is_stale(l@, current@)).map_values(
            |l: String| id_of_label(l@)->0,
        ),
{
    let ghost pick = |l: String| is_stale(l@, current@);
    let ghost name = |l: String| id_of_label(l@)->0;
    let mut out: Vec<String> = Vec::new();
    let mut i: usize = 0;
    while i < labels.len()
        invariant
            i <= labels.len(),
            pick == (|l: String| is_stale(l@, current@)),
            name == (|l: String| id_of_label(l@)->0),
            out@.map_values(|s: String| s@) == labels@.subrange(0, i as int).filter(pick).map_values(name),
        decreases labels.len() - i,
    {
        let ghost prev = out@;
        let found = id_from_label(labels[i].as_str());
        match found {
            Some(id) => {
                if current.find_window(id.as_str()).is_none() {
                    out.push(id);
                }
            },
            None => {},
        }
        proof {
            let sub = labels@.subrange(0, i + 1);
            assert(sub.drop_last() =~= labels@.subrange(0, i as int));
            assert(sub.last() == labels@[i as int]);
            let fprev = labels@.subrange(0, i as int).filter(pick);
            reveal_with_fuel(Seq::filter, 1);
            assert(sub.filter(pick) == if pick(sub.last()) {
                fprev.push(sub.last())
            } else {
                fprev
            });
            if pick(sub.last()) {
                assert(out@ == prev.push(out@.last()));
                assert(out@.last()@ == name(sub.last()));
                assert(fprev.push(sub.last()).map_values(name) =~= fprev.map_values(name).push(
                    name(sub.last()),
                ));
                assert(out@.map_values(|s: String| s@) =~= prev.map_values(|s: String| s@).push(
                    out@.last()@,
                ));
            } else {
                assert(out@ == prev);
            }
            assert(out@.map_values(|s: String| s@) =~= sub.filter(pick).map_values(name));
        }
        i = i + 1;
    }
    assert(labels@.subrange(0, labels.len() as int) =~= labels@);
    out
}

/// The address a window still open must move to after the settings change:
/// its new (trimmed) URL, when that differs from the one it had before and
/// is not empty.
pub open spec fn navigation_target_of(previous: SettingsView, item: WindowView) -> Option<Seq<char>> {
    let old_url = match lookup_window(previous, item.id) {
        Some(w) => trim(w.url),
        None => Seq::<char>::empty(),
    };
    let new_url = trim(item.url);
    if old_url != new_url && new_url.len() > 0 {
        Some(new_url)
    } else {
        None
    }
}

/// An open window is sent to its saved URL (trimmed) exactly when that URL
/// is not blank and differs from the one the window had before, trimmed;
/// a window that was blank before is sent to any non-blank new URL, and a
/// window not found before counts as blank.
pub proof fn lemma_navigation_follows_url_change(previous: SettingsView, item: WindowView)
    ensures
        ({
            let before = match lookup_window(previous, item.id) {
                Some(w) => trim(w.url),
                None => Seq::<char>::empty(),
            };
            let after = trim(item.url);
            &&& (after.len() > 0 && after != before) ==> navigation_target_of(previous, item) == Some(after)
            &&& (after.len() == 0 || after == before) ==> navigation_target_of(previous, item) is None
            &&& before.len() == 0 && after.len() > 0 ==> navigation_target_of(previous, item) == Some(after)
        }),
{
}

pub fn navigation_target(previous: &Settings, item: &FloatWindow) -> (r: Option<String>)
    ensures
        match r {
            Some(u) => navigation_target_of(previous@, item@) == Some(u@),
            None => navigation_target_of(previous@, item@) is None,
        },
{
    let new_url = trim_text(item.url.as_str());
    let changed = match previous.find_window(item.id.as_str()) {
        Some(w) => !str_eq(trim_text(w.url.as_str()), new_url),
        None => !new_url.is_empty(),
    };
    if changed && !new_url.is_empty() {
        Some(String::from_str(new_url))
    } else {
        None
    }
}

} // verus!
