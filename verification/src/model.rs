//! The settings model: overlay windows, their hotkey actions and bounds.
use vstd::prelude::*;
use crate::text::{concat, str_eq, starts_with};
use vstd::hash_set::StringHashSet;
use crate::ids::{IdSeq, hex, is_token, lemma_hex_endings_differ, lemma_hex_is_token, seq_after};

verus! {

/// Position and size of an overlay window, in logical pixels. A missing
/// position lets the system place the window.
#[derive(Clone, Copy, Debug)]
pub struct Bounds {
    pub x: Option<i32>,
    pub y: Option<i32>,
    pub width: u32,
    pub height: u32,
}

impl Default for Bounds {
    fn default() -> (b: Self)
        ensures
            b == (Bounds { x: None, y: None, width: 480, height: 720 }),
    {
        Bounds { x: None, y: None, width: 480, height: 720 }
    }
}

/// A script bound to a hotkey of one overlay window.
#[derive(Debug)]
pub struct HotkeyAction {
    pub id: String,
    pub name: String,
    pub hotkey: String,
    pub code: String,
}

pub struct ActionView {
    pub id: Seq<char>,
    pub name: Seq<char>,
    pub hotkey: Seq<char>,
    pub code: Seq<char>,
}

impl View for HotkeyAction {
    type V = ActionView;

    open spec fn view(&self) -> ActionView {
        ActionView { id: self.id@, name: self.name@, hotkey: self.hotkey@, code: self.code@ }
    }
}

impl Clone for HotkeyAction {
    fn clone(&self) -> (r: Self)
        ensures
            r@ == self@,
    {
        HotkeyAction {
            id: self.id.clone(),
            name: self.name.clone(),
            hotkey: self.hotkey.clone(),
            code: self.code.clone(),
        }
    }
}

/// An overlay window: a frameless, always-on-top window showing `url`.
#[derive(Debug)]
pub struct FloatWindow {
    pub id: String,
    pub name: String,
    pub url: String,
    pub toggle_hotkey: String,
    pub bounds: Option<Bounds>,
    pub hotkeys: Vec<HotkeyAction>,
}

pub struct WindowView {
    pub id: Seq<char>,
    pub name: Seq<char>,
    pub url: Seq<char>,
    pub toggle_hotkey: Seq<char>,
    pub bounds: Option<Bounds>,
    pub hotkeys: Seq<ActionView>,
}

pub open spec fn actions_view(v: Seq<HotkeyAction>) -> Seq<ActionView> {
    v.map_values(|a: HotkeyAction| a@)
}

impl View for FloatWindow {
    type V = WindowView;

    open spec fn view(&self) -> WindowView {
        WindowView {
            id: self.id@,
            name: self.name@,
            url: self.url@,
            toggle_hotkey: self.toggle_hotkey@,
            bounds: self.bounds,
            hotkeys: actions_view(self.hotkeys@),
        }
    }
}

/// A copy of the actions, element by element.
pub fn clone_actions(v: &Vec<HotkeyAction>) -> (r: Vec<HotkeyAction>)
    ensures
        actions_view(r@) == actions_view(v@),
{
    let mut r: Vec<HotkeyAction> = Vec::new();
    let mut i: usize = 0;
    while i < v.len()
        invariant
            i <= v.len(),
            r.len() == i,
            forall|k: int| 0 <= k < i ==> (#[trigger] r@[k])@ == v@[k]@,
        decreases v.len() - i,
    {
        let c = v[i].clone();
        r.push(c);
        i = i + 1;
    }
    assert(actions_view(r@) =~= actions_view(v@));
    r
}

impl Clone for FloatWindow {
    fn clone(&self) -> (r: Self)
        ensures
            r@ == self@,
    {
        FloatWindow {
            id: self.id.clone(),
            name: self.name.clone(),
            url: self.url.clone(),
            toggle_hotkey: self.toggle_hotkey.clone(),
            bounds: self.bounds,
            hotkeys: clone_actions(&self.hotkeys),
        }
    }
}

/// All overlay windows and the bounds that new windows start with.
#[derive(Debug)]
pub struct Settings {
    pub windows: Vec<FloatWindow>,
    pub default_bounds: Bounds,
}

pub struct SettingsView {
    pub windows: Seq<WindowView>,
    pub default_bounds: Bounds,
}

pub open spec fn windows_view(v: Seq<FloatWindow>) -> Seq<WindowView> {
    v.map_values(|w: FloatWindow| w@)
}

impl View for Settings {
    type V = SettingsView;

    open spec fn view(&self) -> SettingsView {
        SettingsView { windows: windows_view(self.windows@), default_bounds: self.default_bounds }
    }
}

/// A copy of the windows, element by element.
pub fn clone_windows(v: &Vec<FloatWindow>) -> (r: Vec<FloatWindow>)
    ensures
        windows_view(r@) == windows_view(v@),
{
    let mut r: Vec<FloatWindow> = Vec::new();
    let mut i: usize = 0;
    while i < v.len()
        invariant
            i <= v.len(),
            r.len() == i,
            forall|k: int| 0 <= k < i ==> (#[trigger] r@[k])@ == v@[k]@,
        decreases v.len() - i,
    {
        let c = v[i].clone();
        r.push(c);
        i = i + 1;
    }
    assert(windows_view(r@) =~= windows_view(v@));
    r
}

impl Clone for Settings {
    fn clone(&self) -> (r: Self)
        ensures
            r@ == self@,
    {
        Settings { windows: clone_windows(&self.windows), default_bounds: self.default_bounds }
    }
}

impl Default for Settings {
    fn default() -> (s: Self)
        ensures
            s@.windows.len() == 0,
            s@.default_bounds == (Bounds { x: None, y: None, width: 480, height: 720 }),
    {
        Settings { windows: Vec::new(), default_bounds: Bounds::default() }
    }
}

/// What an overlay page asks for when it starts: its own window entry.
#[derive(Debug)]
pub struct OverlayState {
    pub item: FloatWindow,
}

/// The answer to a request to run a script.
#[derive(Debug)]
pub struct JsResult {
    pub ok: bool,
    pub error: Option<String>,
}

/// The answer to a configuration import or export.
#[derive(Debug)]
pub struct ConfigResult {
    pub ok: bool,
    pub error: Option<String>,
    pub count: Option<usize>,
    pub settings: Option<Settings>,
}

/// Why a hotkey does not take effect (bad format, duplicate, or refused by
/// the system).
#[derive(Debug)]
pub struct ShortcutIssue {
    pub hotkey: String,
    pub reason: String,
}

// ------------------------------------------------------------------------
// Looking windows up by id
// ------------------------------------------------------------------------

pub open spec fn window_ids(ws: Seq<WindowView>) -> Seq<Seq<char>> {
    ws.map_values(|w: WindowView| w.id)
}

pub open spec fn action_ids(acts: Seq<ActionView>) -> Seq<Seq<char>> {
    acts.map_values(|a: ActionView| a.id)
}

/// `i` is the first position of `id` in `ids`.
pub open spec fn is_first_index(ids: Seq<Seq<char>>, id: Seq<char>, i: int) -> bool {
    &&& 0 <= i < ids.len()
    &&& ids[i] == id
    &&& forall|j: int| 0 <= j < i ==> ids[j] != id
}

/// The first position of `id` in `ids`, if it occurs.
pub open spec fn first_index(ids: Seq<Seq<char>>, id: Seq<char>) -> Option<int> {
    if ids.contains(id) {
        Some(choose|i: int| is_first_index(ids, id, i))
    } else {
        None
    }
}

pub proof fn lemma_first_index_is(ids: Seq<Seq<char>>, id: Seq<char>, i: int)
    requires
        is_first_index(ids, id, i),
    ensures
        first_index(ids, id) == Some(i),
{
    assert(ids.contains(id));
    let c = choose|k: int| is_first_index(ids, id, k);
    assert(is_first_index(ids, id, c));
    if c < i {
        assert(ids[c] != id);
    }
    if i < c {
        assert(ids[i] != id);
    }
}

/// The window entry with the given id (the first one, should several share it).
pub open spec fn lookup_window(s: SettingsView, id: Seq<char>) -> Option<WindowView> {
    match first_index(window_ids(s.windows), id) {
        Some(i) => Some(s.windows[i]),
        None => None,
    }
}

/// The action with the given id in a window (the first one).
pub open spec fn lookup_action(w: WindowView, id: Seq<char>) -> Option<ActionView> {
    match first_index(action_ids(w.hotkeys), id) {
        Some(i) => Some(w.hotkeys[i]),
        None => None,
    }
}

/// Position of the first window whose id is `id`.
pub fn window_position(windows: &Vec<FloatWindow>, id: &str) -> (r: Option<usize>)
    ensures
        match r {
            Some(i) => {
                &&& first_index(window_ids(windows_view(windows@)), id@) == Some(i as int)
                &&& is_first_index(window_ids(windows_view(windows@)), id@, i as int)
            },
            None => first_index(window_ids(windows_view(windows@)), id@) is None,
        },
{
    let ghost ids = window_ids(windows_view(windows@));
    let mut i: usize = 0;
    while i < windows.len()
        invariant
            i <= windows.len(),
            ids == window_ids(windows_view(windows@)),
            ids.len() == windows.len(),
            forall|j: int| 0 <= j < i ==> ids[j] != id@,
        decreases windows.len() - i,
    {
        if str_eq(windows[i].id.as_str(), id) {
            proof {
                lemma_first_index_is(ids, id@, i as int);
            }
            return Some(i);
        }
        i = i + 1;
    }
    assert(!ids.contains(id@));
    None
}

/// Position of the first action whose id is `id`.
pub fn action_position(actions: &Vec<HotkeyAction>, id: &str) -> (r: Option<usize>)
    ensures
        match r {
            Some(i) => {
                &&& first_index(action_ids(actions_view(actions@)), id@) == Some(i as int)
                &&& is_first_index(action_ids(actions_view(actions@)), id@, i as int)
            },
            None => first_index(action_ids(actions_view(actions@)), id@) is None,
        },
{
    let ghost ids = action_ids(actions_view(actions@));
    let mut i: usize = 0;
    while i < actions.len()
        invariant
            i <= actions.len(),
            ids == action_ids(actions_view(actions@)),
            ids.len() == actions.len(),
            forall|j: int| 0 <= j < i ==> ids[j] != id@,
        decreases actions.len() - i,
    {
        if str_eq(actions[i].id.as_str(), id) {
            proof {
                lemma_first_index_is(ids, id@, i as int);
            }
            return Some(i);
        }
        i = i + 1;
    }
    assert(!ids.contains(id@));
    None
}

impl Settings {
    /// The window with the given id (the first one, should several share it).
    pub fn find_window(&self, id: &str) -> (r: Option<&FloatWindow>)
        ensures
            match r {
                Some(w) => lookup_window(self@, id@) == Some(w@),
                None => lookup_window(self@, id@) is None,
            },
    {
        match window_position(&self.windows, id) {
            Some(i) => Some(&self.windows[i]),
            None => None,
        }
    }
}

// ------------------------------------------------------------------------
// Normalising ids
// ------------------------------------------------------------------------

pub open spec fn window_id_prefix() -> Seq<char> {
    seq!['w', 'i', 'n', '-']
}

pub open spec fn action_id_prefix() -> Seq<char> {
    seq!['a', 'c', 't', '-']
}

/// An id made up by the library: the prefix, then a fresh token.
pub open spec fn generated_id(id: Seq<char>, prefix: Seq<char>) -> bool {
    starts_with(id, prefix) && is_token(id.subrange(prefix.len() as int, id.len() as int))
}

/// Entry `i` keeps its id: the id is not empty and no earlier entry holds it
/// (earlier entries as they are after renumbering).
pub open spec fn keeps_id(old: Seq<Seq<char>>, new: Seq<Seq<char>>, i: int) -> bool {
    old[i].len() > 0 && !new.take(i).contains(old[i])
}

/// `new` is `old` with every empty or repeated id replaced by a generated one.
pub open spec fn renumbered_upto(old: Seq<Seq<char>>, new: Seq<Seq<char>>, prefix: Seq<char>, n: int) -> bool {
    forall|i: int|
        0 <= i < n ==> if keeps_id(old, new, i) {
            #[trigger] new[i] == old[i]
        } else {
            generated_id(new[i], prefix)
        }
}

pub open spec fn renumbered(old: Seq<Seq<char>>, new: Seq<Seq<char>>, prefix: Seq<char>) -> bool {
    new.len() == old.len() && renumbered_upto(old, new, prefix, old.len() as int)
}

/// Two actions agree on everything but their ids.
pub open spec fn same_action_but_id(a: ActionView, b: ActionView) -> bool {
    a.name == b.name && a.hotkey == b.hotkey && a.code == b.code
}

/// Two windows agree on everything but their own id and the ids of their actions.
pub open spec fn same_window_but_ids(a: WindowView, b: WindowView) -> bool {
    &&& a.name == b.name
    &&& a.url == b.url
    &&& a.toggle_hotkey == b.toggle_hotkey
    &&& a.bounds == b.bounds
    &&& a.hotkeys.len() == b.hotkeys.len()
    &&& forall|k: int| 0 <= k < a.hotkeys.len() ==> same_action_but_id(#[trigger] a.hotkeys[k], b.hotkeys[k])
}

/// The actions of `new` are those of `old`, renumbered.
pub open spec fn actions_renumbered(old: Seq<ActionView>, new: Seq<ActionView>) -> bool {
    &&& new.len() == old.len()
    &&& forall|k: int| 0 <= k < old.len() ==> same_action_but_id(#[trigger] old[k], new[k])
    &&& renumbered(action_ids(old), action_ids(new), action_id_prefix())
}

/// `new` is what normalising `old` gives: window ids renumbered across all
/// windows, action ids renumbered within each window, nothing else changed.
pub open spec fn normalized(old: SettingsView, new: SettingsView) -> bool {
    &&& new.default_bounds == old.default_bounds
    &&& new.windows.len() == old.windows.len()
    &&& renumbered(window_ids(old.windows), window_ids(new.windows), window_id_prefix())
    &&& forall|i: int|
        0 <= i < old.windows.len() ==> {
            &&& same_window_but_ids(#[trigger] old.windows[i], new.windows[i])
            &&& actions_renumbered(old.windows[i].hotkeys, new.windows[i].hotkeys)
        }
}

/// The sequence number after `k` steps.
pub open spec fn advance(n: u64, k: nat) -> u64
    decreases k,
{
    if k == 0 {
        n
    } else {
        seq_after(advance(n, (k - 1) as nat))
    }
}

pub proof fn lemma_advance_add(n: u64, a: nat, b: nat)
    ensures
        advance(advance(n, a), b) == advance(n, a + b),
    decreases b,
{
    if b > 0 {
        lemma_advance_add(n, a, (b - 1) as nat);
        assert((a + b - 1) as nat == a + (b - 1) as nat);
    }
}

/// How many of the first `n` ids were made up.
pub open spec fn made_up_upto(old: Seq<Seq<char>>, new: Seq<Seq<char>>, n: int) -> nat
    decreases n,
{
    if n <= 0 {
        0
    } else {
        made_up_upto(old, new, n - 1) + if keeps_id(old, new, n - 1) {
            0nat
        } else {
            1nat
        }
    }
}

pub proof fn lemma_made_up_frame(old: Seq<Seq<char>>, a: Seq<Seq<char>>, b: Seq<Seq<char>>, n: int)
    requires
        0 <= n <= a.len(),
        n <= b.len(),
        a.take(n) == b.take(n),
    ensures
        made_up_upto(old, a, n) == made_up_upto(old, b, n),
    decreases n,
{
    if n > 0 {
        assert(a.take(n - 1) =~= a.take(n).take(n - 1));
        assert(b.take(n - 1) =~= b.take(n).take(n - 1));
        lemma_made_up_frame(old, a, b, n - 1);
    }
}

/// How many ids normalising made up within the first `n` windows: each
/// window's own id, then those of its actions.
pub open spec fn normalize_steps_upto(old: SettingsView, new: SettingsView, n: int) -> nat
    decreases n,
{
    if n <= 0 {
        0
    } else {
        normalize_steps_upto(old, new, n - 1) + (if keeps_id(
            window_ids(old.windows),
            window_ids(new.windows),
            n - 1,
        ) {
            0nat
        } else {
            1nat
        }) + made_up_upto(
            action_ids(old.windows[n - 1].hotkeys),
            action_ids(new.windows[n - 1].hotkeys),
            old.windows[n - 1].hotkeys.len() as int,
        )
    }
}

pub proof fn lemma_steps_frame(old: SettingsView, a: SettingsView, b: SettingsView, n: int)
    requires
        0 <= n <= a.windows.len(),
        n <= b.windows.len(),
        a.windows.take(n) == b.windows.take(n),
    ensures
        normalize_steps_upto(old, a, n) == normalize_steps_upto(old, b, n),
    decreases n,
{
    if n > 0 {
        assert(a.windows.take(n - 1) =~= a.windows.take(n).take(n - 1));
        assert(b.windows.take(n - 1) =~= b.windows.take(n).take(n - 1));
        lemma_steps_frame(old, a, b, n - 1);
        assert(a.windows[n - 1] == a.windows.take(n)[n - 1]);
        assert(b.windows[n - 1] == b.windows.take(n)[n - 1]);
        assert(window_ids(a.windows).take(n - 1) =~= window_ids(b.windows).take(n - 1)) by {
            assert forall|k: int| 0 <= k < n - 1 implies window_ids(a.windows)[k] == window_ids(
                b.windows,
            )[k] by {
                assert(a.windows[k] == a.windows.take(n)[k]);
                assert(b.windows[k] == b.windows.take(n)[k]);
            }
        }
    }
}

/// 1 when window `i` got a made-up id, else 0.
pub open spec fn window_made_up(old: SettingsView, new: SettingsView, i: int) -> nat {
    if keeps_id(window_ids(old.windows), window_ids(new.windows), i) {
        0
    } else {
        1
    }
}

/// Among the first `n` entries, each made-up id carries the sequence number
/// `start` moved on once for every id made up before it.
pub open spec fn numbered_upto(
    old: Seq<Seq<char>>,
    new: Seq<Seq<char>>,
    prefix: Seq<char>,
    start: u64,
    n: int,
) -> bool {
    forall|i: int|
        0 <= i < n && !keeps_id(old, new, i) ==> made_with(
            #[trigger] new[i],
            prefix,
            advance(start, made_up_upto(old, new, i)),
        )
}

pub open spec fn numbered(old: Seq<Seq<char>>, new: Seq<Seq<char>>, prefix: Seq<char>, start: u64) -> bool {
    numbered_upto(old, new, prefix, start, old.len() as int)
}

/// Within the first `n` windows, the made-up ids carry the sequence numbers
/// in the order normalising makes them: starting from `start`, a window's own
/// id first, then the ids of its actions.
pub open spec fn normalize_numbered_upto(old: SettingsView, new: SettingsView, start: u64, n: int) -> bool {
    forall|i: int|
        0 <= i < n ==> {
            &&& !keeps_id(window_ids(old.windows), window_ids(new.windows), i) ==> made_with(
                (#[trigger] new.windows[i]).id,
                window_id_prefix(),
                advance(start, normalize_steps_upto(old, new, i)),
            )
            &&& numbered(
                action_ids(old.windows[i].hotkeys),
                action_ids(new.windows[i].hotkeys),
                action_id_prefix(),
                advance(start, normalize_steps_upto(old, new, i) + window_made_up(old, new, i)),
            )
        }
}

pub open spec fn normalize_numbered(old: SettingsView, new: SettingsView, start: u64) -> bool {
    normalize_numbered_upto(old, new, start, old.windows.len() as int)
}

proof fn lemma_numbered_frame(
    old: Seq<Seq<char>>,
    a: Seq<Seq<char>>,
    b: Seq<Seq<char>>,
    prefix: Seq<char>,
    start: u64,
    n: int,
)
    requires
        0 <= n <= a.len(),
        n <= b.len(),
        a.take(n) == b.take(n),
        numbered_upto(old, b, prefix, start, n),
    ensures
        numbered_upto(old, a, prefix, start, n),
{
    assert forall|i: int| 0 <= i < n && !keeps_id(old, a, i) implies made_with(
        #[trigger] a[i],
        prefix,
        advance(start, made_up_upto(old, a, i)),
    ) by {
        assert(a.take(i) =~= b.take(i)) by {
            assert(a.take(i) =~= a.take(n).take(i));
            assert(b.take(i) =~= b.take(n).take(i));
        }
        assert(a[i] == a.take(n)[i]);
        assert(b[i] == b.take(n)[i]);
        lemma_made_up_frame(old, a, b, i);
    }
}

proof fn lemma_normalize_numbered_frame(old: SettingsView, a: SettingsView, b: SettingsView, start: u64, n: int)
    requires
        0 <= n <= a.windows.len(),
        n <= b.windows.len(),
        a.windows.take(n) == b.windows.take(n),
        normalize_numbered_upto(old, b, start, n),
    ensures
        normalize_numbered_upto(old, a, start, n),
{
    assert forall|i: int| 0 <= i < n implies {
        &&& !keeps_id(window_ids(old.windows), window_ids(a.windows), i) ==> made_with(
            (#[trigger] a.windows[i]).id,
            window_id_prefix(),
            advance(start, normalize_steps_upto(old, a, i)),
        )
        &&& numbered(
            action_ids(old.windows[i].hotkeys),
            action_ids(a.windows[i].hotkeys),
            action_id_prefix(),
            advance(start, normalize_steps_upto(old, a, i) + window_made_up(old, a, i)),
        )
    } by {
        assert(a.windows.take(i) =~= b.windows.take(i)) by {
            assert(a.windows.take(i) =~= a.windows.take(n).take(i));
            assert(b.windows.take(i) =~= b.windows.take(n).take(i));
        }
        assert(a.windows[i] == a.windows.take(n)[i]);
        assert(b.windows[i] == b.windows.take(n)[i]);
        assert(b.windows[i] == b.windows[i]);
        lemma_steps_frame(old, a, b, i);
        assert(window_ids(a.windows).take(i) =~= window_ids(b.windows).take(i)) by {
            assert forall|k: int| 0 <= k < i implies window_ids(a.windows)[k] == window_ids(b.windows)[k] by {
                assert(a.windows[k] == a.windows.take(i)[k]);
                assert(b.windows[k] == b.windows.take(i)[k]);
            }
        }
    }
}

/// `id` is `prefix`, the hex form of some clock reading `t`, then the hex
/// form of the sequence number `n`.
pub open spec fn made_with(id: Seq<char>, prefix: Seq<char>, n: u64) -> bool {
    exists|t: u128| id == prefix + #[trigger] hex(t as nat) + hex(n as nat)
}

/// An id made with a prefix starts with it and goes on with a token.
pub proof fn lemma_made_with_is_generated(id: Seq<char>, prefix: Seq<char>, n: u64)
    requires
        made_with(id, prefix, n),
    ensures
        generated_id(id, prefix),
        made_up_shape(id, prefix),
{
    let t = choose|t: u128| id == prefix + #[trigger] hex(t as nat) + hex(n as nat);
    lemma_hex_is_token(t as nat);
    lemma_hex_is_token(n as nat);
    crate::ids::lemma_tokens_concat(hex(t as nat), hex(n as nat));
    assert(id =~= prefix + (hex(t as nat) + hex(n as nat)));
    assert(id.subrange(0, prefix.len() as int) =~= prefix);
    assert(id.subrange(prefix.len() as int, id.len() as int) =~= hex(t as nat) + hex(n as nat));
}

/// Two made-up ids whose sequence numbers differ in their last hex digit
/// are different, whatever the clock read and whatever their prefixes.
pub proof fn lemma_made_up_ids_differ(x: Seq<char>, px: Seq<char>, a: u64, y: Seq<char>, py: Seq<char>, b: u64)
    requires
        made_with(x, px, a),
        made_with(y, py, b),
        a % 16 != b % 16,
    ensures
        x != y,
{
    let ta = choose|t: u128| x == px + #[trigger] hex(t as nat) + hex(a as nat);
    let tb = choose|t: u128| y == py + #[trigger] hex(t as nat) + hex(b as nat);
    lemma_hex_endings_differ(px + hex(ta as nat), py + hex(tb as nat), a as nat, b as nat);
}

/// `prefix` followed by a fresh token: the clock reading, then the current
/// sequence number of `ids`, which moves on by one.
fn generate_id(prefix: &str, ids: &mut IdSeq) -> (r: String)
    ensures
        made_with(r@, prefix@, old(ids)@),
        final(ids)@ == seq_after(old(ids)@),
{
    let token = ids.uuid_like();
    let r = concat(prefix, token.as_str());
    proof {
        let t = choose|t: u128| token@ == #[trigger] hex(t as nat) + hex(old(ids)@ as nat);
        assert(r@ =~= prefix@ + hex(t as nat) + hex(old(ids)@ as nat));
    }
    r
}

fn window_prefix() -> (r: &'static str)
    ensures
        r@ == window_id_prefix(),
{
    proof {
        reveal_strlit("win-");
    }
    let r = "win-";
    assert(r@ =~= window_id_prefix());
    r
}

fn action_prefix() -> (r: &'static str)
    ensures
        r@ == action_id_prefix(),
{
    proof {
        reveal_strlit("act-");
    }
    let r = "act-";
    assert(r@ =~= action_id_prefix());
    r
}

proof fn lemma_seen_after_push(seen: Set<Seq<char>>, before: Seq<Seq<char>>, id: Seq<char>)
    requires
        forall|x: Seq<char>| seen.contains(x) <==> before.contains(x),
    ensures
        forall|x: Seq<char>| #[trigger] seen.insert(id).contains(x) <==> before.push(id).contains(x),
{
    assert forall|x: Seq<char>| #[trigger] seen.insert(id).contains(x) <==> before.push(id).contains(x) by {
        if before.contains(x) {
            let k = choose|k: int| 0 <= k < before.len() && before[k] == x;
            assert(before.push(id)[k] == x);
        }
        if x == id {
            assert(before.push(id)[before.len() as int] == id);
        }
        if before.push(id).contains(x) && x != id {
            let k = choose|k: int| 0 <= k < before.push(id).len() && before.push(id)[k] == x;
            assert(k < before.len());
            assert(before[k] == x);
        }
    }
}

/// The actions with empty or repeated ids given fresh `act-` ids.
fn normalize_actions(acts: &Vec<HotkeyAction>, ids: &mut IdSeq) -> (r: Vec<HotkeyAction>)
    ensures
        actions_renumbered(actions_view(acts@), actions_view(r@)),
        numbered(action_ids(actions_view(acts@)), action_ids(actions_view(r@)), action_id_prefix(), old(ids)@),
        final(ids)@ == advance(
            old(ids)@,
            made_up_upto(action_ids(actions_view(acts@)), action_ids(actions_view(r@)), acts@.len() as int),
        ),
{
    let ghost old_ids = action_ids(actions_view(acts@));
    let ghost start = ids@;
    let mut out: Vec<HotkeyAction> = Vec::new();
    let mut seen = StringHashSet::new();
    let mut i: usize = 0;
    while i < acts.len()
        invariant
            i <= acts.len(),
            out.len() == i,
            old_ids == action_ids(actions_view(acts@)),
            forall|k: int| 0 <= k < i ==> same_action_but_id(#[trigger] acts@[k]@, out@[k]@),
            renumbered_upto(old_ids, action_ids(actions_view(out@)), action_id_prefix(), i as int),
            numbered_upto(old_ids, action_ids(actions_view(out@)), action_id_prefix(), start, i as int),
            ids@ == advance(start, made_up_upto(old_ids, action_ids(actions_view(out@)), i as int)),
            forall|x: Seq<char>| seen@.contains(x) <==> action_ids(actions_view(out@)).contains(x),
        decreases acts.len() - i,
    {
        let a = &acts[i];
        let ghost before = action_ids(actions_view(out@));
        let ghost ids0 = ids@;
        let id = if !a.id.as_str().is_empty() && !seen.contains(a.id.as_str()) {
            a.id.clone()
        } else {
            generate_id(action_prefix(), ids)
        };
        proof {
            lemma_seen_after_push(seen@, before, id@);
        }
        seen.insert(id.clone());
        let next = HotkeyAction {
            id: id,
            name: a.name.clone(),
            hotkey: a.hotkey.clone(),
            code: a.code.clone(),
        };
        out.push(next);
        proof {
            let after = action_ids(actions_view(out@));
            assert(after.take(i as int) =~= before);
            assert forall|k: int| 0 <= k < i implies after.take(k) =~= before.take(k) by {}
            assert forall|k: int| 0 <= k <= i implies after[k] == (if k < i { before[k] } else { next@.id }) by {}
            assert(before.take(i as int) =~= before);
            lemma_made_up_frame(old_ids, after, before, i as int);
            if !keeps_id(old_ids, after, i as int) {
                assert(made_with(after[i as int], action_id_prefix(), ids0));
                lemma_made_with_is_generated(after[i as int], action_id_prefix(), ids0);
            }
            lemma_numbered_frame(old_ids, after, before, action_id_prefix(), start, i as int);
            assert(after =~= before.push(next@.id));
        }
        i = i + 1;
    }
    proof {
        assert(action_ids(actions_view(out@)).len() == old_ids.len());
    }
    out
}

impl Settings {
    /// Gives every window a non-empty id not used by an earlier window, and
    /// every action a non-empty id not used by an earlier action of the same
    /// window. Ids that already qualify are kept; the others are replaced by
    /// `win-` or `act-` followed by a fresh token from `ids`: the clock
    /// reading, then the sequence number of `ids`, which moves on by one for
    /// each id made up, in the order of the windows, a window's own id before
    /// those of its actions.
    pub fn normalize(&mut self, ids: &mut IdSeq)
        ensures
            normalized(old(self)@, final(self)@),
            normalize_numbered(old(self)@, final(self)@, old(ids)@),
            final(ids)@ == advance(
                old(ids)@,
                normalize_steps_upto(old(self)@, final(self)@, old(self)@.windows.len() as int),
            ),
    {
        let ghost old_view = self@;
        let ghost start = ids@;
        let ghost old_ids = window_ids(old_view.windows);
        let mut out: Vec<FloatWindow> = Vec::new();
        let mut seen = StringHashSet::new();
        let mut i: usize = 0;
        while i < self.windows.len()
            invariant
                i <= self.windows.len(),
                out.len() == i,
                self@ == old_view,
                old_ids == window_ids(old_view.windows),
                forall|k: int|
                    0 <= k < i ==> {
                        &&& same_window_but_ids(#[trigger] old_view.windows[k], out@[k]@)
                        &&& actions_renumbered(old_view.windows[k].hotkeys, out@[k]@.hotkeys)
                    },
                renumbered_upto(old_ids, window_ids(windows_view(out@)), window_id_prefix(), i as int),
                normalize_numbered_upto(
                    old_view,
                    SettingsView { windows: windows_view(out@), default_bounds: old_view.default_bounds },
                    start,
                    i as int,
                ),
                ids@ == advance(
                    start,
                    normalize_steps_upto(
                        old_view,
                        SettingsView { windows: windows_view(out@), default_bounds: old_view.default_bounds },
                        i as int,
                    ),
                ),
                forall|x: Seq<char>| seen@.contains(x) <==> window_ids(windows_view(out@)).contains(x),
            decreases self.windows.len() - i,
        {
            let w = &self.windows[i];
            let ghost before = window_ids(windows_view(out@));
            let ghost prev_sv = SettingsView { windows: windows_view(out@), default_bounds: old_view.default_bounds };
            let ghost ids0 = ids@;
            let keep = !w.id.as_str().is_empty() && !seen.contains(w.id.as_str());
            let id = if keep {
                w.id.clone()
            } else {
                generate_id(window_prefix(), ids)
            };
            proof {
                lemma_seen_after_push(seen@, before, id@);
            }
            seen.insert(id.clone());
            let ghost ids1 = ids@;
            let hotkeys = normalize_actions(&w.hotkeys, ids);
            let next = FloatWindow {
                id: id,
                name: w.name.clone(),
                url: w.url.clone(),
                toggle_hotkey: w.toggle_hotkey.clone(),
                bounds: w.bounds,
                hotkeys: hotkeys,
            };
            out.push(next);
            proof {
                let after = window_ids(windows_view(out@));
                assert(after.take(i as int) =~= before);
                assert forall|k: int| 0 <= k < i implies after.take(k) =~= before.take(k) by {}
                assert forall|k: int| 0 <= k <= i implies after[k] == (if k < i { before[k] } else { next@.id }) by {}
                assert(old_view.windows[i as int] == w@);
                let new_sv = SettingsView { windows: windows_view(out@), default_bounds: old_view.default_bounds };
                assert(new_sv.windows.take(i as int) =~= prev_sv.windows.take(i as int));
                lemma_steps_frame(old_view, new_sv, prev_sv, i as int);
                let m = made_up_upto(
                    action_ids(old_view.windows[i as int].hotkeys),
                    action_ids(new_sv.windows[i as int].hotkeys),
                    old_view.windows[i as int].hotkeys.len() as int,
                );
                let g: nat = if keeps_id(old_ids, after, i as int) { 0 } else { 1 };
                assert(keeps_id(old_ids, after, i as int) == keep);
                assert(advance(ids0, 0) == ids0);
                assert(advance(ids0, 1) == seq_after(advance(ids0, 0)));
                assert(ids1 == advance(ids0, g));
                lemma_advance_add(ids0, g, m);
                lemma_advance_add(start, normalize_steps_upto(old_view, prev_sv, i as int), g + m);
                assert(normalize_steps_upto(old_view, new_sv, i + 1) == normalize_steps_upto(old_view, new_sv, i as int) + g + m);
                if !keep {
                    assert(made_with(after[i as int], window_id_prefix(), ids0));
                    lemma_made_with_is_generated(after[i as int], window_id_prefix(), ids0);
                }
                lemma_advance_add(start, normalize_steps_upto(old_view, prev_sv, i as int), g);
                assert(window_made_up(old_view, new_sv, i as int) == g);
                assert(new_sv.windows[i as int] == next@);
                lemma_normalize_numbered_frame(old_view, new_sv, prev_sv, start, i as int);
                assert(after =~= before.push(next@.id));
            }
            i = i + 1;
        }
        proof {
            let fin = SettingsView { windows: windows_view(out@), default_bounds: old_view.default_bounds };
            assert(fin.windows.take(i as int) =~= windows_view(out@).take(i as int));
        }
        self.windows = out;
    }
}

// ------------------------------------------------------------------------
// What normalising guarantees
// ------------------------------------------------------------------------

/// Every id is non-empty and no id occurs twice.
pub open spec fn ids_clean(ids: Seq<Seq<char>>) -> bool {
    (forall|i: int| 0 <= i < ids.len() ==> (#[trigger] ids[i]).len() > 0) && ids.no_duplicates()
}

/// Window ids are clean, and so are the action ids of each window.
pub open spec fn settings_ids_clean(s: SettingsView) -> bool {
    &&& ids_clean(window_ids(s.windows))
    &&& forall|i: int| 0 <= i < s.windows.len() ==> ids_clean(action_ids(#[trigger] s.windows[i].hotkeys))
}

/// No id made up during renumbering equals an id of an earlier entry.
pub open spec fn fresh_generated(old: Seq<Seq<char>>, new: Seq<Seq<char>>) -> bool {
    forall|i: int| 0 <= i < new.len() && !keeps_id(old, new, i) ==> !new.take(i).contains(#[trigger] new[i])
}

/// Every made-up id, window or action, is fresh in its list.
pub open spec fn normalize_fresh(old: SettingsView, new: SettingsView) -> bool {
    &&& fresh_generated(window_ids(old.windows), window_ids(new.windows))
    &&& forall|i: int| 0 <= i < new.windows.len() ==> fresh_generated(
        action_ids(#[trigger] old.windows[i].hotkeys),
        action_ids(new.windows[i].hotkeys),
    )
}

pub proof fn lemma_renumbered_nonempty(old: Seq<Seq<char>>, new: Seq<Seq<char>>, prefix: Seq<char>)
    requires
        renumbered(old, new, prefix),
        prefix.len() > 0,
    ensures
        forall|i: int| 0 <= i < new.len() ==> (#[trigger] new[i]).len() > 0,
{
    assert forall|i: int| 0 <= i < new.len() implies (#[trigger] new[i]).len() > 0 by {
        if keeps_id(old, new, i) {
            assert(new[i] == old[i]);
        } else {
            assert(generated_id(new[i], prefix));
        }
    }
}

pub proof fn lemma_renumbered_identity(old: Seq<Seq<char>>, new: Seq<Seq<char>>, prefix: Seq<char>)
    requires
        renumbered(old, new, prefix),
        ids_clean(old),
    ensures
        new == old,
{
    let n = old.len() as int;
    assert forall|i: int| 0 <= i <= n implies #[trigger] new.take(i) =~= old.take(i) by {
        lemma_renumbered_identity_upto(old, new, prefix, i);
    }
    assert(new.take(n) =~= new);
    assert(old.take(n) =~= old);
}

proof fn lemma_renumbered_identity_upto(old: Seq<Seq<char>>, new: Seq<Seq<char>>, prefix: Seq<char>, i: int)
    requires
        renumbered(old, new, prefix),
        ids_clean(old),
        0 <= i <= old.len(),
    ensures
        new.take(i) =~= old.take(i),
    decreases i,
{
    if i > 0 {
        lemma_renumbered_identity_upto(old, new, prefix, i - 1);
        let j = i - 1;
        assert(old[j].len() > 0);
        if old.take(j).contains(old[j]) {
            let k = choose|k: int| 0 <= k < old.take(j).len() && old.take(j)[k] == old[j];
            assert(old[k] == old[j]);
        }
        assert(keeps_id(old, new, j));
        assert(new[j] == old[j]);
        assert(new.take(i) =~= new.take(j).push(new[j]));
        assert(old.take(i) =~= old.take(j).push(old[j]));
    }
}

pub proof fn lemma_renumbered_distinct(old: Seq<Seq<char>>, new: Seq<Seq<char>>, prefix: Seq<char>)
    requires
        renumbered(old, new, prefix),
        fresh_generated(old, new),
    ensures
        new.no_duplicates(),
{
    assert forall|i: int, j: int| 0 <= i < new.len() && 0 <= j < new.len() && i != j implies new[i]
        != new[j] by {
        let (a, b) = if i < j { (i, j) } else { (j, i) };
        assert(!new.take(b).contains(new[b])) by {
            if keeps_id(old, new, b) {
                assert(new[b] == old[b]);
            }
        }
        assert(new.take(b)[a] == new[a]);
    }
}

/// Normalising leaves no window and no action without an id.
pub proof fn lemma_normalize_leaves_no_empty_id(old: SettingsView, new: SettingsView)
    requires
        normalized(old, new),
    ensures
        forall|i: int| 0 <= i < new.windows.len() ==> (#[trigger] new.windows[i]).id.len() > 0,
        forall|i: int, k: int|
            0 <= i < new.windows.len() && 0 <= k < new.windows[i].hotkeys.len() ==> (
            #[trigger] new.windows[i].hotkeys[k]).id.len() > 0,
{
    lemma_renumbered_nonempty(window_ids(old.windows), window_ids(new.windows), window_id_prefix());
    assert forall|i: int| 0 <= i < new.windows.len() implies (#[trigger] new.windows[i]).id.len() > 0 by {
        assert(window_ids(new.windows)[i] == new.windows[i].id);
    }
    assert forall|i: int, k: int|
        0 <= i < new.windows.len() && 0 <= k < new.windows[i].hotkeys.len() implies (
        #[trigger] new.windows[i].hotkeys[k]).id.len() > 0 by {
        assert(actions_renumbered(old.windows[i].hotkeys, new.windows[i].hotkeys));
        lemma_renumbered_nonempty(
            action_ids(old.windows[i].hotkeys),
            action_ids(new.windows[i].hotkeys),
            action_id_prefix(),
        );
        assert(action_ids(new.windows[i].hotkeys)[k] == new.windows[i].hotkeys[k].id);
    }
}

/// Settings whose ids are already non-empty and unique come out of
/// normalising unchanged.
pub proof fn lemma_normalize_keeps_clean_settings(old: SettingsView, new: SettingsView)
    requires
        normalized(old, new),
        settings_ids_clean(old),
    ensures
        new == old,
{
    lemma_renumbered_identity(window_ids(old.windows), window_ids(new.windows), window_id_prefix());
    assert forall|i: int| 0 <= i < old.windows.len() implies #[trigger] new.windows[i] == old.windows[i] by {
        let ow = old.windows[i];
        let nw = new.windows[i];
        assert(same_window_but_ids(ow, nw));
        assert(actions_renumbered(ow.hotkeys, nw.hotkeys));
        lemma_renumbered_identity(action_ids(ow.hotkeys), action_ids(nw.hotkeys), action_id_prefix());
        assert forall|k: int| 0 <= k < ow.hotkeys.len() implies #[trigger] nw.hotkeys[k] == ow.hotkeys[k] by {
            assert(same_action_but_id(ow.hotkeys[k], nw.hotkeys[k]));
            assert(action_ids(nw.hotkeys)[k] == action_ids(ow.hotkeys)[k]);
        }
        assert(nw.hotkeys =~= ow.hotkeys);
        assert(window_ids(new.windows)[i] == window_ids(old.windows)[i]);
    }
    assert(new.windows =~= old.windows);
}

/// When the made-up ids are fresh, normalising leaves every id non-empty and
/// unique: window ids across all windows, action ids within each window.
pub proof fn lemma_normalize_makes_ids_unique(old: SettingsView, new: SettingsView)
    requires
        normalized(old, new),
        normalize_fresh(old, new),
    ensures
        settings_ids_clean(new),
{
    lemma_normalize_leaves_no_empty_id(old, new);
    lemma_renumbered_distinct(window_ids(old.windows), window_ids(new.windows), window_id_prefix());
    assert forall|i: int| 0 <= i < window_ids(new.windows).len() implies (#[trigger] window_ids(
        new.windows,
    )[i]).len() > 0 by {
        assert(window_ids(new.windows)[i] == new.windows[i].id);
    }
    assert forall|i: int| 0 <= i < new.windows.len() implies ids_clean(
        action_ids(#[trigger] new.windows[i].hotkeys),
    ) by {
        assert(actions_renumbered(old.windows[i].hotkeys, new.windows[i].hotkeys));
        lemma_renumbered_distinct(
            action_ids(old.windows[i].hotkeys),
            action_ids(new.windows[i].hotkeys),
            action_id_prefix(),
        );
        assert forall|k: int| 0 <= k < action_ids(new.windows[i].hotkeys).len() implies (
        #[trigger] action_ids(new.windows[i].hotkeys)[k]).len() > 0 by {
            assert(action_ids(new.windows[i].hotkeys)[k] == new.windows[i].hotkeys[k].id);
        }
    }
}

/// The sequence number after `k` steps has the last hex digit of `n + k`:
/// wrapping around at 2^64 keeps it, as 2^64 is a multiple of 16.
pub proof fn lemma_advance_mod(n: u64, k: nat)
    ensures
        advance(n, k) % 16 == (n + k) % 16,
    decreases k,
{
    if k > 0 {
        lemma_advance_mod(n, (k - 1) as nat);
        let m = advance(n, (k - 1) as nat);
        assert(advance(n, k) == seq_after(m));
        assert(seq_after(m) % 16 == (m + 1) % 16);
    }
}

proof fn lemma_made_up_mono(old: Seq<Seq<char>>, new: Seq<Seq<char>>, a: int, b: int)
    requires
        0 <= a <= b,
    ensures
        made_up_upto(old, new, a) <= made_up_upto(old, new, b),
    decreases b - a,
{
    if a < b {
        lemma_made_up_mono(old, new, a, b - 1);
    }
}

proof fn lemma_steps_mono(old: SettingsView, new: SettingsView, a: int, b: int)
    requires
        0 <= a <= b,
    ensures
        normalize_steps_upto(old, new, a) <= normalize_steps_upto(old, new, b),
    decreases b - a,
{
    if a < b {
        lemma_steps_mono(old, new, a, b - 1);
    }
}

/// `id` could be a made-up id with this prefix: the prefix, then a run of at
/// least two hex digits (a made-up id has at least one for the clock reading
/// and one for the sequence number).
pub open spec fn made_up_shape(id: Seq<char>, prefix: Seq<char>) -> bool {
    generated_id(id, prefix) && id.len() >= prefix.len() + 2
}

/// None of the ids could be a made-up one: no window id is `win-` followed by
/// two or more hex digits, and no action id is `act-` followed by two or more
/// hex digits. Ids such as `win-main` or `win-1` are fine.
pub open spec fn no_made_up_shape(s: SettingsView) -> bool {
    &&& forall|i: int| 0 <= i < s.windows.len() ==> !made_up_shape(#[trigger] s.windows[i].id, window_id_prefix())
    &&& forall|i: int, k: int|
        0 <= i < s.windows.len() && 0 <= k < s.windows[i].hotkeys.len() ==> !made_up_shape(
            #[trigger] s.windows[i].hotkeys[k].id,
            action_id_prefix(),
        )
}

/// In one list whose made-up entry `i` carries the sequence number `start`
/// moved on `number(i)` times, where those numbers grow along the list and
/// lie fewer than 16 apart, and where no input entry starts with the prefix,
/// every made-up entry differs from all entries before it: from a kept one
/// by its shape, from a made-up one by the last digit of its number.
proof fn lemma_fresh_in_list(
    old: Seq<Seq<char>>,
    new: Seq<Seq<char>>,
    prefix: Seq<char>,
    start: u64,
    number: spec_fn(int) -> nat,
)
    requires
        forall|i: int| 0 <= i < old.len() ==> !made_up_shape(#[trigger] old[i], prefix),
        new.len() == old.len(),
        renumbered(old, new, prefix),
        forall|i: int|
            0 <= i < new.len() && !keeps_id(old, new, i) ==> made_with(
                #[trigger] new[i],
                prefix,
                advance(start, number(i)),
            ),
        forall|j: int, i: int|
            #![trigger number(j), number(i)]
            0 <= j < i < new.len() && !keeps_id(old, new, j) && !keeps_id(old, new, i) ==> number(j)
                < number(i) && number(i) < number(j) + 16,
    ensures
        fresh_generated(old, new),
{
    assert forall|i: int| 0 <= i < new.len() && !keeps_id(old, new, i) implies !new.take(i).contains(
        #[trigger] new[i],
    ) by {
        lemma_made_with_is_generated(new[i], prefix, advance(start, number(i)));
        assert forall|j: int| 0 <= j < i implies new[j] != new[i] by {
            if keeps_id(old, new, j) {
                assert(new[j] == old[j]);
            } else {
                assert(number(j) < number(i) && number(i) < number(j) + 16);
                lemma_advance_mod(start, number(j));
                lemma_advance_mod(start, number(i));
                lemma_made_up_ids_differ(
                    new[j],
                    prefix,
                    advance(start, number(j)),
                    new[i],
                    prefix,
                    advance(start, number(i)),
                );
            }
        }
        if new.take(i).contains(new[i]) {
            let j = choose|j: int| 0 <= j < new.take(i).len() && new.take(i)[j] == new[i];
            assert(new[j] == new.take(i)[j]);
        }
    }
}

/// The conditions under which the ids made up by one call of `normalize`
/// are fresh: no input id could be a made-up one, and the call makes
/// up at most 16 ids, so that any two of them differ in the last hex digit of
/// their sequence numbers.
pub open spec fn made_up_ids_stay_apart(old: SettingsView, new: SettingsView, start: u64) -> bool {
    &&& normalized(old, new)
    &&& normalize_numbered(old, new, start)
    &&& no_made_up_shape(old)
    &&& normalize_steps_upto(old, new, old.windows.len() as int) <= 16
}

proof fn lemma_window_ids_fresh(old: SettingsView, new: SettingsView, start: u64)
    requires
        made_up_ids_stay_apart(old, new, start),
    ensures
        fresh_generated(window_ids(old.windows), window_ids(new.windows)),
{
    let n = old.windows.len() as int;
    let wold = window_ids(old.windows);
    let wnew = window_ids(new.windows);
    let wnum = |i: int| normalize_steps_upto(old, new, i);
    assert forall|i: int| 0 <= i < wnew.len() && !keeps_id(wold, wnew, i) implies made_with(
        #[trigger] wnew[i],
        window_id_prefix(),
        advance(start, wnum(i)),
    ) by {
        assert(wnew[i] == new.windows[i].id);
    }
    assert forall|j: int, i: int|
        #![trigger wnum(j), wnum(i)]
        0 <= j < i < wnew.len() && !keeps_id(wold, wnew, j) && !keeps_id(wold, wnew, i) implies wnum(j)
        < wnum(i) && wnum(i) < wnum(j) + 16 by {
        lemma_steps_mono(old, new, j + 1, i);
        lemma_steps_mono(old, new, i + 1, n);
        assert(normalize_steps_upto(old, new, j + 1) >= normalize_steps_upto(old, new, j) + 1);
        assert(normalize_steps_upto(old, new, i + 1) >= normalize_steps_upto(old, new, i) + 1);
    }
    assert forall|i: int| 0 <= i < wold.len() implies !made_up_shape(#[trigger] wold[i], window_id_prefix()) by {
        assert(wold[i] == old.windows[i].id);
    }
    lemma_fresh_in_list(wold, wnew, window_id_prefix(), start, wnum);
}

proof fn lemma_action_ids_fresh(old: SettingsView, new: SettingsView, start: u64, i: int)
    requires
        made_up_ids_stay_apart(old, new, start),
        0 <= i < old.windows.len(),
    ensures
        fresh_generated(action_ids(old.windows[i].hotkeys), action_ids(new.windows[i].hotkeys)),
{
    let n = old.windows.len() as int;
    let aold = action_ids(old.windows[i].hotkeys);
    let anew = action_ids(new.windows[i].hotkeys);
    let len = aold.len() as int;
    let base = normalize_steps_upto(old, new, i) + window_made_up(old, new, i);
    let anum = |k: int| base + made_up_upto(aold, anew, k);
    assert(actions_renumbered(old.windows[i].hotkeys, new.windows[i].hotkeys));
    assert(numbered(aold, anew, action_id_prefix(), advance(start, base)));
    assert forall|k: int| 0 <= k < anew.len() && !keeps_id(aold, anew, k) implies made_with(
        #[trigger] anew[k],
        action_id_prefix(),
        advance(start, anum(k)),
    ) by {
        lemma_advance_add(start, base, made_up_upto(aold, anew, k));
    }
    lemma_steps_mono(old, new, i + 1, n);
    assert(normalize_steps_upto(old, new, i + 1) == base + made_up_upto(aold, anew, len));
    assert forall|l: int, k: int|
        #![trigger anum(l), anum(k)]
        0 <= l < k < anew.len() && !keeps_id(aold, anew, l) && !keeps_id(aold, anew, k) implies anum(l)
        < anum(k) && anum(k) < anum(l) + 16 by {
        lemma_made_up_mono(aold, anew, l + 1, k);
        lemma_made_up_mono(aold, anew, k + 1, len);
        assert(made_up_upto(aold, anew, l + 1) == made_up_upto(aold, anew, l) + 1);
        assert(made_up_upto(aold, anew, k + 1) == made_up_upto(aold, anew, k) + 1);
    }
    assert forall|k: int| 0 <= k < aold.len() implies !made_up_shape(#[trigger] aold[k], action_id_prefix()) by {
        assert(aold[k] == old.windows[i].hotkeys[k].id);
    }
    lemma_fresh_in_list(aold, anew, action_id_prefix(), start, anum);
}

/// The ids made up by one call of `normalize` are fresh in their lists under
/// `made_up_ids_stay_apart`.
pub proof fn lemma_made_up_ids_fresh(old: SettingsView, new: SettingsView, start: u64)
    requires
        made_up_ids_stay_apart(old, new, start),
    ensures
        normalize_fresh(old, new),
{
    lemma_window_ids_fresh(old, new, start);
    assert forall|i: int| 0 <= i < new.windows.len() implies fresh_generated(
        action_ids(#[trigger] old.windows[i].hotkeys),
        action_ids(new.windows[i].hotkeys),
    ) by {
        lemma_action_ids_fresh(old, new, start, i);
    }
}

/// After normalising, every id is non-empty and unique (window ids across
/// all windows, action ids within each window), as long as no input id
/// could be a made-up one and the call makes up at most 16 ids.
pub proof fn lemma_normalize_gives_clean_ids(old: SettingsView, new: SettingsView, start: u64)
    requires
        made_up_ids_stay_apart(old, new, start),
    ensures
        settings_ids_clean(new),
{
    lemma_made_up_ids_fresh(old, new, start);
    lemma_normalize_makes_ids_unique(old, new);
}

/// Normalising twice changes nothing the second time, under the conditions
/// of `lemma_normalize_gives_clean_ids` for the first call.
pub proof fn lemma_normalize_idempotent(old: SettingsView, mid: SettingsView, new: SettingsView, start: u64)
    requires
        made_up_ids_stay_apart(old, mid, start),
        normalized(mid, new),
    ensures
        new == mid,
{
    lemma_normalize_gives_clean_ids(old, mid, start);
    lemma_normalize_keeps_clean_settings(mid, new);
}

// ------------------------------------------------------------------------
// Window bounds
// ------------------------------------------------------------------------

pub open spec fn with_bounds(w: WindowView, b: Option<Bounds>) -> WindowView {
    WindowView {
        id: w.id,
        name: w.name,
        url: w.url,
        toggle_hotkey: w.toggle_hotkey,
        bounds: b,
        hotkeys: w.hotkeys,
    }
}

/// A copy of `w` with the given bounds.
pub fn window_with_bounds(w: &FloatWindow, b: Option<Bounds>) -> (r: FloatWindow)
    ensures
        r@ == with_bounds(w@, b),
{
    FloatWindow {
        id: w.id.clone(),
        name: w.name.clone(),
        url: w.url.clone(),
        toggle_hotkey: w.toggle_hotkey.clone(),
        bounds: b,
        hotkeys: clone_actions(&w.hotkeys),
    }
}

/// The bounds a saved window ends up with: those recorded at run time for
/// the window with the same id, if any were recorded, else its own.
pub open spec fn kept_bounds(previous: SettingsView, w: WindowView) -> Option<Bounds> {
    match lookup_window(previous, w.id) {
        Some(old) => if old.bounds is Some {
            old.bounds
        } else {
            w.bounds
        },
        None => w.bounds,
    }
}

impl Settings {
    /// Records the bounds of the window with the given id (the first such
    /// window); settings without that window are left as they are.
    pub fn record_bounds(&mut self, id: &str, bounds: Bounds)
        ensures
            final(self)@.default_bounds == old(self)@.default_bounds,
            match first_index(window_ids(old(self)@.windows), id@) {
                Some(k) => final(self)@.windows == old(self)@.windows.update(
                    k,
                    with_bounds(old(self)@.windows[k], Some(bounds)),
                ),
                None => final(self)@.windows == old(self)@.windows,
            },
    {
        match window_position(&self.windows, id) {
            Some(k) => {
                let ghost before = self@.windows;
                let w = self.windows.remove(k);
                let updated = window_with_bounds(&w, Some(bounds));
                self.windows.insert(k, updated);
                assert(self@.windows =~= before.update(k as int, with_bounds(before[k as int], Some(bounds))));
            },
            None => {},
        }
    }

    /// The settings to keep when the user saves `patch`: `patch` as it is,
    /// except that a window keeps the bounds recorded for it at run time,
    /// which the editor may not have seen.
    pub fn merge_runtime_bounds(previous: &Settings, patch: Settings) -> (r: Settings)
        ensures
            r@.default_bounds == patch@.default_bounds,
            r@.windows.len() == patch@.windows.len(),
            forall|i: int| 0 <= i < r@.windows.len() ==> #[trigger] r@.windows[i] == with_bounds(
                patch@.windows[i],
                kept_bounds(previous@, patch@.windows[i]),
            ),
    {
        let mut out: Vec<FloatWindow> = Vec::new();
        let mut i: usize = 0;
        while i < patch.windows.len()
            invariant
                i <= patch.windows.len(),
                out.len() == i,
                forall|k: int| 0 <= k < i ==> (#[trigger] out@[k])@ == with_bounds(
                    patch@.windows[k],
                    kept_bounds(previous@, patch@.windows[k]),
                ),
            decreases patch.windows.len() - i,
        {
            let item = &patch.windows[i];
            let b = match previous.find_window(item.id.as_str()) {
                Some(old) => if old.bounds.is_some() {
                    old.bounds
                } else {
                    item.bounds
                },
                None => item.bounds,
            };
            out.push(window_with_bounds(item, b));
            i = i + 1;
        }
        let r = Settings { windows: out, default_bounds: patch.default_bounds };
        assert(r@.windows.len() == patch@.windows.len());
        r
    }

    /// The action `action_id` of the window `window_id`, if both exist.
    pub fn find_action(&self, window_id: &str, action_id: &str) -> (r: Option<&HotkeyAction>)
        ensures
            match r {
                Some(a) => {
                    &&& lookup_window(self@, window_id@) is Some
                    &&& lookup_action(lookup_window(self@, window_id@)->0, action_id@) == Some(a@)
                },
                None => lookup_window(self@, window_id@) is None || lookup_action(
                    lookup_window(self@, window_id@)->0,
                    action_id@,
                ) is None,
            },
    {
        match self.find_window(window_id) {
            Some(w) => match action_position(&w.hotkeys, action_id) {
                Some(k) => Some(&w.hotkeys[k]),
                None => None,
            },
            None => None,
        }
    }
}

/// The state an overlay page starts from: a copy of its window entry.
pub fn build_state(id: &str, settings: &Settings) -> (r: Option<OverlayState>)
    ensures
        match r {
            Some(st) => lookup_window(settings@, id@) == Some(st.item@),
            None => lookup_window(settings@, id@) is None,
        },
{
    match settings.find_window(id) {
        Some(w) => Some(OverlayState { item: w.clone() }),
        None => None,
    }
}

/// After the bounds of a window are recorded, looking the window up gives
/// those bounds; its other fields are as before.
pub proof fn lemma_recorded_bounds_are_found(old: SettingsView, new: SettingsView, id: Seq<char>, b: Bounds)
    requires
        lookup_window(old, id) is Some,
        new.windows == old.windows.update(
            first_index(window_ids(old.windows), id)->0,
            with_bounds(old.windows[first_index(window_ids(old.windows), id)->0], Some(b)),
        ),
    ensures
        lookup_window(new, id) == Some(with_bounds(lookup_window(old, id)->0, Some(b))),
{
    let ids = window_ids(old.windows);
    let k = first_index(ids, id)->0;
    assert(ids.contains(id));
    let w = choose|i: int| 0 <= i < ids.len() && ids[i] == id;
    assert(exists|i: int| is_first_index(ids, id, i)) by {
        lemma_first_exists(ids, id, w);
    }
    assert(is_first_index(ids, id, k));
    assert(window_ids(new.windows) =~= ids);
    lemma_first_index_is(window_ids(new.windows), id, k);
}

proof fn lemma_first_exists(ids: Seq<Seq<char>>, id: Seq<char>, w: int)
    requires
        0 <= w < ids.len(),
        ids[w] == id,
    ensures
        exists|i: int| is_first_index(ids, id, i),
    decreases w,
{
    if exists|j: int| 0 <= j < w && ids[j] == id {
        let j = choose|j: int| 0 <= j < w && ids[j] == id;
        lemma_first_exists(ids, id, j);
    } else {
        assert(is_first_index(ids, id, w));
    }
}

/// Bounds recorded at run time survive a save: once the bounds of window
/// `id` are recorded, saving any patch that holds a window with that id
/// gives it those bounds.
pub proof fn lemma_recorded_bounds_survive_saving(
    old: SettingsView,
    new: SettingsView,
    id: Seq<char>,
    b: Bounds,
    w: WindowView,
)
    requires
        lookup_window(old, id) is Some,
        new.windows == old.windows.update(
            first_index(window_ids(old.windows), id)->0,
            with_bounds(old.windows[first_index(window_ids(old.windows), id)->0], Some(b)),
        ),
        w.id == id,
    ensures
        kept_bounds(new, w) == Some(b),
{
    lemma_recorded_bounds_are_found(old, new, id, b);
}

} // verus!

