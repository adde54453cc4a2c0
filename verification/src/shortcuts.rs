//! Global hotkeys: which hotkey text does what, and which texts cannot be
//! used (bad format, or already taken by an earlier binding).
use vstd::prelude::*;
use vstd::string::StringExecFns;
use std::collections::HashMap;
use crate::text::{trim, trim_text};
use crate::model::{Settings, SettingsView, WindowView, ActionView};
use crate::model::ShortcutIssue;

verus! {

/// What pressing a hotkey does: show or hide a window, or run one of its actions.
#[derive(Debug)]
pub enum Binding {
    Toggle(String),
    Action(String, String),
}

pub enum BindingView {
    Toggle(Seq<char>),
    Action(Seq<char>, Seq<char>),
}

impl View for Binding {
    type V = BindingView;

    open spec fn view(&self) -> BindingView {
        match self {
            Binding::Toggle(id) => BindingView::Toggle(id@),
            Binding::Action(w, a) => BindingView::Action(w@, a@),
        }
    }
}

impl Clone for Binding {
    fn clone(&self) -> (r: Self)
        ensures
            r@ == self@,
    {
        match self {
            Binding::Toggle(id) => Binding::Toggle(id.clone()),
            Binding::Action(w, a) => Binding::Action(w.clone(), a.clone()),
        }
    }
}

/// What the `global-hotkey` crate makes of a hotkey text: the id of the
/// hotkey (which stands for its modifiers and key), or the text of the error.
pub uninterp spec fn parsed_hotkey(text: Seq<char>) -> Result<u32, Seq<char>>;

/// `HotKey::from_str` from `global-hotkey` (the type that the global-shortcut
/// plugin calls `Shortcut`), the hotkey given by its id. The crate computes
/// the id as `mods << 16 | key`, so two hotkeys are equal exactly when their
/// ids are. An error is given by its display text. Which texts parse, and to
/// which id, is left to the crate. The crate reads `CmdOrCtrl` as Command on
/// macOS and as Control elsewhere: that is fixed when the crate is built, so
/// on one build a text always gives the same id.
#[verifier::external_body]
fn parse_hotkey(text: &str) -> (r: Result<u32, String>)
    ensures
        match r {
            Ok(k) => parsed_hotkey(text@) == Ok::<u32, Seq<char>>(k),
            Err(e) => parsed_hotkey(text@) == Err::<u32, Seq<char>>(e@),
        },
{
    match text.parse::<global_hotkey::hotkey::HotKey>() {
        Ok(h) => Ok(h.id()),
        Err(e) => Err(e.to_string()),
    }
}

pub open spec fn duplicate_reason() -> Seq<char> {
    "与其他快捷键重复"@
}

/// A hotkey text and what it should do.
pub type BindRequest = (Seq<char>, BindingView);

/// The requests of the actions of window `id`: one per action whose hotkey
/// is not blank, in order.
pub open spec fn action_requests(id: Seq<char>, acts: Seq<ActionView>) -> Seq<BindRequest>
    decreases acts.len(),
{
    if acts.len() == 0 {
        Seq::empty()
    } else {
        action_requests(id, acts.drop_last()) + if trim(acts.last().hotkey).len() > 0 {
            seq![(acts.last().hotkey, BindingView::Action(id, acts.last().id))]
        } else {
            Seq::empty()
        }
    }
}

/// The requests of one window: its show/hide hotkey, if not blank, then
/// those of its actions.
pub open spec fn window_requests(w: WindowView) -> Seq<BindRequest> {
    (if trim(w.toggle_hotkey).len() > 0 {
        seq![(w.toggle_hotkey, BindingView::Toggle(w.id))]
    } else {
        Seq::empty()
    }) + action_requests(w.id, w.hotkeys)
}

/// The requests of all windows, window by window.
pub open spec fn binding_requests(ws: Seq<WindowView>) -> Seq<BindRequest>
    decreases ws.len(),
{
    if ws.len() == 0 {
        Seq::empty()
    } else {
        binding_requests(ws.drop_last()) + window_requests(ws.last())
    }
}

/// Hotkeys bound so far (by id, and by the trimmed text that named them),
/// what each does, and the problems found, each as the trimmed hotkey text
/// and the reason.
pub struct PlanView {
    pub keys: Seq<u32>,
    pub texts: Seq<Seq<char>>,
    pub bindings: Seq<BindingView>,
    pub issues: Seq<(Seq<char>, Seq<char>)>,
}

pub open spec fn empty_plan() -> PlanView {
    PlanView { keys: Seq::empty(), texts: Seq::empty(), bindings: Seq::empty(), issues: Seq::empty() }
}

/// One request handled: the trimmed text is parsed; a hotkey not yet bound
/// is bound, one already bound is reported as a duplicate, and a text that
/// does not parse is reported with the parser's message.
pub open spec fn plan_step(p: PlanView, req: BindRequest) -> PlanView {
    let text = trim(req.0);
    match parsed_hotkey(text) {
        Ok(k) => if p.keys.contains(k) {
            PlanView { issues: p.issues.push((text, duplicate_reason())), ..p }
        } else {
            PlanView {
                keys: p.keys.push(k),
                texts: p.texts.push(text),
                bindings: p.bindings.push(req.1),
                ..p
            }
        },
        Err(e) => PlanView { issues: p.issues.push((text, e)), ..p },
    }
}

/// The requests handled one after the other, starting from `p`.
pub open spec fn plan_from(p: PlanView, reqs: Seq<BindRequest>) -> PlanView
    decreases reqs.len(),
{
    if reqs.len() == 0 {
        p
    } else {
        plan_step(plan_from(p, reqs.drop_last()), reqs.last())
    }
}

/// The hotkey plan of a set of settings.
pub open spec fn shortcut_plan(s: SettingsView) -> PlanView {
    plan_from(empty_plan(), binding_requests(s.windows))
}

pub proof fn lemma_plan_from_concat(p: PlanView, a: Seq<BindRequest>, b: Seq<BindRequest>)
    ensures
        plan_from(p, a + b) == plan_from(plan_from(p, a), b),
    decreases b.len(),
{
    if b.len() == 0 {
        assert(a + b =~= a);
    } else {
        lemma_plan_from_concat(p, a, b.drop_last());
        assert((a + b).drop_last() =~= a + b.drop_last());
        assert((a + b).last() == b.last());
    }
}

/// The bindings and problems that the settings' hotkeys come to: what each
/// hotkey does, by hotkey id, with the ids and their trimmed texts in the
/// order they were bound.
pub struct ShortcutPlan {
    pub keys: Vec<u32>,
    pub texts: Vec<String>,
    pub bindings: HashMap<u32, Binding>,
    pub issues: Vec<ShortcutIssue>,
}

pub open spec fn issues_view(v: Seq<ShortcutIssue>) -> Seq<(Seq<char>, Seq<char>)> {
    v.map_values(|i: ShortcutIssue| (i.hotkey@, i.reason@))
}

impl View for ShortcutPlan {
    type V = PlanView;

    open spec fn view(&self) -> PlanView {
        PlanView {
            keys: self.keys@,
            texts: self.texts@.map_values(|t: String| t@),
            bindings: self.keys@.map_values(|k: u32| self.bindings@[k]@),
            issues: issues_view(self.issues@),
        }
    }
}

impl ShortcutPlan {
    /// The map binds exactly the hotkeys listed in `keys`.
    pub open spec fn well_formed(&self) -> bool {
        forall|k: u32| #[trigger] self.bindings@.contains_key(k) <==> self.keys@.contains(k)
    }
}

/// Handles one request.
fn bind(plan: &mut ShortcutPlan, text: &str, binding: Binding)
    requires
        old(plan).well_formed(),
    ensures
        final(plan).well_formed(),
        final(plan)@ == plan_step(old(plan)@, (text@, binding@)),
{
    broadcast use vstd::std_specs::hash::group_hash_axioms;

    let hotkey = trim_text(text);
    let ghost before = plan@;
    let ghost old_map = plan.bindings@;
    match parse_hotkey(hotkey) {
        Ok(k) => {
            if plan.bindings.contains_key(&k) {
                plan.issues.push(
                    ShortcutIssue {
                        hotkey: String::from_str(hotkey),
                        reason: String::from_str("与其他快捷键重复"),
                    },
                );
                assert(issues_view(plan.issues@) =~= before.issues.push((hotkey@, duplicate_reason())));
                assert(plan@.bindings =~= before.bindings);
            } else {
                let ghost bv = binding@;
                plan.keys.push(k);
                plan.texts.push(String::from_str(hotkey));
                plan.bindings.insert(k, binding);
                assert(!before.keys.contains(k));
                assert forall|i: int| 0 <= i < before.keys.len() implies before.keys[i] != k by {
                    if before.keys[i] == k {
                        assert(before.keys.contains(k));
                    }
                }
                assert(plan@.bindings =~= before.bindings.push(bv));
                assert(plan.texts@.map_values(|t: String| t@) =~= before.texts.push(hotkey@));
                assert forall|x: u32| #[trigger] plan.bindings@.contains_key(x) <==> plan.keys@.contains(x) by {
                    if plan.keys@.contains(x) && x != k {
                        let i = choose|i: int| 0 <= i < plan.keys@.len() && plan.keys@[i] == x;
                        assert(before.keys[i] == x);
                    }
                    if old_map.contains_key(x) {
                        assert(before.keys.contains(x));
                        let i = choose|i: int| 0 <= i < before.keys.len() && before.keys[i] == x;
                        assert(plan.keys@[i] == x);
                    }
                    if x == k {
                        assert(plan.keys@[plan.keys@.len() - 1] == k);
                    }
                }
            }
        },
        Err(e) => {
            let ghost ev = e@;
            plan.issues.push(ShortcutIssue { hotkey: String::from_str(hotkey), reason: e });
            assert(issues_view(plan.issues@) =~= before.issues.push((hotkey@, ev)));
            assert(plan@.bindings =~= before.bindings);
        },
    }
}

/// Works out the hotkeys of all windows: each window's show/hide hotkey and
/// then those of its actions, window by window; blank hotkeys are skipped.
pub fn plan_shortcuts(settings: &Settings) -> (plan: ShortcutPlan)
    ensures
        plan@ == shortcut_plan(settings@),
        plan.well_formed(),
        plan.texts.len() == plan.keys.len(),
{
    let mut plan = ShortcutPlan {
        keys: Vec::new(),
        texts: Vec::new(),
        bindings: HashMap::new(),
        issues: Vec::new(),
    };
    assert(plan@ == empty_plan()) by {
        assert(plan@.keys =~= Seq::<u32>::empty());
        assert(plan@.texts =~= Seq::<Seq<char>>::empty());
        assert(plan@.bindings =~= Seq::<BindingView>::empty());
        assert(plan@.issues =~= Seq::<(Seq<char>, Seq<char>)>::empty());
    }
    let ghost ws = settings@.windows;
    let mut i: usize = 0;
    while i < settings.windows.len()
        invariant
            i <= settings.windows.len(),
            ws == settings@.windows,
            plan.well_formed(),
            plan@ == plan_from(empty_plan(), binding_requests(ws.take(i as int))),
        decreases settings.windows.len() - i,
    {
        let item = &settings.windows[i];
        let ghost w = ws[i as int];
        let ghost start = plan@;
        assert(item@ == w);
        let ghost toggle_reqs = if trim(w.toggle_hotkey).len() > 0 {
            seq![(w.toggle_hotkey, BindingView::Toggle(w.id))]
        } else {
            Seq::<BindRequest>::empty()
        };
        let toggle = trim_text(item.toggle_hotkey.as_str());
        if !toggle.is_empty() {
            let b = Binding::Toggle(item.id.clone());
            assert(b@ == BindingView::Toggle(w.id));
            bind(&mut plan, item.toggle_hotkey.as_str(), b);
            proof {
                assert(toggle_reqs.drop_last() =~= Seq::<BindRequest>::empty());
                assert(toggle_reqs.last() == (w.toggle_hotkey, BindingView::Toggle(w.id)));
                assert(plan_from(start, toggle_reqs.drop_last()) == start);
            }
        }
        assert(plan@ == plan_from(start, toggle_reqs));
        let ghost mid = plan@;
        let mut k: usize = 0;
        while k < item.hotkeys.len()
            invariant
                k <= item.hotkeys.len(),
                item@ == w,
                plan.well_formed(),
                plan@ == plan_from(mid, action_requests(w.id, w.hotkeys.take(k as int))),
            decreases item.hotkeys.len() - k,
        {
            let action = &item.hotkeys[k];
            let ghost a = w.hotkeys[k as int];
            let ghost before = plan@;
            assert(action@ == a);
            assert(w.hotkeys.take(k + 1).drop_last() =~= w.hotkeys.take(k as int));
            let t = trim_text(action.hotkey.as_str());
            if !t.is_empty() {
                let b = Binding::Action(item.id.clone(), action.id.clone());
                assert(b@ == BindingView::Action(w.id, a.id));
                bind(&mut plan, action.hotkey.as_str(), b);
                proof {
                    let prev = action_requests(w.id, w.hotkeys.take(k as int));
                    let single = seq![(a.hotkey, BindingView::Action(w.id, a.id))];
                    assert(w.hotkeys.take(k + 1).last() == a);
                    assert(action_requests(w.id, w.hotkeys.take(k + 1)) == prev + single);
                    lemma_plan_from_concat(mid, prev, single);
                    assert(single.drop_last() =~= Seq::<BindRequest>::empty());
                    assert(plan_from(plan_from(mid, prev), single.drop_last()) == plan_from(mid, prev));
                    assert(single.last() == (a.hotkey, BindingView::Action(w.id, a.id)));
                }
            } else {
                proof {
                    let prev = action_requests(w.id, w.hotkeys.take(k as int));
                    assert(w.hotkeys.take(k + 1).last() == a);
                    assert(action_requests(w.id, w.hotkeys.take(k + 1)) =~= prev + Seq::<BindRequest>::empty());
                }
            }
            k = k + 1;
        }
        proof {
            assert(w.hotkeys.take(w.hotkeys.len() as int) =~= w.hotkeys);
            lemma_plan_from_concat(start, toggle_reqs, action_requests(w.id, w.hotkeys));
            lemma_plan_from_concat(empty_plan(), binding_requests(ws.take(i as int)), window_requests(w));
            assert(ws.take(i + 1).drop_last() =~= ws.take(i as int));
            assert(ws.take(i + 1).last() == w);
        }
        i = i + 1;
    }
    assert(ws.take(ws.len() as int) =~= ws);
    proof {
        lemma_plan_shape(binding_requests(ws));
    }
    plan
}

impl ShortcutPlan {
    /// What the hotkey with the given id does, if it is bound.
    pub fn binding_for(&self, key: u32) -> (r: Option<&Binding>)
        ensures
            match r {
                Some(b) => self.bindings@.contains_key(key) && self.bindings@[key] == *b,
                None => !self.bindings@.contains_key(key),
            },
    {
        broadcast use vstd::std_specs::hash::group_hash_axioms;

        self.bindings.get(&key)
    }
}

/// A plan binds every hotkey at most once, has one binding per bound
/// hotkey, and comes to one binding or one problem per request.
pub proof fn lemma_plan_shape(reqs: Seq<BindRequest>)
    ensures
        plan_from(empty_plan(), reqs).keys.no_duplicates(),
        plan_from(empty_plan(), reqs).keys.len() == plan_from(empty_plan(), reqs).bindings.len(),
        plan_from(empty_plan(), reqs).keys.len() == plan_from(empty_plan(), reqs).texts.len(),
        plan_from(empty_plan(), reqs).bindings.len() + plan_from(empty_plan(), reqs).issues.len()
            == reqs.len(),
        forall|i: int|
            0 <= i < plan_from(empty_plan(), reqs).keys.len() ==> parsed_hotkey(
                #[trigger] plan_from(empty_plan(), reqs).texts[i],
            ) == Ok::<u32, Seq<char>>(plan_from(empty_plan(), reqs).keys[i]),
    decreases reqs.len(),
{
    if reqs.len() > 0 {
        lemma_plan_shape(reqs.drop_last());
        let p = plan_from(empty_plan(), reqs.drop_last());
        let q = plan_from(empty_plan(), reqs);
        let text = trim(reqs.last().0);
        assert forall|i: int| 0 <= i < q.keys.len() implies parsed_hotkey(#[trigger] q.texts[i])
            == Ok::<u32, Seq<char>>(q.keys[i]) by {
            if i < p.keys.len() {
                assert(q.texts[i] == p.texts[i]);
                assert(q.keys[i] == p.keys[i]);
            }
        }
        match parsed_hotkey(text) {
            Ok(k) => {
                if !p.keys.contains(k) {
                    assert forall|a: int, b: int|
                        0 <= a < q.keys.len() && 0 <= b < q.keys.len() && a != b implies q.keys[a]
                        != q.keys[b] by {
                        if b == p.keys.len() {
                            assert(p.keys[a] == q.keys[a]);
                        } else if a == p.keys.len() {
                            assert(p.keys[b] == q.keys[b]);
                        } else {
                            assert(p.keys[a] == q.keys[a]);
                            assert(p.keys[b] == q.keys[b]);
                        }
                    }
                }
            },
            Err(_) => {},
        }
    }
}

/// A hotkey that parses is never lost: after its request it is bound
/// (by this request or an earlier one) and stays bound.
pub proof fn lemma_parsed_hotkeys_are_bound(reqs: Seq<BindRequest>, i: int)
    requires
        0 <= i < reqs.len(),
        parsed_hotkey(trim(reqs[i].0)) is Ok,
    ensures
        plan_from(empty_plan(), reqs).keys.contains(parsed_hotkey(trim(reqs[i].0))->Ok_0),
    decreases reqs.len(),
{
    let k = parsed_hotkey(trim(reqs[i].0))->Ok_0;
    let p = plan_from(empty_plan(), reqs.drop_last());
    let q = plan_from(empty_plan(), reqs);
    if i < reqs.len() - 1 {
        lemma_parsed_hotkeys_are_bound(reqs.drop_last(), i);
        assert(reqs.drop_last()[i] == reqs[i]);
        let j = choose|j: int| 0 <= j < p.keys.len() && p.keys[j] == k;
        assert(q.keys[j] == k);
    } else {
        if p.keys.contains(k) {
            let j = choose|j: int| 0 <= j < p.keys.len() && p.keys[j] == k;
            assert(q.keys[j] == k);
        } else {
            assert(q.keys[p.keys.len() as int] == k);
        }
    }
}

/// Two request lists that name the same hotkeys up to white space around
/// them, with the same bindings, in the same order.
pub open spec fn requests_match(a: Seq<BindRequest>, b: Seq<BindRequest>) -> bool {
    &&& a.len() == b.len()
    &&& forall|i: int| 0 <= i < a.len() ==> trim((#[trigger] a[i]).0) == trim(b[i].0) && a[i].1 == b[i].1
}

pub proof fn lemma_plan_from_match(p: PlanView, a: Seq<BindRequest>, b: Seq<BindRequest>)
    requires
        requests_match(a, b),
    ensures
        plan_from(p, a) == plan_from(p, b),
    decreases a.len(),
{
    if a.len() > 0 {
        assert(requests_match(a.drop_last(), b.drop_last())) by {
            assert forall|i: int| 0 <= i < a.drop_last().len() implies trim((#[trigger] a.drop_last()[i]).0)
                == trim(b.drop_last()[i].0) && a.drop_last()[i].1 == b.drop_last()[i].1 by {
                assert(a.drop_last()[i] == a[i]);
                assert(b.drop_last()[i] == b[i]);
            }
        }
        lemma_plan_from_match(p, a.drop_last(), b.drop_last());
        assert(a.last() == a[a.len() - 1]);
        assert(b.last() == b[b.len() - 1]);
    }
}

proof fn lemma_match_concat(a1: Seq<BindRequest>, a2: Seq<BindRequest>, b1: Seq<BindRequest>, b2: Seq<BindRequest>)
    requires
        requests_match(a1, a2),
        requests_match(b1, b2),
    ensures
        requests_match(a1 + b1, a2 + b2),
{
    assert forall|i: int| 0 <= i < (a1 + b1).len() implies trim((#[trigger] (a1 + b1)[i]).0) == trim(
        (a2 + b2)[i].0,
    ) && (a1 + b1)[i].1 == (a2 + b2)[i].1 by {
        if i < a1.len() {
            assert((a1 + b1)[i] == a1[i]);
            assert((a2 + b2)[i] == a2[i]);
        } else {
            assert((a1 + b1)[i] == b1[i - a1.len()]);
            assert((a2 + b2)[i] == b2[i - a1.len()]);
        }
    }
}

/// Two action lists that differ at most in white space around their hotkeys
/// (and in what a plan does not read: names and code).
pub open spec fn actions_match(a: Seq<ActionView>, b: Seq<ActionView>) -> bool {
    &&& a.len() == b.len()
    &&& forall|k: int|
        0 <= k < a.len() ==> (#[trigger] a[k]).id == b[k].id && trim(a[k].hotkey) == trim(b[k].hotkey)
}

/// Two window lists that differ at most in white space around their hotkeys
/// (and in what a plan does not read: names, pages, bounds, code).
pub open spec fn windows_match(a: Seq<WindowView>, b: Seq<WindowView>) -> bool {
    &&& a.len() == b.len()
    &&& forall|i: int|
        0 <= i < a.len() ==> {
            &&& (#[trigger] a[i]).id == b[i].id
            &&& trim(a[i].toggle_hotkey) == trim(b[i].toggle_hotkey)
            &&& actions_match(a[i].hotkeys, b[i].hotkeys)
        }
}

proof fn lemma_action_requests_match(id: Seq<char>, a: Seq<ActionView>, b: Seq<ActionView>)
    requires
        actions_match(a, b),
    ensures
        requests_match(action_requests(id, a), action_requests(id, b)),
    decreases a.len(),
{
    if a.len() == 0 {
        assert(action_requests(id, a) =~= Seq::<BindRequest>::empty());
        assert(action_requests(id, b) =~= Seq::<BindRequest>::empty());
    } else {
        assert(actions_match(a.drop_last(), b.drop_last())) by {
            assert forall|k: int| 0 <= k < a.drop_last().len() implies (#[trigger] a.drop_last()[k]).id
                == b.drop_last()[k].id && trim(a.drop_last()[k].hotkey) == trim(b.drop_last()[k].hotkey) by {
                assert(a.drop_last()[k] == a[k]);
                assert(b.drop_last()[k] == b[k]);
            }
        }
        lemma_action_requests_match(id, a.drop_last(), b.drop_last());
        let la = a.last();
        let lb = b.last();
        assert(la == a[a.len() - 1]);
        assert(lb == b[b.len() - 1]);
        let ta: Seq<BindRequest> = if trim(la.hotkey).len() > 0 {
            seq![(la.hotkey, BindingView::Action(id, la.id))]
        } else {
            Seq::empty()
        };
        let tb: Seq<BindRequest> = if trim(lb.hotkey).len() > 0 {
            seq![(lb.hotkey, BindingView::Action(id, lb.id))]
        } else {
            Seq::empty()
        };
        assert(requests_match(ta, tb)) by {
            if ta.len() > 0 {
                assert(ta[0] == (la.hotkey, BindingView::Action(id, la.id)));
                assert(tb[0] == (lb.hotkey, BindingView::Action(id, lb.id)));
            }
        }
        lemma_match_concat(action_requests(id, a.drop_last()), action_requests(id, b.drop_last()), ta, tb);
    }
}

proof fn lemma_binding_requests_match(a: Seq<WindowView>, b: Seq<WindowView>)
    requires
        windows_match(a, b),
    ensures
        requests_match(binding_requests(a), binding_requests(b)),
    decreases a.len(),
{
    if a.len() == 0 {
        assert(binding_requests(a) =~= Seq::<BindRequest>::empty());
        assert(binding_requests(b) =~= Seq::<BindRequest>::empty());
    } else {
        assert(windows_match(a.drop_last(), b.drop_last())) by {
            assert forall|i: int| 0 <= i < a.drop_last().len() implies {
                &&& (#[trigger] a.drop_last()[i]).id == b.drop_last()[i].id
                &&& trim(a.drop_last()[i].toggle_hotkey) == trim(b.drop_last()[i].toggle_hotkey)
                &&& actions_match(a.drop_last()[i].hotkeys, b.drop_last()[i].hotkeys)
            } by {
                assert(a.drop_last()[i] == a[i]);
                assert(b.drop_last()[i] == b[i]);
            }
        }
        lemma_binding_requests_match(a.drop_last(), b.drop_last());
        let wa = a.last();
        let wb = b.last();
        assert(wa == a[a.len() - 1]);
        assert(wb == b[b.len() - 1]);
        let ta: Seq<BindRequest> = if trim(wa.toggle_hotkey).len() > 0 {
            seq![(wa.toggle_hotkey, BindingView::Toggle(wa.id))]
        } else {
            Seq::empty()
        };
        let tb: Seq<BindRequest> = if trim(wb.toggle_hotkey).len() > 0 {
            seq![(wb.toggle_hotkey, BindingView::Toggle(wb.id))]
        } else {
            Seq::empty()
        };
        assert(requests_match(ta, tb)) by {
            if ta.len() > 0 {
                assert(ta[0] == (wa.toggle_hotkey, BindingView::Toggle(wa.id)));
                assert(tb[0] == (wb.toggle_hotkey, BindingView::Toggle(wb.id)));
            }
        }
        lemma_action_requests_match(wa.id, wa.hotkeys, wb.hotkeys);
        lemma_match_concat(ta, tb, action_requests(wa.id, wa.hotkeys), action_requests(wb.id, wb.hotkeys));
        lemma_match_concat(binding_requests(a.drop_last()), binding_requests(b.drop_last()), window_requests(wa), window_requests(wb));
    }
}

/// White space around a hotkey does not matter: settings whose hotkeys
/// trim to the same texts (such as `h` and `" " + h + "\t"`, or a blank
/// hotkey and an empty one) come to the same bindings and the same problems.
pub proof fn lemma_plan_ignores_hotkey_padding(a: SettingsView, b: SettingsView)
    requires
        windows_match(a.windows, b.windows),
    ensures
        shortcut_plan(a) == shortcut_plan(b),
{
    lemma_binding_requests_match(a.windows, b.windows);
    lemma_plan_from_match(empty_plan(), binding_requests(a.windows), binding_requests(b.windows));
}

/// A hotkey text that is not blank.
pub open spec fn hotkey_set(h: Seq<char>) -> bool {
    trim(h).len() > 0
}

/// How many hotkeys the windows set: show/hide hotkeys and action hotkeys
/// that are not blank, counted over all windows.
pub open spec fn set_hotkey_count(ws: Seq<WindowView>) -> nat
    decreases ws.len(),
{
    if ws.len() == 0 {
        0
    } else {
        set_hotkey_count(ws.drop_last()) + (if hotkey_set(ws.last().toggle_hotkey) {
            1nat
        } else {
            0nat
        }) + ws.last().hotkeys.filter(|a: ActionView| hotkey_set(a.hotkey)).len()
    }
}

proof fn lemma_action_requests_len(id: Seq<char>, acts: Seq<ActionView>)
    ensures
        action_requests(id, acts).len() == acts.filter(|a: ActionView| hotkey_set(a.hotkey)).len(),
    decreases acts.len(),
{
    reveal(Seq::filter);
    if acts.len() > 0 {
        lemma_action_requests_len(id, acts.drop_last());
    }
}

proof fn lemma_binding_requests_len(ws: Seq<WindowView>)
    ensures
        binding_requests(ws).len() == set_hotkey_count(ws),
    decreases ws.len(),
{
    if ws.len() > 0 {
        lemma_binding_requests_len(ws.drop_last());
        lemma_action_requests_len(ws.last().id, ws.last().hotkeys);
    }
}

proof fn lemma_action_request_listed(id: Seq<char>, acts: Seq<ActionView>, k: int)
    requires
        0 <= k < acts.len(),
        hotkey_set(acts[k].hotkey),
    ensures
        action_requests(id, acts).contains((acts[k].hotkey, BindingView::Action(id, acts[k].id))),
    decreases acts.len(),
{
    let r = (acts[k].hotkey, BindingView::Action(id, acts[k].id));
    let prev = action_requests(id, acts.drop_last());
    let tail: Seq<BindRequest> = if trim(acts.last().hotkey).len() > 0 {
        seq![(acts.last().hotkey, BindingView::Action(id, acts.last().id))]
    } else {
        Seq::empty()
    };
    assert(action_requests(id, acts) == prev + tail);
    if k == acts.len() - 1 {
        assert((prev + tail)[prev.len() as int] == r);
    } else {
        assert(acts.drop_last()[k] == acts[k]);
        lemma_action_request_listed(id, acts.drop_last(), k);
        let j = choose|j: int| 0 <= j < prev.len() && prev[j] == r;
        assert((prev + tail)[j] == r);
    }
}

proof fn lemma_window_request_listed(ws: Seq<WindowView>, i: int, r: BindRequest)
    requires
        0 <= i < ws.len(),
        window_requests(ws[i]).contains(r),
    ensures
        binding_requests(ws).contains(r),
    decreases ws.len(),
{
    let prev = binding_requests(ws.drop_last());
    let last = window_requests(ws.last());
    assert(binding_requests(ws) == prev + last);
    if i == ws.len() - 1 {
        let j = choose|j: int| 0 <= j < last.len() && last[j] == r;
        assert((prev + last)[prev.len() + j] == r);
    } else {
        assert(ws.drop_last()[i] == ws[i]);
        lemma_window_request_listed(ws.drop_last(), i, r);
        let j = choose|j: int| 0 <= j < prev.len() && prev[j] == r;
        assert((prev + last)[j] == r);
    }
}

/// Every set hotkey of every window is asked for: the show/hide hotkey, if
/// not blank, and each action hotkey that is not blank, whether or not the
/// window's own show/hide hotkey is set.
pub proof fn lemma_set_hotkeys_are_requested(ws: Seq<WindowView>, i: int, k: int)
    requires
        0 <= i < ws.len(),
    ensures
        hotkey_set(ws[i].toggle_hotkey) ==> binding_requests(ws).contains(
            (ws[i].toggle_hotkey, BindingView::Toggle(ws[i].id)),
        ),
        0 <= k < ws[i].hotkeys.len() && hotkey_set(ws[i].hotkeys[k].hotkey) ==> binding_requests(ws).contains(
            (ws[i].hotkeys[k].hotkey, BindingView::Action(ws[i].id, ws[i].hotkeys[k].id)),
        ),
{
    let w = ws[i];
    let head: Seq<BindRequest> = if trim(w.toggle_hotkey).len() > 0 {
        seq![(w.toggle_hotkey, BindingView::Toggle(w.id))]
    } else {
        Seq::empty()
    };
    let acts = action_requests(w.id, w.hotkeys);
    assert(window_requests(w) == head + acts);
    if hotkey_set(w.toggle_hotkey) {
        assert((head + acts)[0] == (w.toggle_hotkey, BindingView::Toggle(w.id)));
        lemma_window_request_listed(ws, i, (w.toggle_hotkey, BindingView::Toggle(w.id)));
    }
    if 0 <= k < w.hotkeys.len() && hotkey_set(w.hotkeys[k].hotkey) {
        let r = (w.hotkeys[k].hotkey, BindingView::Action(w.id, w.hotkeys[k].id));
        lemma_action_request_listed(w.id, w.hotkeys, k);
        let j = choose|j: int| 0 <= j < acts.len() && acts[j] == r;
        assert((head + acts)[head.len() + j] == r);
        lemma_window_request_listed(ws, i, r);
    }
}

/// Problems once reported stay reported.
proof fn lemma_failed_hotkeys_are_reported(reqs: Seq<BindRequest>, i: int)
    requires
        0 <= i < reqs.len(),
        parsed_hotkey(trim(reqs[i].0)) is Err,
    ensures
        plan_from(empty_plan(), reqs).issues.contains(
            (trim(reqs[i].0), parsed_hotkey(trim(reqs[i].0))->Err_0),
        ),
    decreases reqs.len(),
{
    let x = (trim(reqs[i].0), parsed_hotkey(trim(reqs[i].0))->Err_0);
    let p = plan_from(empty_plan(), reqs.drop_last());
    let q = plan_from(empty_plan(), reqs);
    if i < reqs.len() - 1 {
        lemma_failed_hotkeys_are_reported(reqs.drop_last(), i);
        assert(reqs.drop_last()[i] == reqs[i]);
        let j = choose|j: int| 0 <= j < p.issues.len() && p.issues[j] == x;
        assert(q.issues[j] == x);
    } else {
        assert(q.issues[p.issues.len() as int] == x);
    }
}

/// Every set hotkey takes effect: one that parses is bound (to its own
/// request or, for a duplicate, to the earlier one), one that does not is
/// reported with the parser's message.
pub proof fn lemma_set_hotkey_takes_effect(s: SettingsView, r: BindRequest)
    requires
        binding_requests(s.windows).contains(r),
    ensures
        match parsed_hotkey(trim(r.0)) {
            Ok(key) => shortcut_plan(s).keys.contains(key),
            Err(e) => shortcut_plan(s).issues.contains((trim(r.0), e)),
        },
{
    let reqs = binding_requests(s.windows);
    let j = choose|j: int| 0 <= j < reqs.len() && reqs[j] == r;
    if parsed_hotkey(trim(r.0)) is Ok {
        lemma_parsed_hotkeys_are_bound(reqs, j);
    } else {
        lemma_failed_hotkeys_are_reported(reqs, j);
    }
}

/// Each set hotkey comes to exactly one binding or one problem: the plan's
/// bindings and problems together number the set hotkeys of all windows.
pub proof fn lemma_plan_counts_set_hotkeys(s: SettingsView)
    ensures
        shortcut_plan(s).bindings.len() + shortcut_plan(s).issues.len() == set_hotkey_count(s.windows),
{
    lemma_plan_shape(binding_requests(s.windows));
    lemma_binding_requests_len(s.windows);
}

pub open spec fn registration_failed_prefix() -> Seq<char> {
    "注册失败："@
}

/// The problem reported when the system refuses to register a hotkey.
pub fn registration_issue(hotkey: String, error: &str) -> (r: ShortcutIssue)
    ensures
        r.hotkey@ == hotkey@,
        r.reason@ == registration_failed_prefix() + error@,
{
    let mut reason = String::from_str("注册失败：");
    reason.append(error);
    ShortcutIssue { hotkey, reason }
}

} // verus!
