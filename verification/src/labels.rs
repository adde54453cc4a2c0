//! Labels of an overlay window and of its child web views.
//!
//! A window with id `id` is labelled `w-{id}`; its pill button, drop-down
//! menu and content page are `w-{id}:ui`, `w-{id}:menu` and `w-{id}:content`.
use vstd::prelude::*;
use vstd::string::StringExecFns;
use crate::text::{chars_of, ends_with, range_ends_with, starts_with, string_of_range, vec_starts_with};

verus! {

pub open spec fn label_prefix() -> Seq<char> {
    seq!['w', '-']
}

pub open spec fn ui_suffix() -> Seq<char> {
    seq![':', 'u', 'i']
}

pub open spec fn menu_suffix() -> Seq<char> {
    seq![':', 'm', 'e', 'n', 'u']
}

pub open spec fn content_suffix() -> Seq<char> {
    seq![':', 'c', 'o', 'n', 't', 'e', 'n', 't']
}

pub open spec fn window_label_of(id: Seq<char>) -> Seq<char> {
    label_prefix() + id
}

pub open spec fn ui_label_of(id: Seq<char>) -> Seq<char> {
    label_prefix() + id + ui_suffix()
}

pub open spec fn menu_label_of(id: Seq<char>) -> Seq<char> {
    label_prefix() + id + menu_suffix()
}

pub open spec fn content_label_of(id: Seq<char>) -> Seq<char> {
    label_prefix() + id + content_suffix()
}

/// What follows `w-` with one known suffix (`:ui`, else `:menu`, else
/// `:content`) removed, if any.
pub open spec fn label_core(rest: Seq<char>) -> Seq<char> {
    if ends_with(rest, ui_suffix()) {
        rest.subrange(0, rest.len() - 3)
    } else if ends_with(rest, menu_suffix()) {
        rest.subrange(0, rest.len() - 5)
    } else if ends_with(rest, content_suffix()) {
        rest.subrange(0, rest.len() - 8)
    } else {
        rest
    }
}

/// The window id that a label names: labels that do not start with `w-`,
/// or that leave nothing once prefix and suffix are taken off, name none.
pub open spec fn id_of_label(label: Seq<char>) -> Option<Seq<char>> {
    if !starts_with(label, label_prefix()) {
        None
    } else {
        let core = label_core(label.subrange(2, label.len() as int));
        if core.len() == 0 {
            None
        } else {
            Some(core)
        }
    }
}

fn literal_w() -> (s: String)
    ensures
        s@ == label_prefix(),
{
    let s = String::from_str("w-");
    proof {
        reveal_strlit("w-");
    }
    assert(s@ =~= label_prefix());
    s
}

/// The label of the overlay window itself.
pub fn window_label(id: &str) -> (r: String)
    ensures
        r@ == window_label_of(id@),
{
    let mut s = literal_w();
    s.append(id);
    s
}

/// The label of the pill button web view.
pub fn ui_label(id: &str) -> (r: String)
    ensures
        r@ == ui_label_of(id@),
{
    let mut s = literal_w();
    s.append(id);
    s.append(":ui");
    proof {
        reveal_strlit(":ui");
    }
    assert(s@ =~= ui_label_of(id@));
    s
}

/// The label of the drop-down menu web view.
pub fn menu_label(id: &str) -> (r: String)
    ensures
        r@ == menu_label_of(id@),
{
    let mut s = literal_w();
    s.append(id);
    s.append(":menu");
    proof {
        reveal_strlit(":menu");
    }
    assert(s@ =~= menu_label_of(id@));
    s
}

/// The label of the content page web view.
pub fn content_label(id: &str) -> (r: String)
    ensures
        r@ == content_label_of(id@),
{
    let mut s = literal_w();
    s.append(id);
    s.append(":content");
    proof {
        reveal_strlit(":content");
    }
    assert(s@ =~= content_label_of(id@));
    s
}

/// The window id named by a window or web view label. Only the known
/// suffixes are taken off, so an id that itself holds `:` is kept whole.
pub fn id_from_label(label: &str) -> (r: Option<String>)
    ensures
        match r {
            Some(id) => id_of_label(label@) == Some(id@),
            None => id_of_label(label@) is None,
        },
{
    let v = chars_of(label);
    let prefix = chars_of("w-");
    let ui = chars_of(":ui");
    let menu = chars_of(":menu");
    let content = chars_of(":content");
    proof {
        reveal_strlit("w-");
        reveal_strlit(":ui");
        reveal_strlit(":menu");
        reveal_strlit(":content");
        assert(prefix@ =~= label_prefix());
        assert(ui@ =~= ui_suffix());
        assert(menu@ =~= menu_suffix());
        assert(content@ =~= content_suffix());
    }
    if !vec_starts_with(&v, &prefix) {
        return None;
    }
    let n = v.len();
    let ghost rest = v@.subrange(2, n as int);
    let end = if range_ends_with(&v, 2, &ui) {
        n - 3
    } else if range_ends_with(&v, 2, &menu) {
        n - 5
    } else if range_ends_with(&v, 2, &content) {
        n - 8
    } else {
        n
    };
    assert(v@.subrange(2, end as int) =~= label_core(rest));
    if end == 2 {
        None
    } else {
        Some(string_of_range(&v, 2, end))
    }
}

/// The three child web view labels always give back the id they were made
/// from (for any non-empty id).
pub proof fn lemma_child_labels_name_their_window(id: Seq<char>)
    requires
        id.len() > 0,
    ensures
        id_of_label(ui_label_of(id)) == Some(id),
        id_of_label(menu_label_of(id)) == Some(id),
        id_of_label(content_label_of(id)) == Some(id),
{
    let u = ui_label_of(id);
    let m = menu_label_of(id);
    let c = content_label_of(id);
    assert(u.subrange(0, 2) =~= label_prefix());
    assert(m.subrange(0, 2) =~= label_prefix());
    assert(c.subrange(0, 2) =~= label_prefix());
    let ur = u.subrange(2, u.len() as int);
    let mr = m.subrange(2, m.len() as int);
    let cr = c.subrange(2, c.len() as int);
    assert(ur =~= id + ui_suffix());
    assert(mr =~= id + menu_suffix());
    assert(cr =~= id + content_suffix());
    assert(ur.subrange(ur.len() - 3, ur.len() as int) =~= ui_suffix());
    assert(ur.subrange(0, ur.len() - 3) =~= id);
    assert(mr.subrange(mr.len() - 3, mr.len() as int)[0] == 'e');
    assert(mr.subrange(mr.len() - 5, mr.len() as int) =~= menu_suffix());
    assert(mr.subrange(0, mr.len() - 5) =~= id);
    assert(cr.subrange(cr.len() - 3, cr.len() as int)[0] == 'e');
    assert(cr.subrange(cr.len() - 5, cr.len() as int)[0] == 'n');
    assert(cr.subrange(cr.len() - 8, cr.len() as int) =~= content_suffix());
    assert(cr.subrange(0, cr.len() - 8) =~= id);
}

/// The window label gives back its id unless the id itself ends in one of
/// the child suffixes (then that suffix is taken off as well).
pub proof fn lemma_window_label_names_its_window(id: Seq<char>)
    requires
        id.len() > 0,
        !ends_with(id, ui_suffix()),
        !ends_with(id, menu_suffix()),
        !ends_with(id, content_suffix()),
    ensures
        id_of_label(window_label_of(id)) == Some(id),
{
    let w = window_label_of(id);
    assert(w.subrange(0, 2) =~= label_prefix());
    assert(w.subrange(2, w.len() as int) =~= id);
}

} // verus!
