//! The tabs of the main window. Each view is a tab in one of two notebooks; the user can move and
//! reorder them, and the layout is saved on exit and restored on start by the tab ids.

use crate::config::str_equal;
use vstd::prelude::*;

verus! {

/// Number of tabs.
pub const NUM_TABS: usize = 8;

/// Id of each tab, by position.
pub open spec fn tab_ids() -> Seq<Seq<char>> {
    seq![
        "skew_t"@,
        "hodograph_area"@,
        "fire_plume_container"@,
        "text_area_container"@,
        "control_area"@,
        "profiles_area_container"@,
        "indexes_scrolled_window"@,
        "provider_data_text_container"@,
    ]
}

/// Label of each tab, by position.
pub open spec fn tab_labels() -> Seq<Seq<char>> {
    seq![
        "Skew-T"@,
        "Hodograph"@,
        "Fire Plume"@,
        "Text"@,
        "Controls"@,
        "Profiles"@,
        "Indexes"@,
        "Provider Data"@,
    ]
}

/// Id of tab `i`.
pub fn tab_id(i: usize) -> (id: &'static str)
    requires
        i < NUM_TABS,
    ensures
        id@ == tab_ids()[i as int],
{
    match i {
        0 => "skew_t",
        1 => "hodograph_area",
        2 => "fire_plume_container",
        3 => "text_area_container",
        4 => "control_area",
        5 => "profiles_area_container",
        6 => "indexes_scrolled_window",
        _ => "provider_data_text_container",
    }
}

/// Label of tab `i`.
pub fn tab_label(i: usize) -> (label: &'static str)
    requires
        i < NUM_TABS,
    ensures
        label@ == tab_labels()[i as int],
{
    match i {
        0 => "Skew-T",
        1 => "Hodograph",
        2 => "Fire Plume",
        3 => "Text",
        4 => "Controls",
        5 => "Profiles",
        6 => "Indexes",
        _ => "Provider Data",
    }
}

/// Position of the first tab whose id is `id`.
pub open spec fn tab_position_spec(id: Seq<char>) -> Option<usize> {
    if exists|i: int| 0 <= i < NUM_TABS && tab_ids()[i] == id {
        Some((choose|i: int| 0 <= i < NUM_TABS && tab_ids()[i] == id && forall|j: int| 0 <= j < i ==> tab_ids()[j] != id) as usize)
    } else {
        None
    }
}

/// Position of the tab with id `id`, if there is one.
pub fn tab_position(id: &str) -> (r: Option<usize>)
    ensures
        match r {
            Some(i) => i < NUM_TABS && tab_ids()[i as int] == id@ && forall|j: int| 0 <= j < i ==> tab_ids()[j] != id@,
            None => forall|i: int| 0 <= i < NUM_TABS ==> tab_ids()[i] != id@,
        },
{
    let mut i: usize = 0;
    while i < NUM_TABS
        invariant
            i <= NUM_TABS,
            forall|j: int| 0 <= j < i ==> tab_ids()[j] != id@,
        decreases NUM_TABS - i,
    {
        if str_equal(tab_id(i), id) {
            return Some(i);
        }
        i += 1;
    }
    None
}

/// Neither notebook holds a tab twice and no tab is in both: the layout of two notebooks.
pub open spec fn disjoint_tabs(s: Seq<usize>, t: Seq<usize>) -> bool {
    &&& s.no_duplicates()
    &&& t.no_duplicates()
    &&& forall|i: int, j: int| 0 <= i < s.len() && 0 <= j < t.len() ==> s[i] != t[j]
}

/// `s` without `v`.
pub open spec fn without(s: Seq<usize>, v: usize) -> Seq<usize> {
    if s.contains(v) {
        s.remove(s.index_of(v))
    } else {
        s
    }
}

/// Notebooks after moving tab `v` to the end of `target`: it leaves whichever notebook held it.
pub open spec fn move_tab(target: Seq<usize>, other: Seq<usize>, v: usize) -> (Seq<usize>, Seq<usize>) {
    if target.contains(v) {
        (without(target, v).push(v), other)
    } else {
        (target.push(v), without(other, v))
    }
}

/// Notebooks after restoring the saved tabs `ids` into `target`, one after the other; an id that
/// names no tab is skipped.
pub open spec fn restore_tabs_spec(ids: Seq<Seq<char>>, target: Seq<usize>, other: Seq<usize>) -> (Seq<usize>, Seq<usize>)
    decreases ids.len(),
{
    if ids.len() == 0 {
        (target, other)
    } else {
        let prev = restore_tabs_spec(ids.drop_last(), target, other);
        match tab_position_spec(ids.last()) {
            Some(v) => move_tab(prev.0, prev.1, v),
            None => prev,
        }
    }
}

/// Removes `v` from `s`, which holds it once.
fn remove_tab(s: &mut Vec<usize>, v: usize) -> (found: bool)
    requires
        old(s)@.no_duplicates(),
    ensures
        found == old(s)@.contains(v),
        final(s)@ == without(old(s)@, v),
        final(s)@.no_duplicates(),
{
    let mut p: usize = 0;
    while p < s.len()
        invariant
            p <= s.len(),
            s@ == old(s)@,
            old(s)@.no_duplicates(),
            forall|j: int| 0 <= j < p ==> s@[j] != v,
        decreases s.len() - p,
    {
        if s[p] == v {
            let ghost pre = s@;
            proof {
                assert(pre.contains(v));
                let q = pre.index_of(v);
                assert(0 <= q < pre.len() && pre[q] == v);
                if q != p {
                    assert(pre[q] != pre[p as int]);
                }
                assert(pre.index_of(v) == p);
            }
            s.remove(p);
            proof {
                assert(s@ == pre.remove(p as int));
                assert forall|i: int, j: int| 0 <= i < s@.len() && 0 <= j < s@.len() && i != j implies s@[i] != s@[j] by {
                    let oi = if i < p { i } else { i + 1 };
                    let oj = if j < p { j } else { j + 1 };
                    assert(s@[i] == pre[oi] && s@[j] == pre[oj]);
                }
            }
            return true;
        }
        p += 1;
    }
    false
}

/// Does `s` hold `v`?
fn holds_tab(s: &Vec<usize>, v: usize) -> (r: bool)
    ensures
        r == s@.contains(v),
{
    let mut p: usize = 0;
    while p < s.len()
        invariant
            p <= s.len(),
            forall|j: int| 0 <= j < p ==> s@[j] != v,
        decreases s.len() - p,
    {
        if s[p] == v {
            return true;
        }
        p += 1;
    }
    false
}

proof fn lemma_without_contents(s: Seq<usize>, v: usize)
    requires
        s.no_duplicates(),
    ensures
        without(s, v).no_duplicates(),
        !without(s, v).contains(v),
        forall|x: usize| x != v ==> (#[trigger] without(s, v).contains(x) <==> s.contains(x)),
{
    if s.contains(v) {
        let q = s.index_of(v);
        let r = s.remove(q);
        assert forall|x: usize| x != v implies (#[trigger] r.contains(x) <==> s.contains(x)) by {
            if s.contains(x) {
                let i = choose|i: int| 0 <= i < s.len() && s[i] == x;
                if i < q {
                    assert(r[i] == x);
                } else {
                    assert(i != q);
                    assert(r[i - 1] == x);
                }
            }
            if r.contains(x) {
                let i = choose|i: int| 0 <= i < r.len() && r[i] == x;
                if i < q {
                    assert(s[i] == x);
                } else {
                    assert(s[i + 1] == x);
                }
            }
        }
        if r.contains(v) {
            let i = choose|i: int| 0 <= i < r.len() && r[i] == v;
            if i < q {
                assert(s[i] == v);
            } else {
                assert(s[i + 1] == v);
            }
        }
        assert forall|i: int, j: int| 0 <= i < r.len() && 0 <= j < r.len() && i != j implies r[i] != r[j] by {
            let oi = if i < q { i } else { i + 1 };
            let oj = if j < q { j } else { j + 1 };
            assert(r[i] == s[oi] && r[j] == s[oj]);
        }
    }
}

/// Moving one tab keeps the notebooks disjoint, keeps every tab that was there, adds `v`, and
/// puts `v` last in `target`.
pub proof fn lemma_move_tab_keeps_layout(target: Seq<usize>, other: Seq<usize>, v: usize)
    requires
        disjoint_tabs(target, other),
    ensures
        disjoint_tabs(move_tab(target, other, v).0, move_tab(target, other, v).1),
        move_tab(target, other, v).0.last() == v,
        forall|x: usize|
            (#[trigger] move_tab(target, other, v).0.contains(x) || move_tab(target, other, v).1.contains(x))
                <==> (target.contains(x) || other.contains(x) || x == v),
{
    lemma_without_contents(target, v);
    lemma_without_contents(other, v);
    let (t2, o2) = move_tab(target, other, v);
    assert(t2.last() == v);
    assert forall|x: usize| (#[trigger] t2.contains(x) || o2.contains(x)) <==> (target.contains(x) || other.contains(x) || x == v) by {
        if x == v {
            assert(t2[t2.len() - 1] == v);
        } else {
            let base = if target.contains(v) { without(target, v) } else { target };
            assert(t2 == base.push(v));
            if base.contains(x) {
                let i = choose|i: int| 0 <= i < base.len() && base[i] == x;
                assert(t2[i] == x);
            }
            if t2.contains(x) {
                let i = choose|i: int| 0 <= i < t2.len() && t2[i] == x;
                assert(i < base.len());
                assert(base[i] == x);
            }
        }
    }
    let base = if target.contains(v) { without(target, v) } else { target };
    assert(!base.contains(v));
    assert forall|i: int, j: int| 0 <= i < t2.len() && 0 <= j < t2.len() && i != j implies t2[i] != t2[j] by {
        if i < base.len() && j < base.len() {
        } else if i < base.len() {
            assert(t2[j] == v);
            assert(base.contains(t2[i]));
        } else if j < base.len() {
            assert(t2[i] == v);
            assert(base.contains(t2[j]));
        }
    }
    assert forall|i: int, j: int| 0 <= i < t2.len() && 0 <= j < o2.len() implies t2[i] != o2[j] by {
        assert(o2.contains(o2[j]));
        if t2[i] == o2[j] {
            if t2[i] == v {
                if target.contains(v) {
                    assert(other.contains(v));
                    let k = choose|k: int| 0 <= k < target.len() && target[k] == v;
                    let l = choose|l: int| 0 <= l < other.len() && other[l] == v;
                } else {
                    assert(!o2.contains(v));
                }
            } else {
                assert(i < base.len());
                assert(base.contains(t2[i]));
                assert(target.contains(t2[i]));
                assert(other.contains(o2[j]));
                let k = choose|k: int| 0 <= k < target.len() && target[k] == t2[i];
                let l = choose|l: int| 0 <= l < other.len() && other[l] == o2[j];
            }
        }
    }
}

/// Restores the saved tabs `ids` into the notebook `target`, in order: each named tab is taken out
/// of whichever notebook holds it and added at the end of `target`; ids that name no tab are
/// skipped.
pub fn restore_tabs(ids: &Vec<String>, target: &mut Vec<usize>, other: &mut Vec<usize>)
    requires
        disjoint_tabs(old(target)@, old(other)@),
    ensures
        disjoint_tabs(final(target)@, final(other)@),
        (final(target)@, final(other)@) == restore_tabs_spec(ids@.map_values(|s: String| s@), old(target)@, old(other)@),
{
    let ghost all = ids@.map_values(|s: String| s@);
    let mut k: usize = 0;
    while k < ids.len()
        invariant
            k <= ids.len(),
            all == ids@.map_values(|s: String| s@),
            disjoint_tabs(target@, other@),
            (target@, other@) == restore_tabs_spec(all.take(k as int), old(target)@, old(other)@),
        decreases ids.len() - k,
    {
        proof {
            assert(all.take(k as int + 1).drop_last() =~= all.take(k as int));
            assert(all.take(k as int + 1).last() == ids@[k as int]@);
        }
        match tab_position(ids[k].as_str()) {
            Some(v) => {
                proof {
                    lemma_tab_position_agrees(ids@[k as int]@, v);
                    lemma_move_tab_keeps_layout(target@, other@, v);
                }
                let ghost before_t = target@;
                let ghost before_o = other@;
                if holds_tab(target, v) {
                    remove_tab(target, v);
                } else {
                    remove_tab(other, v);
                }
                target.push(v);
                proof {
                    assert((target@, other@) == move_tab(before_t, before_o, v));
                }
            },
            None => {
                proof {
                    lemma_tab_position_agrees_none(ids@[k as int]@);
                }
            },
        }
        k += 1;
    }
    proof {
        assert(all.take(ids.len() as int) =~= all);
    }
}

proof fn lemma_tab_position_agrees(id: Seq<char>, v: usize)
    requires
        v < NUM_TABS,
        tab_ids()[v as int] == id,
        forall|j: int| 0 <= j < v ==> tab_ids()[j] != id,
    ensures
        tab_position_spec(id) == Some(v),
{
    assert(exists|i: int| 0 <= i < NUM_TABS && tab_ids()[i] == id);
    let c = choose|i: int| 0 <= i < NUM_TABS && tab_ids()[i] == id && forall|j: int| 0 <= j < i ==> tab_ids()[j] != id;
    assert(0 <= v < NUM_TABS && tab_ids()[v as int] == id && forall|j: int| 0 <= j < v ==> tab_ids()[j] != id);
    if c < v {
        assert(tab_ids()[c] != id);
    } else if c > v {
        assert(tab_ids()[v as int] != id);
    }
}

proof fn lemma_tab_position_agrees_none(id: Seq<char>)
    requires
        forall|i: int| 0 <= i < NUM_TABS ==> tab_ids()[i] != id,
    ensures
        tab_position_spec(id).is_none(),
{
}

/// Restoring saved tabs keeps the two notebooks a layout: no tab twice, none in both, and the
/// tabs present are those that were present plus those restored.
pub proof fn lemma_restore_tabs_keeps_layout(ids: Seq<Seq<char>>, target: Seq<usize>, other: Seq<usize>)
    requires
        disjoint_tabs(target, other),
    ensures
        disjoint_tabs(restore_tabs_spec(ids, target, other).0, restore_tabs_spec(ids, target, other).1),
        forall|x: usize|
            (#[trigger] restore_tabs_spec(ids, target, other).0.contains(x) || restore_tabs_spec(ids, target, other).1.contains(x))
                <==> (target.contains(x) || other.contains(x) || exists|i: int|
                0 <= i < ids.len() && tab_position_spec(ids[i]) == Some(x)),
    decreases ids.len(),
{
    if ids.len() > 0 {
        let rest = ids.drop_last();
        lemma_restore_tabs_keeps_layout(rest, target, other);
        let prev = restore_tabs_spec(rest, target, other);
        match tab_position_spec(ids.last()) {
            Some(v) => {
                lemma_move_tab_keeps_layout(prev.0, prev.1, v);
            },
            None => {},
        }
        let (t, o) = restore_tabs_spec(ids, target, other);
        assert forall|x: usize| (#[trigger] t.contains(x) || o.contains(x)) <==> (target.contains(x) || other.contains(x) || exists|i: int|
            0 <= i < ids.len() && tab_position_spec(ids[i]) == Some(x)) by {
            let in_prev = prev.0.contains(x) || prev.1.contains(x);
            assert(in_prev <==> (target.contains(x) || other.contains(x) || exists|i: int|
                0 <= i < rest.len() && tab_position_spec(rest[i]) == Some(x)));
            if exists|i: int| 0 <= i < ids.len() && tab_position_spec(ids[i]) == Some(x) {
                let i = choose|i: int| 0 <= i < ids.len() && tab_position_spec(ids[i]) == Some(x);
                if i < ids.len() - 1 {
                    assert(rest[i] == ids[i]);
                }
            }
            if exists|i: int| 0 <= i < rest.len() && tab_position_spec(rest[i]) == Some(x) {
                let i = choose|i: int| 0 <= i < rest.len() && tab_position_spec(rest[i]) == Some(x);
                assert(ids[i] == rest[i]);
            }
            match tab_position_spec(ids.last()) {
                Some(v) => {
                    assert((move_tab(prev.0, prev.1, v).0.contains(x) || move_tab(prev.0, prev.1, v).1.contains(x))
                        <==> (in_prev || x == v));
                },
                None => {},
            }
        }
    }
}

/// The layout to save: the ids of the tabs of a notebook, in order.
pub fn save_tabs(notebook: &Vec<usize>) -> (ids: Vec<String>)
    requires
        forall|i: int| 0 <= i < notebook@.len() ==> #[trigger] notebook@[i] < NUM_TABS,
    ensures
        ids@.len() == notebook@.len(),
        forall|i: int| 0 <= i < ids@.len() ==> #[trigger] ids@[i]@ == tab_ids()[notebook@[i] as int],
{
    let mut ids: Vec<String> = Vec::new();
    let mut i: usize = 0;
    while i < notebook.len()
        invariant
            i <= notebook@.len(),
            forall|j: int| 0 <= j < notebook@.len() ==> #[trigger] notebook@[j] < NUM_TABS,
            ids@.len() == i,
            forall|j: int| 0 <= j < i ==> #[trigger] ids@[j]@ == tab_ids()[notebook@[j] as int],
        decreases notebook@.len() - i,
    {
        ids.push(String::from_str(tab_id(notebook[i])));
        i += 1;
    }
    ids
}

/// Restores the saved layout at start-up: when any tab was saved, the left notebook's tabs are
/// restored into the left notebook, then the right notebook's tabs into the right one, and the
/// saved pages are to be selected. Returns whether the saved layout was applied.
pub fn layout_tabs_window(left_tabs: &Vec<String>, right_tabs: &Vec<String>, left: &mut Vec<usize>, right: &mut Vec<usize>) -> (restored: bool)
    requires
        disjoint_tabs(old(left)@, old(right)@),
    ensures
        disjoint_tabs(final(left)@, final(right)@),
        restored == !(left_tabs@.len() == 0 && right_tabs@.len() == 0),
        !restored ==> final(left)@ == old(left)@ && final(right)@ == old(right)@,
        restored ==> {
            let first = restore_tabs_spec(left_tabs@.map_values(|s: String| s@), old(left)@, old(right)@);
            let second = restore_tabs_spec(right_tabs@.map_values(|s: String| s@), first.1, first.0);
            final(left)@ == second.1 && final(right)@ == second.0
        },
{
    if left_tabs.len() == 0 && right_tabs.len() == 0 {
        return false;
    }
    restore_tabs(left_tabs, left, right);
    proof {
        assert(disjoint_tabs(right@, left@)) by {
            assert forall|i: int, j: int| 0 <= i < right@.len() && 0 <= j < left@.len() implies right@[i] != left@[j] by {
                assert(left@[j] != right@[i]);
            }
        }
    }
    restore_tabs(right_tabs, right, left);
    proof {
        assert forall|i: int, j: int| 0 <= i < left@.len() && 0 <= j < right@.len() implies left@[i] != right@[j] by {
            assert(right@[j] != left@[i]);
        }
    }
    true
}

/// The page number to save for a notebook: its current page, or 0 when it has none.
pub fn saved_page(current_page: Option<u32>) -> (page: i32)
    ensures
        page == (match current_page {
            Some(p) => p as i32,
            None => 0,
        }),
{
    match current_page {
        Some(p) => p as i32,
        None => 0,
    }
}

/// Saving a notebook's tabs and restoring them into an empty layout gives the notebook back.
pub proof fn lemma_save_then_restore(notebook: Seq<usize>)
    requires
        notebook.no_duplicates(),
        forall|i: int| 0 <= i < notebook.len() ==> #[trigger] notebook[i] < NUM_TABS,
    ensures
        restore_tabs_spec(Seq::new(notebook.len(), |i: int| tab_ids()[notebook[i] as int]), Seq::empty(), Seq::empty()).0 == notebook,
    decreases notebook.len(),
{
    lemma_tab_ids_distinct();
    let ids = Seq::new(notebook.len(), |i: int| tab_ids()[notebook[i] as int]);
    if notebook.len() > 0 {
        let rest = notebook.drop_last();
        assert(rest.no_duplicates());
        lemma_save_then_restore(rest);
        assert(ids.drop_last() =~= Seq::new(rest.len(), |i: int| tab_ids()[rest[i] as int]));
        let v = notebook.last();
        lemma_tab_position_agrees(ids.last(), v);
        let prev = restore_tabs_spec(ids.drop_last(), Seq::empty(), Seq::empty());
        assert(prev.0 == rest);
        if rest.contains(v) {
            let i = choose|i: int| 0 <= i < rest.len() && rest[i] == v;
            assert(notebook[i] == notebook[notebook.len() - 1]);
        }
        assert(rest.push(v) =~= notebook);
    }
}

/// The tab ids are all different.
proof fn lemma_tab_ids_distinct()
    ensures
        forall|i: int, j: int| 0 <= i < NUM_TABS && 0 <= j < NUM_TABS && i != j ==> tab_ids()[i] != tab_ids()[j],
{
    reveal_strlit("skew_t");
    reveal_strlit("hodograph_area");
    reveal_strlit("fire_plume_container");
    reveal_strlit("text_area_container");
    reveal_strlit("control_area");
    reveal_strlit("profiles_area_container");
    reveal_strlit("indexes_scrolled_window");
    reveal_strlit("provider_data_text_container");
    assert forall|i: int, j: int| 0 <= i < NUM_TABS && 0 <= j < NUM_TABS && i != j implies tab_ids()[i] != tab_ids()[j] by {
        if tab_ids()[i] == tab_ids()[j] {
            assert(tab_ids()[i].len() == tab_ids()[j].len());
            assert(tab_ids()[i][0] == tab_ids()[j][0]);
            assert(tab_ids()[i][1] == tab_ids()[j][1]);
        }
    }
}

} // verus!
