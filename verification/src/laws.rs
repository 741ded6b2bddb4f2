use vstd::prelude::*;

use crate::app::{
    action_outcome, clamped_selection, key_outcome, least_depth, nodes_of, row_above, row_below,
    target_place, well_formed, with_menu, AppView, Effect,
};
use crate::keys::{Key, KeyCode};
use crate::menu::{action_at, initial_menu, kill_prompt, MenuView, ProcessAction, ACTION_COUNT};
use crate::process::{is_table, ProcessInfo, ProcessSample, SortColumn};
use crate::sort::{
    lemma_more_memory_first, lemma_name_order, lemma_row_order_antisym, lemma_stable_sort_unique,
    row_order, stably_sorted, ties,
};
use crate::text::lowercase;

verus! {

/// On the dashboard (no tree view, menu, filter prompt or help open).
pub open spec fn on_dashboard(v: AppView) -> bool {
    !v.show_process_tree && !v.menu.visible && !v.filter_mode && !v.show_help
}

/// A key press with no modifier.
pub open spec fn plain(c: KeyCode) -> Key {
    Key { code: c, ctrl: false }
}

/// Pressing `S` twice on the dashboard restores the sort direction.
pub proof fn lemma_reverse_twice(v: AppView)
    requires
        on_dashboard(v),
    ensures
        key_outcome(key_outcome(v, plain(KeyCode::Char('S'))).0, plain(KeyCode::Char('S'))).0.sort_ascending
            == v.sort_ascending,
{
}

/// Pressing `1` twice on the dashboard restores the per-core view, with the
/// core list scrolled back to the top.
pub proof fn lemma_per_core_toggle_twice(v: AppView)
    requires
        on_dashboard(v),
    ensures
        ({
            let w = key_outcome(key_outcome(v, plain(KeyCode::Char('1'))).0, plain(KeyCode::Char('1'))).0;
            w.show_per_core == v.show_per_core && w.core_scroll_offset == 0
        }),
{
}

/// While help is shown (and nothing above it), any key dismisses it and
/// does nothing else.
pub proof fn lemma_any_key_closes_help(v: AppView, key: Key)
    requires
        !v.show_process_tree,
        !v.menu.visible,
        !v.filter_mode,
        v.show_help,
    ensures
        key_outcome(v, key) == (AppView { show_help: false, ..v }, Effect::Nothing),
{
}

/// In the action list, moving down then up comes back to the same action,
/// and moving down once per action comes back to where it started.
pub proof fn lemma_menu_wraps(v: AppView)
    requires
        well_formed(v),
        v.menu.visible,
        v.menu.feedback is None,
        !v.menu.confirm_mode,
    ensures
        key_outcome(key_outcome(v, plain(KeyCode::Down)).0, plain(KeyCode::Up)).0.menu.selected
            == v.menu.selected,
        ({
            let down = |w: AppView| key_outcome(w, plain(KeyCode::Down)).0;
            down(down(down(down(down(v))))).menu.selected == v.menu.selected
        }),
{
}

/// A signal is only sent from the menu's confirmation step: choosing a
/// kill action first asks for confirmation.
pub proof fn lemma_signal_needs_confirmation(v: AppView, key: Key)
    requires
        key_outcome(v, key).1 is Signal,
    ensures
        v.menu.visible,
        v.menu.confirm_mode,
        v.menu.feedback is None,
{
}

/// `K` on the dashboard, with a row selected, asks to kill that row's
/// process: the menu opens on it with the kill action highlighted and its
/// confirmation pending, and nothing is sent yet; confirming with `y` then
/// sends the graceful termination signal to that process.
pub proof fn lemma_kill_key_asks_first(v: AppView, i: usize)
    requires
        on_dashboard(v),
        v.selected == Some(i),
        i < v.rows.len(),
    ensures
        ({
            let (w, e) = key_outcome(v, plain(KeyCode::Char('K')));
            &&& e is Nothing
            &&& w == with_menu(v, kill_prompt(v.rows[i as int].pid, v.rows[i as int].name@))
            &&& w.menu.visible && w.menu.confirm_mode
            &&& action_at(w.menu.selected as int) == ProcessAction::Kill
            &&& key_outcome(w, plain(KeyCode::Char('y'))).1 == (Effect::Signal {
                pid: v.rows[i as int].pid,
                force: false,
            })
        }),
{
}

/// Running a kill action from the menu only asks for its confirmation:
/// nothing is sent and nothing else changes. No other action asks for
/// confirmation, so a pending confirmation is always for a kill action.
pub proof fn lemma_kill_actions_ask_first(v: AppView)
    requires
        !v.menu.confirm_mode,
    ensures
        ({
            let (w, e) = action_outcome(v);
            let a = action_at(v.menu.selected as int);
            &&& (a == ProcessAction::Kill || a == ProcessAction::ForceKill) ==> w == with_menu(
                v,
                MenuView { confirm_mode: true, ..v.menu },
            ) && e is Nothing
            &&& !(a == ProcessAction::Kill || a == ProcessAction::ForceKill) ==> !w.menu.confirm_mode
            &&& w.menu.confirm_mode ==> (action_at(w.menu.selected as int) == ProcessAction::Kill
                || action_at(w.menu.selected as int) == ProcessAction::ForceKill)
        }),
{
}

/// `Esc` in the action list closes the menu and resets it to the state it
/// had before any process was chosen.
pub proof fn lemma_escape_resets_menu(v: AppView)
    requires
        v.menu.visible,
        v.menu.feedback is None,
        !v.menu.confirm_mode,
    ensures
        key_outcome(v, plain(KeyCode::Esc)) == (with_menu(v, initial_menu()), Effect::Nothing),
{
}

/// Typing a character into the filter and erasing it restores the filter
/// text (and leaves a refresh pending).
pub proof fn lemma_type_then_erase(v: AppView, c: char)
    requires
        !v.show_process_tree,
        !v.menu.visible,
        v.filter_mode,
    ensures
        ({
            let w = key_outcome(key_outcome(v, plain(KeyCode::Char(c))).0, plain(KeyCode::Backspace)).0;
            w.filter_text == v.filter_text && w.filter_mode && w.refresh_due
        }),
{
    assert(v.filter_text.push(c).drop_last() =~= v.filter_text);
}

/// Moving the table selection keeps it on a row whenever there are rows.
pub proof fn lemma_row_moves_in_bounds(sel: Option<usize>, len: nat)
    requires
        len > 0,
        len <= usize::MAX,
    ensures
        row_below(sel, len) matches Some(i) && i < len,
        row_above(sel, len) matches Some(i) && (sel matches Some(j) && j < len ==> i < len),
{
}

/// After a refresh, a selection lies on a row whenever there are rows and
/// something was selected.
pub proof fn lemma_refresh_keeps_selection_on_a_row(sel: Option<usize>, len: nat)
    requires
        len > 0,
        len <= usize::MAX,
        sel is Some,
    ensures
        clamped_selection(sel, len) matches Some(i) && i < len,
{
}

/// The tree view's nodes start at depth 0: no node is shallower and some
/// node is at depth 0; the preselected node, when there is one, is the
/// target.
pub proof fn lemma_tree_nodes_normalized(t: Seq<(u32, String, i32)>)
    requires
        t.len() > 0,
        forall|i: int, j: int| 0 <= i < t.len() && 0 <= j < t.len() ==> t[i].2 - t[j].2 <= i32::MAX,
    ensures
        forall|i: int| 0 <= i < t.len() ==> (#[trigger] nodes_of(t)[i]).depth >= 0,
        exists|i: int| 0 <= i < t.len() && (#[trigger] nodes_of(t)[i]).depth == 0,
        target_place(t) matches Some(k) ==> 0 <= k < t.len() && nodes_of(t)[k].is_target,
{
    lemma_least_depth(t);
    let j = choose|j: int| 0 <= j < t.len() && t[j].2 == least_depth(t);
    assert(nodes_of(t)[j].depth == 0);
    lemma_target_place(t);
}

proof fn lemma_least_depth(t: Seq<(u32, String, i32)>)
    requires
        t.len() > 0,
    ensures
        forall|i: int| 0 <= i < t.len() ==> least_depth(t) <= #[trigger] t[i].2,
        exists|i: int| 0 <= i < t.len() && t[i].2 == least_depth(t),
    decreases t.len(),
{
    if t.len() > 1 {
        lemma_least_depth(t.drop_last());
        let j = choose|j: int| 0 <= j < t.len() - 1 && t.drop_last()[j].2 == least_depth(t.drop_last());
        assert(t[j] == t.drop_last()[j]);
        if (t.last().2 as int) < least_depth(t.drop_last()) {
            assert(t[t.len() - 1].2 == least_depth(t));
        } else {
            assert(t[j].2 == least_depth(t));
        }
        assert forall|i: int| 0 <= i < t.len() implies least_depth(t) <= #[trigger] t[i].2 by {
            if i < t.len() - 1 {
                assert(t[i] == t.drop_last()[i]);
            }
        }
    } else {
        assert(t[0].2 == least_depth(t));
    }
}

proof fn lemma_target_place(t: Seq<(u32, String, i32)>)
    ensures
        target_place(t) matches Some(k) ==> 0 <= k < t.len() && t[k].2 == 0,
    decreases t.len(),
{
    if t.len() > 0 && t[0].2 != 0 {
        lemma_target_place(t.drop_first());
    }
}


/// The process table is determined by the process list, the sort, the
/// filter and the row limit: any two tables for the same inputs are equal.
pub proof fn lemma_table_unique(
    procs: Seq<ProcessSample>,
    total: u64,
    col: SortColumn,
    ascending: bool,
    filter: Option<Seq<char>>,
    max: usize,
    r1: Seq<ProcessInfo>,
    r2: Seq<ProcessInfo>,
)
    requires
        is_table(procs, total, col, ascending, filter, max, r1),
        is_table(procs, total, col, ascending, filter, max, r2),
    ensures
        r1 == r2,
{
    let shown = crate::process::shown_rows(procs, filter);
    let f1 = choose|full: Seq<ProcessInfo>|
        stably_sorted(shown, full, col, ascending, total) && r1 == full.take(r1.len() as int);
    let f2 = choose|full: Seq<ProcessInfo>|
        stably_sorted(shown, full, col, ascending, total) && r2 == full.take(r2.len() as int);
    lemma_stable_sort_unique(shown, f1, f2, col, ascending, total);
}

/// Every row of the process table is the row of a shown process: one that
/// uses CPU or memory and whose name matches the filter.
pub proof fn lemma_table_rows_are_shown(
    procs: Seq<ProcessSample>,
    total: u64,
    col: SortColumn,
    ascending: bool,
    filter: Option<Seq<char>>,
    max: usize,
    r: Seq<ProcessInfo>,
)
    requires
        is_table(procs, total, col, ascending, filter, max, r),
    ensures
        forall|i: int| 0 <= i < r.len() ==> crate::process::shown_rows(procs, filter).contains(#[trigger] r[i]),
{
    let shown = crate::process::shown_rows(procs, filter);
    let full = choose|full: Seq<ProcessInfo>|
        stably_sorted(shown, full, col, ascending, total) && r == full.take(r.len() as int);
    assert forall|i: int| 0 <= i < r.len() implies shown.contains(#[trigger] r[i]) by {
        let x = r[i];
        assert(full[i] == x);
        lemma_row_order_antisym(x, x, col, ascending, total);
        let pred = |y: ProcessInfo| crate::sort::row_order(x, y, col, ascending, total) == 0;
        full.lemma_filter_contains(pred, i);
        assert(ties(full, x, col, ascending, total) == ties(shown, x, col, ascending, total));
        assert(ties(shown, x, col, ascending, total).contains(x));
        shown.lemma_filter_contains_rev(pred, x);
    }
}

/// In a table sorted by memory with a known total, memory use never rises
/// down the table (never falls when the order is reversed).
pub proof fn lemma_memory_table_order(
    procs: Seq<ProcessSample>,
    total: u64,
    ascending: bool,
    filter: Option<Seq<char>>,
    max: usize,
    r: Seq<ProcessInfo>,
)
    requires
        is_table(procs, total, SortColumn::Memory, ascending, filter, max, r),
        total > 0,
    ensures
        forall|i: int, j: int|
            0 <= i < j < r.len() ==> if ascending {
                r[i].mem_bytes <= r[j].mem_bytes
            } else {
                r[i].mem_bytes >= r[j].mem_bytes
            },
{
    let col = SortColumn::Memory;
    let shown = crate::process::shown_rows(procs, filter);
    let full = choose|full: Seq<ProcessInfo>|
        stably_sorted(shown, full, col, ascending, total) && r == full.take(r.len() as int);
    assert forall|i: int, j: int| 0 <= i < j < r.len() implies if ascending {
        r[i].mem_bytes <= r[j].mem_bytes
    } else {
        r[i].mem_bytes >= r[j].mem_bytes
    } by {
        assert(r[i] == full[i] && r[j] == full[j]);
        assert(row_order(full[i], full[j], col, ascending, total) <= 0);
        if ascending {
            if r[i].mem_bytes > r[j].mem_bytes {
                lemma_more_memory_first(r[i], r[j], total);
            }
        } else if r[j].mem_bytes > r[i].mem_bytes {
            lemma_more_memory_first(r[j], r[i], total);
            lemma_row_order_antisym(r[i], r[j], col, ascending, total);
        }
    }
}

/// Text `a` may stand before text `b` in alphabetical order: `b` is not a
/// shorter text that begins `a`, and where the two first differ, `a` has
/// the lesser character.
pub open spec fn not_after(a: Seq<char>, b: Seq<char>) -> bool {
    &&& !(b.len() < a.len() && b == a.take(b.len() as int))
    &&& forall|k: int|
        0 <= k < a.len() && k < b.len() && #[trigger] a.take(k) == b.take(k) ==> a[k] <= b[k]
}

/// In a table sorted by name, A to Z, each row's lowercase name is not
/// after the next ones alphabetically (a name comes before the longer names
/// it begins); Z to A, the other way round.
pub proof fn lemma_name_table_order(
    procs: Seq<ProcessSample>,
    total: u64,
    ascending: bool,
    filter: Option<Seq<char>>,
    max: usize,
    r: Seq<ProcessInfo>,
)
    requires
        is_table(procs, total, SortColumn::Name, ascending, filter, max, r),
    ensures
        forall|i: int, j: int|
            #![trigger r[i], r[j]]
            0 <= i < j < r.len() ==> if ascending {
                not_after(lowercase(r[j].name@), lowercase(r[i].name@))
            } else {
                not_after(lowercase(r[i].name@), lowercase(r[j].name@))
            },
{
    let col = SortColumn::Name;
    let shown = crate::process::shown_rows(procs, filter);
    let full = choose|full: Seq<ProcessInfo>|
        stably_sorted(shown, full, col, ascending, total) && r == full.take(r.len() as int);
    assert forall|i: int, j: int| #![trigger r[i], r[j]] 0 <= i < j < r.len() implies if ascending {
        not_after(lowercase(r[j].name@), lowercase(r[i].name@))
    } else {
        not_after(lowercase(r[i].name@), lowercase(r[j].name@))
    } by {
        assert(r[i] == full[i] && r[j] == full[j]);
        assert(row_order(full[i], full[j], col, ascending, total) <= 0);
        lemma_name_order(r[i], r[j], total);
        lemma_name_order(r[j], r[i], total);
        lemma_row_order_antisym(r[i], r[j], col, ascending, total);
        let a = lowercase(r[i].name@);
        let b = lowercase(r[j].name@);
        if ascending {
            assert forall|k: int|
                0 <= k < b.len() && k < a.len() && #[trigger] b.take(k) == a.take(k) implies b[k] <= a[k] by {
                if b[k] > a[k] {
                    assert(a.take(k) == b.take(k));
                }
            }
        } else {
            assert forall|k: int|
                0 <= k < a.len() && k < b.len() && #[trigger] a.take(k) == b.take(k) implies a[k] <= b[k] by {
                if a[k] > b[k] {
                    assert(b.take(k) == a.take(k));
                }
            }
        }
    }
}

/// In the tree view without a menu, Up (or `k`) moves the selection one node
/// up and stops at the first node, Down (or `j`) moves it one node down and
/// stops at the last; nothing else changes, so Down after Up from a node
/// past the first comes back to it.
pub proof fn lemma_tree_moves_one_node(v: AppView)
    requires
        well_formed(v),
        v.show_process_tree,
        !v.menu.visible,
    ensures
        ({
            let i = v.tree_selected;
            let n = v.tree_nodes.len();
            let up = key_outcome(v, plain(KeyCode::Up));
            let down = key_outcome(v, plain(KeyCode::Down));
            &&& up == key_outcome(v, plain(KeyCode::Char('k')))
            &&& down == key_outcome(v, plain(KeyCode::Char('j')))
            &&& up.1 is Nothing && down.1 is Nothing
            &&& i > 0 ==> up.0 == AppView { tree_selected: (i - 1) as usize, ..v }
            &&& i == 0 ==> up.0 == v
            &&& i + 1 < n ==> down.0 == AppView { tree_selected: (i + 1) as usize, ..v }
            &&& i + 1 >= n ==> down.0 == v
            &&& i > 0 ==> key_outcome(up.0, plain(KeyCode::Down)).0 == v
            &&& key_outcome(v, plain(KeyCode::Home)).0 == AppView { tree_selected: 0, ..v }
            &&& n > 0 ==> key_outcome(v, plain(KeyCode::End)).0 == AppView {
                tree_selected: (n - 1) as usize,
                ..v
            }
        }),
{
}

/// On the dashboard, Down (or `j`) moves the table selection one row down
/// and stops at the last row, Up (or `k`) one row up and stops at the first;
/// with nothing selected either selects the first row; Home and End go to
/// the first and last rows; with no rows nothing moves. Nothing else
/// changes, and Up after Down from a row before the last comes back to it.
pub proof fn lemma_table_moves_one_row(v: AppView, i: usize)
    requires
        well_formed(v),
        on_dashboard(v),
    ensures
        ({
            let n = v.rows.len();
            let down = key_outcome(v, plain(KeyCode::Down));
            let up = key_outcome(v, plain(KeyCode::Up));
            &&& down == key_outcome(v, plain(KeyCode::Char('j')))
            &&& up == key_outcome(v, plain(KeyCode::Char('k')))
            &&& down.1 is Nothing && up.1 is Nothing
            &&& v.selected == Some(i) && i + 1 < n ==> down.0 == AppView {
                selected: Some((i + 1) as usize),
                ..v
            }
            &&& v.selected == Some(i) && i + 1 == n ==> down.0 == v
            &&& v.selected == Some(i) && 0 < i < n ==> up.0 == AppView {
                selected: Some((i - 1) as usize),
                ..v
            }
            &&& v.selected == Some(0usize) ==> up.0 == v
            &&& v.selected is None && n > 0 ==> down.0 == AppView { selected: Some(0), ..v }
                && up.0 == AppView { selected: Some(0), ..v }
            &&& n > 0 ==> key_outcome(v, plain(KeyCode::Home)).0 == AppView { selected: Some(0), ..v }
            &&& n > 0 ==> key_outcome(v, plain(KeyCode::End)).0 == AppView {
                selected: Some((n - 1) as usize),
                ..v
            }
            &&& n == 0 ==> down.0 == v && up.0 == v
            &&& v.selected == Some(i) && i + 1 < n ==> key_outcome(down.0, plain(KeyCode::Up)).0 == v
        }),
{
}
} // verus!
