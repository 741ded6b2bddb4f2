use vstd::prelude::*;

use ratatui::widgets::TableState;

use crate::keys::{is_quit, quit_key, Key, KeyCode};
use crate::menu::{
    action_at, initial_menu, kill_feedback, kill_prompt, kill_text, opened_menu, KillResult, MenuView,
    ProcessAction, ProcessMenu, ACTION_COUNT,
};
use crate::process::{collect_processes, is_table, next_column, ProcessInfo, ProcessSample, SortColumn};
use crate::text::{decimal, decimal_string, pop_char, push_char, text};

verus! {

// ── The table's selection, held by ratatui ──────────────────────────────

/// ratatui's `TableState`, held by the state for the table's selection;
/// nothing inside it is visible here but through `table_selection`.
#[verifier::external_type_specification]
#[verifier::external_body]
pub struct ExTableState(TableState);

/// The row that a `TableState` has selected.
pub uninterp spec fn table_selection(state: TableState) -> Option<usize>;

/// Calls `TableState::default`, which selects no row.
#[verifier::external_body]
fn table_state_new() -> (r: TableState)
    ensures
        table_selection(r) is None,
{
    TableState::default()
}

/// Calls `TableState::selected`, which returns the selected row.
#[verifier::external_body]
fn table_selected(state: &TableState) -> (r: Option<usize>)
    ensures
        r == table_selection(*state),
{
    state.selected()
}

/// Calls `TableState::select`, which records `index` as the selected row.
#[verifier::external_body]
fn table_select(state: &mut TableState, index: Option<usize>)
    ensures
        table_selection(*final(state)) == index,
{
    state.select(index)
}

// ── State ───────────────────────────────────────────────────────────────

/// How often the system figures (CPU, memory, host) are refreshed, in
/// milliseconds.
pub const METRICS_INTERVAL_MS: u64 = 1000;

/// How often the process list is collected anew, in milliseconds: less
/// often than the other figures, to spare the system calls it costs.
pub const ROWS_INTERVAL_MS: u64 = 2000;

/// What a tick asks to be refreshed.
#[derive(Clone, Copy, Debug, PartialEq, Eq, Structural)]
pub struct RefreshPlan {
    /// The system figures: CPU, memory and host.
    pub metrics: bool,
    /// The process list, and with it the table (see `App::apply_refresh`).
    pub rows: bool,
}

/// Maximum number of process rows to collect.
pub const MAX_PROCESS_ROWS: usize = 100;

/// A single node in the process tree view.
pub struct TreeNode {
    pub pid: u32,
    pub name: String,
    pub depth: i32,
    pub is_target: bool,
}

/// Central application state: the process table, its selection, and the
/// modes of the interface.
pub struct App {
    pub running: bool,
    /// The rows of the process table.
    pub processes: Vec<ProcessInfo>,
    pub table_state: TableState,
    pub sort_column: SortColumn,
    pub sort_ascending: bool,
    pub show_help: bool,
    pub show_per_core: bool,
    pub core_scroll_offset: usize,
    pub filter_mode: bool,
    pub filter_text: String,
    pub process_menu: ProcessMenu,
    /// Whether the full-screen process tree view is active.
    pub show_process_tree: bool,
    /// Tree nodes for the full-screen tree view.
    pub tree_nodes: Vec<TreeNode>,
    /// Currently selected index in tree_nodes.
    pub tree_selected: usize,
    /// Scroll offset for the tree view.
    pub tree_scroll: usize,
    /// The PID of the process the tree was opened for.
    pub tree_origin_pid: u32,
    /// The name of the process the tree was opened for.
    pub tree_origin_name: String,
    /// Whether the data is to be refreshed at the next tick, whatever the time.
    pub refresh_due: bool,
}

/// The application state, with texts as character sequences.
pub struct AppView {
    pub running: bool,
    pub rows: Seq<ProcessInfo>,
    pub selected: Option<usize>,
    pub sort_column: SortColumn,
    pub sort_ascending: bool,
    pub show_help: bool,
    pub show_per_core: bool,
    pub core_scroll_offset: usize,
    pub filter_mode: bool,
    pub filter_text: Seq<char>,
    pub menu: MenuView,
    pub show_process_tree: bool,
    pub tree_nodes: Seq<TreeNode>,
    pub tree_selected: usize,
    pub tree_scroll: usize,
    pub tree_origin_pid: u32,
    pub tree_origin_name: Seq<char>,
    pub refresh_due: bool,
}

impl View for App {
    type V = AppView;

    open spec fn view(&self) -> AppView {
        AppView {
            running: self.running,
            rows: self.processes@,
            selected: table_selection(self.table_state),
            sort_column: self.sort_column,
            sort_ascending: self.sort_ascending,
            show_help: self.show_help,
            show_per_core: self.show_per_core,
            core_scroll_offset: self.core_scroll_offset,
            filter_mode: self.filter_mode,
            filter_text: self.filter_text@,
            menu: self.process_menu@,
            show_process_tree: self.show_process_tree,
            tree_nodes: self.tree_nodes@,
            tree_selected: self.tree_selected,
            tree_scroll: self.tree_scroll,
            tree_origin_pid: self.tree_origin_pid,
            tree_origin_name: self.tree_origin_name@,
            refresh_due: self.refresh_due,
        }
    }
}

/// What holds of every reachable state: the highlighted action is in the
/// menu, confirmation is only asked for the two kill actions, the tree
/// selection is on a node (or 0 when there are none), tree depths are not
/// negative, and the table selection can move one row further.
pub open spec fn well_formed(v: AppView) -> bool {
    &&& v.menu.selected < ACTION_COUNT
    &&& v.menu.confirm_mode ==> v.menu.selected < 2
    &&& (v.tree_selected < v.tree_nodes.len() || (v.tree_nodes.len() == 0 && v.tree_selected == 0))
    &&& (v.selected matches Some(i) ==> i < usize::MAX)
    &&& v.rows.len() <= usize::MAX
    &&& v.tree_nodes.len() <= usize::MAX
    &&& forall|i: int| 0 <= i < v.tree_nodes.len() ==> (#[trigger] v.tree_nodes[i]).depth >= 0
}

/// The outside work that a key press asks for.
pub enum Effect {
    /// Nothing to do outside.
    Nothing,
    /// Send a termination signal to `pid` (a forceful kill when `force`).
    Signal { pid: u32, force: bool },
    /// Put the decimal PID on the clipboard.
    CopyPid { pid: u32 },
    /// Reveal the executable at `path` in the file manager.
    Reveal { path: String },
    /// Build the process tree around `pid`.
    BuildTree { pid: u32 },
}

// ── The key-press transition ────────────────────────────────────────────

/// The selection after moving down one row in a table of `len` rows.
pub open spec fn row_below(sel: Option<usize>, len: nat) -> Option<usize> {
    if len == 0 {
        sel
    } else {
        match sel {
            None => Some(0),
            Some(i) => Some(if i + 1 < len { (i + 1) as usize } else { (len - 1) as usize }),
        }
    }
}

/// The selection after moving up one row in a table of `len` rows.
pub open spec fn row_above(sel: Option<usize>, len: nat) -> Option<usize> {
    if len == 0 {
        sel
    } else {
        match sel {
            None => Some(0),
            Some(i) => Some(if i > 0 { (i - 1) as usize } else { 0 }),
        }
    }
}

/// The executable path of the first row with this PID, if it has one.
pub open spec fn exe_path_of(rows: Seq<ProcessInfo>, pid: u32) -> Option<String>
    decreases rows.len(),
{
    if rows.len() == 0 {
        None
    } else if rows[0].pid == pid {
        rows[0].exe_path
    } else {
        exe_path_of(rows.drop_first(), pid)
    }
}

/// The state with a new menu.
pub open spec fn with_menu(v: AppView, m: MenuView) -> AppView {
    AppView { menu: m, ..v }
}

/// The state with a feedback message in the menu.
pub open spec fn with_feedback(v: AppView, text: Seq<char>) -> AppView {
    with_menu(v, MenuView { feedback: Some(text), ..v.menu })
}

/// Running the highlighted menu action.
pub open spec fn action_outcome(v: AppView) -> (AppView, Effect) {
    let pid = v.menu.target_pid;
    match action_at(v.menu.selected as int) {
        ProcessAction::Kill | ProcessAction::ForceKill => (
            with_menu(v, MenuView { confirm_mode: true, ..v.menu }),
            Effect::Nothing,
        ),
        ProcessAction::CopyPid => (v, Effect::CopyPid { pid }),
        ProcessAction::OpenFileLocation => match exe_path_of(v.rows, pid) {
            Some(path) => (v, Effect::Reveal { path }),
            None => (with_feedback(v, "✗ Executable path not available"@), Effect::Nothing),
        },
        ProcessAction::ProcessTree => (v, Effect::BuildTree { pid }),
    }
}

/// A key press while the action menu is open.
pub open spec fn menu_outcome(v: AppView, key: Key) -> (AppView, Effect) {
    let c = key.code;
    if v.menu.feedback is Some {
        // any key closes the menu
        (
            AppView {
                menu: initial_menu(),
                refresh_due: if v.show_process_tree { v.refresh_due } else { true },
                ..v
            },
            Effect::Nothing,
        )
    } else if v.menu.confirm_mode {
        if c == KeyCode::Enter || c == KeyCode::Char('y') || c == KeyCode::Char('Y') {
            (v, Effect::Signal { pid: v.menu.target_pid, force: v.menu.selected == 1 })
        } else if c == KeyCode::Esc || c == KeyCode::Char('n') || c == KeyCode::Char('N') {
            (with_menu(v, MenuView { confirm_mode: false, ..v.menu }), Effect::Nothing)
        } else {
            (v, Effect::Nothing)
        }
    } else if c == KeyCode::Down || c == KeyCode::Char('j') {
        (
            with_menu(v, MenuView { selected: ((v.menu.selected + 1) % 5) as usize, ..v.menu }),
            Effect::Nothing,
        )
    } else if c == KeyCode::Up || c == KeyCode::Char('k') {
        (
            with_menu(v, MenuView { selected: ((v.menu.selected + 4) % 5) as usize, ..v.menu }),
            Effect::Nothing,
        )
    } else if c == KeyCode::Enter {
        action_outcome(v)
    } else if c == KeyCode::Esc {
        (with_menu(v, initial_menu()), Effect::Nothing)
    } else {
        (v, Effect::Nothing)
    }
}

/// A key press in the full-screen tree view.
pub open spec fn tree_outcome(v: AppView, key: Key) -> AppView {
    let c = key.code;
    let n = v.tree_nodes.len();
    if c == KeyCode::Esc || c == KeyCode::Char('q') {
        AppView {
            show_process_tree: false,
            tree_nodes: Seq::empty(),
            tree_selected: 0,
            tree_scroll: 0,
            ..v
        }
    } else if c == KeyCode::Down || c == KeyCode::Char('j') {
        if n > 0 {
            AppView {
                tree_selected: if v.tree_selected + 1 < n {
                    (v.tree_selected + 1) as usize
                } else {
                    (n - 1) as usize
                },
                ..v
            }
        } else {
            v
        }
    } else if c == KeyCode::Up || c == KeyCode::Char('k') {
        AppView {
            tree_selected: if v.tree_selected > 0 { (v.tree_selected - 1) as usize } else { 0 },
            ..v
        }
    } else if c == KeyCode::Home || c == KeyCode::Char('g') {
        AppView { tree_selected: 0, ..v }
    } else if c == KeyCode::End || c == KeyCode::Char('G') {
        if n > 0 {
            AppView { tree_selected: (n - 1) as usize, ..v }
        } else {
            v
        }
    } else if c == KeyCode::Enter {
        if v.tree_selected < n {
            let node = v.tree_nodes[v.tree_selected as int];
            with_menu(v, opened_menu(node.pid, node.name@))
        } else {
            v
        }
    } else {
        v
    }
}

/// A key press while the filter is being typed.
pub open spec fn filter_outcome(v: AppView, key: Key) -> AppView {
    match key.code {
        KeyCode::Esc => AppView {
            filter_mode: false,
            filter_text: Seq::empty(),
            refresh_due: true,
            ..v
        },
        KeyCode::Enter => AppView { filter_mode: false, refresh_due: true, ..v },
        KeyCode::Backspace => AppView {
            filter_text: if v.filter_text.len() > 0 {
                v.filter_text.drop_last()
            } else {
                v.filter_text
            },
            refresh_due: true,
            ..v
        },
        KeyCode::Char(ch) => AppView { filter_text: v.filter_text.push(ch), refresh_due: true, ..v },
        _ => v,
    }
}

/// A key press on the dashboard itself.
pub open spec fn table_outcome(v: AppView, key: Key) -> (AppView, Effect) {
    let c = key.code;
    let n = v.rows.len();
    if c == KeyCode::Down || c == KeyCode::Char('j') {
        (AppView { selected: row_below(v.selected, n), ..v }, Effect::Nothing)
    } else if c == KeyCode::Up || c == KeyCode::Char('k') {
        (AppView { selected: row_above(v.selected, n), ..v }, Effect::Nothing)
    } else if c == KeyCode::Home || c == KeyCode::Char('g') {
        (AppView { selected: if n > 0 { Some(0) } else { v.selected }, ..v }, Effect::Nothing)
    } else if c == KeyCode::End || c == KeyCode::Char('G') {
        (
            AppView { selected: if n > 0 { Some((n - 1) as usize) } else { v.selected }, ..v },
            Effect::Nothing,
        )
    } else if c == KeyCode::Enter {
        match v.selected {
            Some(i) if i < n => (
                with_menu(v, opened_menu(v.rows[i as int].pid, v.rows[i as int].name@)),
                Effect::Nothing,
            ),
            _ => (v, Effect::Nothing),
        }
    } else if c == KeyCode::Char('K') && !key.ctrl {
        match v.selected {
            Some(i) if i < n => (
                with_menu(v, kill_prompt(v.rows[i as int].pid, v.rows[i as int].name@)),
                Effect::Nothing,
            ),
            _ => (v, Effect::Nothing),
        }
    } else if c == KeyCode::Char('s') {
        (
            AppView { sort_column: next_column(v.sort_column), refresh_due: true, ..v },
            Effect::Nothing,
        )
    } else if c == KeyCode::Char('S') {
        (AppView { sort_ascending: !v.sort_ascending, refresh_due: true, ..v }, Effect::Nothing)
    } else if c == KeyCode::Char('1') {
        (AppView { show_per_core: !v.show_per_core, core_scroll_offset: 0, ..v }, Effect::Nothing)
    } else if c == KeyCode::Char('[') {
        (
            AppView {
                core_scroll_offset: if v.show_per_core && v.core_scroll_offset > 0 {
                    (v.core_scroll_offset - 1) as usize
                } else {
                    v.core_scroll_offset
                },
                ..v
            },
            Effect::Nothing,
        )
    } else if c == KeyCode::Char(']') {
        (
            AppView {
                core_scroll_offset: if v.show_per_core {
                    (v.core_scroll_offset + 1) as usize
                } else {
                    v.core_scroll_offset
                },
                ..v
            },
            Effect::Nothing,
        )
    } else if c == KeyCode::Char('/') {
        (AppView { filter_mode: true, ..v }, Effect::Nothing)
    } else if c == KeyCode::Char('?') {
        (AppView { show_help: true, ..v }, Effect::Nothing)
    } else if c == KeyCode::Char('r') {
        (AppView { refresh_due: true, ..v }, Effect::Nothing)
    } else {
        (v, Effect::Nothing)
    }
}

/// The key raises the core list's scroll offset: `]` on the dashboard while
/// the per-core view is shown.
pub open spec fn raises_core_offset(v: AppView, key: Key) -> bool {
    &&& key.code == KeyCode::Char(']')
    &&& !v.show_process_tree
    &&& !v.menu.visible
    &&& !v.filter_mode
    &&& !v.show_help
    &&& v.show_per_core
}

/// A key press, dispatched by mode: the tree view first, then the menu,
/// then the filter prompt, then the help overlay (which any key dismisses),
/// then the dashboard.
pub open spec fn key_outcome(v: AppView, key: Key) -> (AppView, Effect) {
    if v.show_process_tree {
        if v.menu.visible {
            menu_outcome(v, key)
        } else {
            (tree_outcome(v, key), Effect::Nothing)
        }
    } else if v.menu.visible {
        menu_outcome(v, key)
    } else if v.filter_mode {
        (filter_outcome(v, key), Effect::Nothing)
    } else if v.show_help {
        (AppView { show_help: false, ..v }, Effect::Nothing)
    } else {
        table_outcome(v, key)
    }
}


/// The filter the table is collected with: none while the text is empty.
pub open spec fn filter_of(text: Seq<char>) -> Option<Seq<char>> {
    if text.len() == 0 {
        None
    } else {
        Some(text)
    }
}

/// The selection kept after the table is refreshed to `len` rows: a row
/// past the end moves to the last row.
pub open spec fn clamped_selection(sel: Option<usize>, len: nat) -> Option<usize> {
    match sel {
        Some(i) if i >= len && len > 0 => Some((len - 1) as usize),
        _ => sel,
    }
}

/// How the clipboard took the PID.
pub enum ClipboardOutcome {
    /// The text was placed on the clipboard.
    Copied,
    /// The clipboard could not be opened; the error text.
    Unavailable(String),
    /// The clipboard refused the text; the error text.
    Failed(String),
}


/// The least depth in a tree listing (0 for an empty one).
pub open spec fn least_depth(t: Seq<(u32, String, i32)>) -> int
    decreases t.len(),
{
    if t.len() == 0 {
        0
    } else if t.len() == 1 {
        t[0].2 as int
    } else {
        let m = least_depth(t.drop_last());
        if (t.last().2 as int) < m {
            t.last().2 as int
        } else {
            m
        }
    }
}

/// The place of the first entry at depth 0, if any.
pub open spec fn target_place(t: Seq<(u32, String, i32)>) -> Option<int>
    decreases t.len(),
{
    if t.len() == 0 {
        None
    } else if t[0].2 == 0 {
        Some(0)
    } else {
        match target_place(t.drop_first()) {
            Some(i) => Some(i + 1),
            None => None,
        }
    }
}

/// The tree view's nodes for a tree listing: depths shifted so that the
/// shallowest entry is at depth 0; the entry at depth 0 is the target.
pub open spec fn nodes_of(t: Seq<(u32, String, i32)>) -> Seq<TreeNode> {
    Seq::new(
        t.len(),
        |i: int|
            TreeNode {
                pid: t[i].0,
                name: t[i].1,
                depth: (t[i].2 - least_depth(t)) as i32,
                is_target: t[i].2 == 0,
            },
    )
}

/// The depths of a tree listing are close enough for their differences to
/// fit an `i32`.
pub open spec fn depths_fit(t: Seq<(u32, String, i32)>) -> bool {
    forall|i: int, j: int| 0 <= i < t.len() && 0 <= j < t.len() ==> t[i].2 - t[j].2 <= i32::MAX
}

/// The feedback after the clipboard was asked to take `pid`.
pub open spec fn clipboard_text(pid: u32, outcome: ClipboardOutcome) -> Seq<char> {
    match outcome {
        ClipboardOutcome::Copied => "✓ PID "@ + decimal(pid as nat) + " copied to clipboard"@,
        ClipboardOutcome::Failed(e) => "✗ Clipboard error: "@ + e@,
        ClipboardOutcome::Unavailable(e) => "✗ Clipboard unavailable: "@ + e@,
    }
}

/// The feedback after the file manager was asked to reveal `path`.
pub open spec fn reveal_text(path: Seq<char>, failure: Option<String>) -> Seq<char> {
    match failure {
        None => "✓ Revealed: "@ + path,
        Some(e) => "✗ Failed to open Finder: "@ + e@,
    }
}

fn least_depth_of(t: &Vec<(u32, String, i32)>) -> (m: i32)
    ensures
        m as int == least_depth(t@),
        forall|i: int| 0 <= i < t.len() ==> m <= #[trigger] t@[i].2,
        t.len() > 0 ==> exists|i: int| 0 <= i < t.len() && m == #[trigger] t@[i].2,
{
    if t.len() == 0 {
        return 0;
    }
    let mut m = t[0].2;
    let mut i: usize = 1;
    while i < t.len()
        invariant
            1 <= i <= t.len(),
            m as int == least_depth(t@.take(i as int)),
            forall|j: int| 0 <= j < i ==> m <= #[trigger] t@[j].2,
            exists|j: int| 0 <= j < i && m == #[trigger] t@[j].2,
        decreases t.len() - i,
    {
        proof {
            assert(t@.take(i + 1).drop_last() =~= t@.take(i as int));
            assert(t@.take(i + 1).last() == t@[i as int]);
        }
        if t[i].2 < m {
            m = t[i].2;
        }
        i += 1;
    }
    proof {
        assert(t@.take(t.len() as int) =~= t@);
    }
    m
}

fn target_place_of(t: &Vec<(u32, String, i32)>) -> (r: Option<usize>)
    ensures
        match r {
            Some(i) => target_place(t@) == Some(i as int) && i < t.len(),
            None => target_place(t@) is None,
        },
{
    let mut i: usize = 0;
    proof {
        assert(t@.skip(0) =~= t@);
    }
    while i < t.len()
        invariant
            i <= t.len(),
            target_place(t@) == match target_place(t@.skip(i as int)) {
                Some(k) => Some(k + i),
                None => None,
            },
        decreases t.len() - i,
    {
        proof {
            assert(t@.skip(i as int).drop_first() =~= t@.skip(i + 1));
        }
        if t[i].2 == 0 {
            return Some(i);
        }
        i += 1;
    }
    None
}

impl App {
    /// The state at start-up, on the process list `procs`: the table sorted
    /// by CPU, highest first, with its first row selected.
    pub fn new(procs: &Vec<ProcessSample>, total_mem: u64) -> (r: App)
        ensures
            well_formed(r@),
            is_table(procs@, total_mem, SortColumn::Cpu, false, None, MAX_PROCESS_ROWS, r@.rows),
            r@ == (AppView {
                running: true,
                rows: r@.rows,
                selected: if r@.rows.len() > 0 { Some(0) } else { None },
                sort_column: SortColumn::Cpu,
                sort_ascending: false,
                show_help: false,
                show_per_core: true,
                core_scroll_offset: 0,
                filter_mode: false,
                filter_text: Seq::empty(),
                menu: initial_menu(),
                show_process_tree: false,
                tree_nodes: Seq::empty(),
                tree_selected: 0,
                tree_scroll: 0,
                tree_origin_pid: 0,
                tree_origin_name: Seq::empty(),
                refresh_due: false,
            }),
    {
        let processes = collect_processes(procs, total_mem, SortColumn::Cpu, false, None, MAX_PROCESS_ROWS);
        let mut table_state = table_state_new();
        if processes.len() > 0 {
            table_select(&mut table_state, Some(0));
        }
        let menu = ProcessMenu::new();
        App {
            running: true,
            processes,
            table_state,
            sort_column: SortColumn::Cpu,
            sort_ascending: false,
            show_help: false,
            show_per_core: true,
            core_scroll_offset: 0,
            filter_mode: false,
            filter_text: String::new(),
            process_menu: menu,
            show_process_tree: false,
            tree_nodes: Vec::new(),
            tree_selected: 0,
            tree_scroll: 0,
            tree_origin_pid: 0,
            tree_origin_name: String::new(),
            refresh_due: false,
        }
    }

    // ── Tick ─────────────────────────────────────────────────────────────

    /// Called on every tick, `since_metrics_ms` after the system figures
    /// were last refreshed and `since_rows_ms` after the process list was
    /// last collected: what is to be refreshed now. The figures are due every
    /// `METRICS_INTERVAL_MS`, the process list every `ROWS_INTERVAL_MS`;
    /// a forced refresh makes both due at once.
    pub fn tick(&self, since_metrics_ms: u64, since_rows_ms: u64) -> (r: RefreshPlan)
        ensures
            r.metrics == (self.refresh_due || since_metrics_ms >= METRICS_INTERVAL_MS),
            r.rows == (self.refresh_due || since_rows_ms >= ROWS_INTERVAL_MS),
    {
        RefreshPlan {
            metrics: self.refresh_due || since_metrics_ms >= METRICS_INTERVAL_MS,
            rows: self.refresh_due || since_rows_ms >= ROWS_INTERVAL_MS,
        }
    }

    /// Takes in a fresh process list, when a tick asked for it (`rows` of
    /// its plan): the table is collected anew with the current sort and
    /// filter, and a selection past its end moves to the last row.
    pub fn apply_refresh(&mut self, procs: &Vec<ProcessSample>, total_mem: u64)
        requires
            well_formed(old(self)@),
        ensures
            well_formed(final(self)@),
            is_table(
                procs@,
                total_mem,
                old(self).sort_column,
                old(self).sort_ascending,
                filter_of(old(self).filter_text@),
                MAX_PROCESS_ROWS,
                final(self)@.rows,
            ),
            final(self)@ == (AppView {
                rows: final(self)@.rows,
                selected: clamped_selection(old(self)@.selected, final(self)@.rows.len()),
                refresh_due: false,
                ..old(self)@
            }),
    {
        let rows = if self.filter_text.as_str().is_empty() {
            collect_processes(procs, total_mem, self.sort_column, self.sort_ascending, None, MAX_PROCESS_ROWS)
        } else {
            collect_processes(
                procs,
                total_mem,
                self.sort_column,
                self.sort_ascending,
                Some(self.filter_text.as_str()),
                MAX_PROCESS_ROWS,
            )
        };
        self.processes = rows;
        // Keep selection in bounds
        let len = self.processes.len();
        if let Some(i) = table_selected(&self.table_state) {
            if i >= len && len > 0 {
                table_select(&mut self.table_state, Some(len - 1));
            }
        }
        self.refresh_due = false;
    }

    // ── Selection helpers ───────────────────────────────────────────────

    fn select_next(&mut self)
        requires
            well_formed(old(self)@),
        ensures
            final(self)@ == (AppView { selected: row_below(old(self)@.selected, old(self)@.rows.len()), ..old(self)@ }),
    {
        let len = self.processes.len();
        if len == 0 {
            return;
        }
        let i = match table_selected(&self.table_state) {
            None => 0,
            Some(i) => if i + 1 < len { i + 1 } else { len - 1 },
        };
        table_select(&mut self.table_state, Some(i));
    }

    fn select_prev(&mut self)
        ensures
            final(self)@ == (AppView { selected: row_above(old(self)@.selected, old(self)@.rows.len()), ..old(self)@ }),
    {
        let len = self.processes.len();
        if len == 0 {
            return;
        }
        let i = match table_selected(&self.table_state) {
            None => 0,
            Some(i) => if i > 0 { i - 1 } else { 0 },
        };
        table_select(&mut self.table_state, Some(i));
    }

    fn select_first(&mut self)
        ensures
            final(self)@ == (AppView {
                selected: if old(self)@.rows.len() > 0 { Some(0) } else { old(self)@.selected },
                ..old(self)@
            }),
    {
        if self.processes.len() > 0 {
            table_select(&mut self.table_state, Some(0));
        }
    }

    fn select_last(&mut self)
        ensures
            final(self)@ == (AppView {
                selected: if old(self)@.rows.len() > 0 {
                    Some((old(self)@.rows.len() - 1) as usize)
                } else {
                    old(self)@.selected
                },
                ..old(self)@
            }),
    {
        let len = self.processes.len();
        if len > 0 {
            table_select(&mut self.table_state, Some(len - 1));
        }
    }

    /// Forces a data refresh on the next tick.
    fn force_refresh(&mut self)
        ensures
            final(self)@ == (AppView { refresh_due: true, ..old(self)@ }),
    {
        self.refresh_due = true;
    }

    // ── Input handling ──────────────────────────────────────────────────

    /// Handles key events while the filter prompt is open.
    pub fn handle_filter_key(&mut self, key: Key)
        requires
            well_formed(old(self)@),
        ensures
            final(self)@ == filter_outcome(old(self)@, key),
    {
        match key.code {
            KeyCode::Esc => {
                self.filter_mode = false;
                self.filter_text = String::new();
                self.force_refresh();
            },
            KeyCode::Enter => {
                self.filter_mode = false;
                self.force_refresh();
            },
            KeyCode::Backspace => {
                pop_char(&mut self.filter_text);
                self.force_refresh();
            },
            KeyCode::Char(c) => {
                push_char(&mut self.filter_text, c);
                self.force_refresh();
            },
            _ => {},
        }
    }

    /// Opens the process action menu for the currently selected process.
    fn open_process_menu(&mut self)
        ensures
            final(self)@ == match old(self)@.selected {
                Some(i) if i < old(self)@.rows.len() => with_menu(
                    old(self)@,
                    opened_menu(old(self)@.rows[i as int].pid, old(self)@.rows[i as int].name@),
                ),
                _ => old(self)@,
            },
    {
        if let Some(idx) = table_selected(&self.table_state) {
            if idx < self.processes.len() {
                let pid = self.processes[idx].pid;
                let name = self.processes[idx].name.clone();
                self.process_menu.open(pid, name);
            }
        }
    }

    /// Opens the action menu on the selected process with the kill action
    /// highlighted and its confirmation asked for.
    fn prompt_kill_selected(&mut self)
        ensures
            final(self)@ == match old(self)@.selected {
                Some(i) if i < old(self)@.rows.len() => with_menu(
                    old(self)@,
                    kill_prompt(old(self)@.rows[i as int].pid, old(self)@.rows[i as int].name@),
                ),
                _ => old(self)@,
            },
    {
        if let Some(idx) = table_selected(&self.table_state) {
            if idx < self.processes.len() {
                let pid = self.processes[idx].pid;
                let name = self.processes[idx].name.clone();
                self.process_menu.open(pid, name);
                self.process_menu.confirm_mode = true;
            }
        }
    }

    /// The executable path of the first row with this PID.
    fn find_exe_path(&self, pid: u32) -> (r: Option<String>)
        ensures
            r == exe_path_of(self.processes@, pid),
    {
        let mut i: usize = 0;
        proof {
            assert(self.processes@.skip(0) =~= self.processes@);
        }
        while i < self.processes.len()
            invariant
                i <= self.processes.len(),
                exe_path_of(self.processes@, pid) == exe_path_of(self.processes@.skip(i as int), pid),
            decreases self.processes.len() - i,
        {
            proof {
                assert(self.processes@.skip(i as int).drop_first() =~= self.processes@.skip(i + 1));
            }
            if self.processes[i].pid == pid {
                return match &self.processes[i].exe_path {
                    Some(path) => Some(path.clone()),
                    None => None,
                };
            }
            i += 1;
        }
        None
    }

    /// Looks up the executable of the menu's target: asks for it to be
    /// revealed, or reports that no path is known.
    fn open_file_location(&mut self) -> (e: Effect)
        requires
            well_formed(old(self)@),
        ensures
            (final(self)@, e) == (match exe_path_of(old(self)@.rows, old(self)@.menu.target_pid) {
                Some(path) => (old(self)@, Effect::Reveal { path }),
                None => (
                    with_feedback(old(self)@, "✗ Executable path not available"@),
                    Effect::Nothing,
                ),
            }),
    {
        let pid = self.process_menu.target_pid;
        match self.find_exe_path(pid) {
            Some(path) => Effect::Reveal { path },
            None => {
                self.process_menu.feedback = Some(text("✗ Executable path not available"));
                Effect::Nothing
            },
        }
    }

    /// Dispatches the currently selected menu action.
    pub fn execute_menu_action(&mut self) -> (e: Effect)
        requires
            well_formed(old(self)@),
        ensures
            (final(self)@, e) == action_outcome(old(self)@),
    {
        match self.process_menu.current_action() {
            ProcessAction::Kill | ProcessAction::ForceKill => {
                self.process_menu.confirm_mode = true;
                Effect::Nothing
            },
            ProcessAction::CopyPid => Effect::CopyPid { pid: self.process_menu.target_pid },
            ProcessAction::OpenFileLocation => self.open_file_location(),
            ProcessAction::ProcessTree => Effect::BuildTree { pid: self.process_menu.target_pid },
        }
    }

    /// Handles key events while the process action menu is open.
    pub fn handle_menu_key(&mut self, key: Key) -> (e: Effect)
        requires
            well_formed(old(self)@),
        ensures
            (final(self)@, e) == menu_outcome(old(self)@, key),
    {
        // If showing feedback, any key closes the menu.
        if self.process_menu.feedback.is_some() {
            self.process_menu.close();
            if !self.show_process_tree {
                self.force_refresh();
            }
            return Effect::Nothing;
        }
        // Confirmation mode: waiting for y/Enter or n/Esc.
        if self.process_menu.confirm_mode {
            return match key.code {
                KeyCode::Enter | KeyCode::Char('y') | KeyCode::Char('Y') => Effect::Signal {
                    pid: self.process_menu.target_pid,
                    force: self.process_menu.current_action() == ProcessAction::ForceKill,
                },
                KeyCode::Esc | KeyCode::Char('n') | KeyCode::Char('N') => {
                    self.process_menu.confirm_mode = false;
                    Effect::Nothing
                },
                _ => Effect::Nothing,
            };
        }
        // Normal menu navigation.
        match key.code {
            KeyCode::Down | KeyCode::Char('j') => {
                self.process_menu.selected = (self.process_menu.selected + 1) % ACTION_COUNT;
                Effect::Nothing
            },
            KeyCode::Up | KeyCode::Char('k') => {
                self.process_menu.selected = (self.process_menu.selected + ACTION_COUNT - 1)
                    % ACTION_COUNT;
                Effect::Nothing
            },
            KeyCode::Enter => self.execute_menu_action(),
            KeyCode::Esc => {
                self.process_menu.close();
                Effect::Nothing
            },
            _ => Effect::Nothing,
        }
    }

    /// Handles key events while the full-screen tree view is active.
    pub fn handle_tree_key(&mut self, key: Key)
        requires
            well_formed(old(self)@),
        ensures
            final(self)@ == tree_outcome(old(self)@, key),
    {
        match key.code {
            // Close tree view
            KeyCode::Esc | KeyCode::Char('q') => {
                self.show_process_tree = false;
                self.tree_nodes = Vec::new();
                self.tree_selected = 0;
                self.tree_scroll = 0;
            },
            // Navigate selection
            KeyCode::Down | KeyCode::Char('j') => {
                if self.tree_nodes.len() > 0 {
                    let last = self.tree_nodes.len() - 1;
                    self.tree_selected = if self.tree_selected + 1 < self.tree_nodes.len() {
                        self.tree_selected + 1
                    } else {
                        last
                    };
                }
            },
            KeyCode::Up | KeyCode::Char('k') => {
                self.tree_selected = if self.tree_selected > 0 {
                    self.tree_selected - 1
                } else {
                    0
                };
            },
            KeyCode::Home | KeyCode::Char('g') => {
                self.tree_selected = 0;
            },
            KeyCode::End | KeyCode::Char('G') => {
                if self.tree_nodes.len() > 0 {
                    self.tree_selected = self.tree_nodes.len() - 1;
                }
            },
            // Open action menu for the selected tree node
            KeyCode::Enter => {
                if self.tree_selected < self.tree_nodes.len() {
                    let pid = self.tree_nodes[self.tree_selected].pid;
                    let name = self.tree_nodes[self.tree_selected].name.clone();
                    self.process_menu.open(pid, name);
                }
            },
            _ => {},
        }
    }

    /// Processes a key event and updates app state; returns the outside
    /// work the key asks for.
    pub fn handle_key(&mut self, key: Key) -> (e: Effect)
        requires
            well_formed(old(self)@),
            raises_core_offset(old(self)@, key) ==> old(self).core_scroll_offset < usize::MAX,
        ensures
            (final(self)@, e) == key_outcome(old(self)@, key),
            well_formed(final(self)@),
    {
        proof {
            lemma_key_keeps_well_formed(self@, key);
        }
        // Full-screen tree view takes top priority.
        if self.show_process_tree {
            // If the menu is visible on top of the tree, handle menu keys.
            if self.process_menu.visible {
                return self.handle_menu_key(key);
            } else {
                self.handle_tree_key(key);
                return Effect::Nothing;
            }
        }
        // Process menu takes priority when visible.
        if self.process_menu.visible {
            return self.handle_menu_key(key);
        }
        if self.filter_mode {
            self.handle_filter_key(key);
            return Effect::Nothing;
        }
        if self.show_help {
            // Any key dismisses help
            self.show_help = false;
            return Effect::Nothing;
        }
        self.handle_table_key(key)
    }

    /// Handles key events on the dashboard.
    #[verifier::rlimit(40)]
    pub fn handle_table_key(&mut self, key: Key) -> (e: Effect)
        requires
            well_formed(old(self)@),
            key.code == KeyCode::Char(']') && old(self).show_per_core ==> old(self).core_scroll_offset
                < usize::MAX,
        ensures
            (final(self)@, e) == table_outcome(old(self)@, key),
    {
        match key.code {
            // Navigation
            KeyCode::Down | KeyCode::Char('j') => self.select_next(),
            KeyCode::Up | KeyCode::Char('k') => self.select_prev(),
            KeyCode::Home | KeyCode::Char('g') => self.select_first(),
            KeyCode::End | KeyCode::Char('G') => self.select_last(),
            // Open process action menu
            KeyCode::Enter => self.open_process_menu(),
            // Kill the selected process, once confirmed
            KeyCode::Char('K') if !key.ctrl => self.prompt_kill_selected(),
            // Sort
            KeyCode::Char('s') => {
                self.sort_column = self.sort_column.next();
                self.force_refresh();
            },
            KeyCode::Char('S') => {
                self.sort_ascending = !self.sort_ascending;
                self.force_refresh();
            },
            // Toggle per-core view
            KeyCode::Char('1') => {
                self.show_per_core = !self.show_per_core;
                self.core_scroll_offset = 0;
            },
            // Scroll per-core view
            KeyCode::Char('[') => {
                if self.show_per_core && self.core_scroll_offset > 0 {
                    self.core_scroll_offset = self.core_scroll_offset - 1;
                }
            },
            KeyCode::Char(']') => {
                if self.show_per_core {
                    self.core_scroll_offset = self.core_scroll_offset + 1;
                }
            },
            // Filter
            KeyCode::Char('/') => {
                self.filter_mode = true;
            },
            // Help
            KeyCode::Char('?') => {
                self.show_help = true;
            },
            // Force refresh
            KeyCode::Char('r') => self.force_refresh(),
            _ => {},
        }
        Effect::Nothing
    }

    /// Dispatches a key press from the event loop: `q`, `Esc` or Control-`c`
    /// quits unless the filter prompt or the action menu is open; every
    /// other key goes to `handle_key`.
    pub fn on_key(&mut self, key: Key) -> (e: Effect)
        requires
            well_formed(old(self)@),
            raises_core_offset(old(self)@, key) ==> old(self).core_scroll_offset < usize::MAX,
        ensures
            well_formed(final(self)@),
            if quit_key(key) && !old(self).filter_mode && !old(self).process_menu.visible {
                final(self)@ == (AppView { running: false, ..old(self)@ }) && e is Nothing
            } else {
                (final(self)@, e) == key_outcome(old(self)@, key)
            },
    {
        if is_quit(&key) && !self.filter_mode && !self.process_menu.visible {
            self.running = false;
            Effect::Nothing
        } else {
            self.handle_key(key)
        }
    }

    /// Records the result of a kill that the menu asked for.
    pub fn signal_sent(&mut self, result: KillResult)
        requires
            well_formed(old(self)@),
        ensures
            well_formed(final(self)@),
            final(self)@ == with_menu(
                old(self)@,
                MenuView { confirm_mode: false, feedback: Some(kill_text(result)), ..old(self)@.menu },
            ),
    {
        let feedback = kill_feedback(result);
        self.process_menu.confirm_mode = false;
        self.process_menu.feedback = Some(feedback);
    }

    /// Records how the clipboard took the target's PID.
    pub fn copy_done(&mut self, outcome: ClipboardOutcome)
        requires
            well_formed(old(self)@),
        ensures
            well_formed(final(self)@),
            final(self)@ == with_feedback(old(self)@, clipboard_text(old(self)@.menu.target_pid, outcome)),
    {
        let feedback = match outcome {
            ClipboardOutcome::Copied => {
                let pid_str = decimal_string(self.process_menu.target_pid as u64);
                text("✓ PID ").concat(pid_str.as_str()).concat(" copied to clipboard")
            },
            ClipboardOutcome::Failed(e) => text("✗ Clipboard error: ").concat(e.as_str()),
            ClipboardOutcome::Unavailable(e) => text("✗ Clipboard unavailable: ").concat(e.as_str()),
        };
        self.process_menu.feedback = Some(feedback);
    }

    /// Records whether the file manager revealed `path`; `failure` is the
    /// error text when it did not.
    pub fn reveal_done(&mut self, path: &str, failure: Option<String>)
        requires
            well_formed(old(self)@),
        ensures
            well_formed(final(self)@),
            final(self)@ == with_feedback(old(self)@, reveal_text(path@, failure)),
    {
        let feedback = match failure {
            None => text("✓ Revealed: ").concat(path),
            Some(e) => text("✗ Failed to open Finder: ").concat(e.as_str()),
        };
        self.process_menu.feedback = Some(feedback);
    }

    /// Enters the full-screen tree view on a tree listing of the menu's
    /// target (see `process_tree`); reports failure when the listing is empty.
    pub fn enter_process_tree(&mut self, tree: Vec<(u32, String, i32)>)
        requires
            well_formed(old(self)@),
            depths_fit(tree@),
        ensures
            well_formed(final(self)@),
            tree@.len() == 0 ==> final(self)@ == with_feedback(old(self)@, "✗ Could not build process tree"@),
            tree@.len() > 0 ==> final(self)@ == (AppView {
                menu: initial_menu(),
                tree_nodes: nodes_of(tree@),
                tree_selected: match target_place(tree@) {
                    Some(i) => i as usize,
                    None => 0,
                },
                tree_scroll: 0,
                tree_origin_pid: old(self)@.menu.target_pid,
                tree_origin_name: old(self)@.menu.target_name,
                show_process_tree: true,
                ..old(self)@
            }),
    {
        let pid = self.process_menu.target_pid;
        let name = self.process_menu.target_name.clone();
        if tree.len() == 0 {
            self.process_menu.feedback = Some(text("✗ Could not build process tree"));
            return;
        }
        // Find the minimum depth to normalize indentation.
        let min_depth = least_depth_of(&tree);
        let mut nodes: Vec<TreeNode> = Vec::new();
        let mut i: usize = 0;
        while i < tree.len()
            invariant
                i <= tree.len(),
                min_depth as int == least_depth(tree@),
                forall|j: int| 0 <= j < tree.len() ==> min_depth <= #[trigger] tree@[j].2,
                exists|j: int| 0 <= j < tree.len() && min_depth == #[trigger] tree@[j].2,
                depths_fit(tree@),
                nodes@ == nodes_of(tree@).take(i as int),
            decreases tree.len() - i,
        {
            let (p, d) = (tree[i].0, tree[i].2);
            let node_name = tree[i].1.clone();
            proof {
                let j = choose|j: int| 0 <= j < tree.len() && min_depth == #[trigger] tree@[j].2;
                assert(tree@[i as int].2 - tree@[j].2 <= i32::MAX);
            }
            nodes.push(TreeNode { pid: p, name: node_name, depth: d - min_depth, is_target: d == 0 });
            proof {
                assert(nodes@ =~= nodes_of(tree@).take(i + 1));
            }
            i += 1;
        }
        proof {
            assert(nodes_of(tree@).take(tree.len() as int) =~= nodes_of(tree@));
        }
        // Find the index of the target process to pre-select it.
        let target_idx = match target_place_of(&tree) {
            Some(k) => k,
            None => 0,
        };
        // Close the popup menu and switch to full-screen tree.
        self.process_menu.close();
        self.tree_nodes = nodes;
        self.tree_selected = target_idx;
        self.tree_scroll = 0;
        self.tree_origin_pid = pid;
        self.tree_origin_name = name;
        self.show_process_tree = true;
    }
}

/// Every key press keeps the state well formed.
pub proof fn lemma_key_keeps_well_formed(v: AppView, key: Key)
    requires
        well_formed(v),
    ensures
        well_formed(key_outcome(v, key).0),
{
    if !v.show_process_tree && !v.menu.visible && !v.filter_mode && !v.show_help {
        let n = v.rows.len();
        assert(well_formed(table_outcome(v, key).0));
    }
}
} // verus!
