use vstd::prelude::*;

use crate::app::{App, TreeNode};
use crate::layout::{centered_of, centered_popup, Area};
use crate::menu::{action_at, action_label, ProcessAction, ProcessMenu, ACTION_COUNT};
use crate::process::SortColumn;
use crate::text::{decimal, decimal_string, text};

verus! {

// ── The process table ───────────────────────────────────────────────────

/// The base label of header cell `i` of the process table.
pub open spec fn header_base(i: int) -> Seq<char> {
    if i == 0 {
        "PID"@
    } else if i == 1 {
        "Name"@
    } else if i == 2 {
        "CPU%"@
    } else if i == 3 {
        "MEM%"@
    } else if i == 4 {
        "MEM"@
    } else {
        "Status"@
    }
}

/// The column that header cell `i` names (the first four cells are sortable).
pub open spec fn header_column(i: int) -> SortColumn {
    if i == 0 {
        SortColumn::Pid
    } else if i == 1 {
        SortColumn::Name
    } else if i == 2 {
        SortColumn::Cpu
    } else {
        SortColumn::Memory
    }
}

/// The arrow that shows the sort direction.
pub open spec fn sort_arrow(ascending: bool) -> Seq<char> {
    if ascending {
        "▲"@
    } else {
        "▼"@
    }
}

/// The text of header cell `i`: the label, with the sort arrow after it on
/// the cell of the sort column.
pub open spec fn header_text(i: int, col: SortColumn, ascending: bool) -> Seq<char> {
    if i < 4 && header_column(i) == col {
        header_base(i) + " "@ + sort_arrow(ascending)
    } else {
        header_base(i)
    }
}

fn header_cell(i: usize, col: SortColumn, ascending: bool) -> (r: String)
    requires
        i < 6,
    ensures
        r@ == header_text(i as int, col, ascending),
{
    let base = match i {
        0 => text("PID"),
        1 => text("Name"),
        2 => text("CPU%"),
        3 => text("MEM%"),
        4 => text("MEM"),
        _ => text("Status"),
    };
    let column = match i {
        0 => SortColumn::Pid,
        1 => SortColumn::Name,
        2 => SortColumn::Cpu,
        _ => SortColumn::Memory,
    };
    if i < 4 && column == col {
        let arrow = if ascending {
            "▲"
        } else {
            "▼"
        };
        base.concat(" ").concat(arrow)
    } else {
        base
    }
}

/// The six header cells of the process table.
pub fn header_cells(col: SortColumn, ascending: bool) -> (r: Vec<String>)
    ensures
        r.len() == 6,
        forall|i: int| 0 <= i < 6 ==> #[trigger] r@[i]@ == header_text(i, col, ascending),
{
    let mut cells: Vec<String> = Vec::new();
    let mut i: usize = 0;
    while i < 6
        invariant
            i <= 6,
            cells.len() == i,
            forall|j: int| 0 <= j < i ==> #[trigger] cells@[j]@ == header_text(j, col, ascending),
        decreases 6 - i,
    {
        cells.push(header_cell(i, col, ascending));
        i += 1;
    }
    cells
}

/// The title of the process table: the filter being typed, or the filter in
/// force, or just the name of the panel.
pub open spec fn table_title_text(filter_mode: bool, filter: Seq<char>) -> Seq<char> {
    if filter_mode {
        " PROCESSES ─ filter: "@ + filter + "▏"@
    } else if filter.len() > 0 {
        " PROCESSES ─ \""@ + filter + "\" "@
    } else {
        " PROCESSES "@
    }
}

impl App {
    /// The title of the process table.
    pub fn table_title(&self) -> (r: String)
        ensures
            r@ == table_title_text(self.filter_mode, self.filter_text@),
    {
        if self.filter_mode {
            text(" PROCESSES ─ filter: ").concat(self.filter_text.as_str()).concat("▏")
        } else if !self.filter_text.as_str().is_empty() {
            text(" PROCESSES ─ \"").concat(self.filter_text.as_str()).concat("\" ")
        } else {
            text(" PROCESSES ")
        }
    }

    /// The title of the process tree view.
    pub fn tree_title(&self) -> (r: String)
        ensures
            r@ == " Process Tree — "@ + self.tree_origin_name@ + " (PID "@ + decimal(
                self.tree_origin_pid as nat,
            ) + ") "@,
    {
        let pid = decimal_string(self.tree_origin_pid as u64);
        text(" Process Tree — ").concat(self.tree_origin_name.as_str()).concat(" (PID ").concat(
            pid.as_str(),
        ).concat(") ")
    }
}

// ── The action menu ─────────────────────────────────────────────────────

/// The height the menu popup asks for: least when showing feedback, more
/// when asking for confirmation, most when listing the actions.
pub open spec fn menu_height(feedback: bool, confirm_mode: bool) -> u16 {
    if feedback {
        8
    } else if confirm_mode {
        9
    } else {
        10
    }
}

/// The verb of the confirmation question for a kill action.
pub open spec fn confirm_verb(a: ProcessAction) -> Seq<char> {
    if a == ProcessAction::Kill {
        "Kill"@
    } else {
        "Force kill"@
    }
}

impl ProcessMenu {
    /// The popup of the menu, centered in `area`, 44 cells wide at most.
    pub fn popup(&self, area: Area) -> (r: Area)
        requires
            area.x + area.width <= u16::MAX,
            area.y + area.height <= u16::MAX,
        ensures
            r == centered_of(area, 44, menu_height(self.feedback is Some, self.confirm_mode)),
    {
        let height: u16 = if self.feedback.is_some() {
            8
        } else if self.confirm_mode {
            9
        } else {
            10
        };
        centered_popup(area, 44, height)
    }

    /// The title of the menu: the target's name and PID.
    pub fn title(&self) -> (r: String)
        ensures
            r@ == " "@ + self.target_name@ + " (PID "@ + decimal(self.target_pid as nat) + ") "@,
    {
        let pid = decimal_string(self.target_pid as u64);
        text(" ").concat(self.target_name.as_str()).concat(" (PID ").concat(pid.as_str()).concat(
            ") ",
        )
    }

    /// The line of action `i`, marked when it is highlighted.
    pub fn entry(&self, i: usize) -> (r: String)
        requires
            i < ACTION_COUNT,
        ensures
            r@ == (if i == self.selected {
                "▸ "@
            } else {
                "  "@
            }) + action_label(action_at(i as int)),
    {
        let prefix = if i == self.selected {
            text("▸ ")
        } else {
            text("  ")
        };
        prefix.concat(ProcessAction::at(i).label())
    }

    /// The confirmation question for the highlighted kill action.
    pub fn confirm_prompt(&self) -> (r: String)
        requires
            self.selected < 2,
        ensures
            r@ == confirm_verb(action_at(self.selected as int)) + " \""@ + self.target_name@ + "\"?"@,
    {
        let verb = match self.current_action() {
            ProcessAction::Kill => text("Kill"),
            _ => text("Force kill"),
        };
        verb.concat(" \"").concat(self.target_name.as_str()).concat("\"?")
    }
}

// ── The process tree view ───────────────────────────────────────────────

/// Two spaces per level of depth.
pub open spec fn indent(depth: nat) -> Seq<char>
    decreases depth,
{
    if depth == 0 {
        Seq::empty()
    } else {
        indent((depth - 1) as nat) + "  "@
    }
}

/// The marker of a tree line: a pointer on the selected node, a dot on the
/// process the tree was built for, a branch elsewhere.
pub open spec fn tree_marker(selected: bool, is_target: bool) -> Seq<char> {
    if selected {
        "▸"@
    } else if is_target {
        "●"@
    } else {
        "├"@
    }
}

/// The line of a tree node: indented by depth, then marker, name and PID.
pub fn tree_line(node: &TreeNode, selected: bool) -> (r: String)
    requires
        node.depth >= 0,
    ensures
        r@ == indent(node.depth as nat) + tree_marker(selected, node.is_target) + " "@ + node.name@
            + " ("@ + decimal(node.pid as nat) + ")"@,
{
    let mut line = String::new();
    let mut k: i32 = 0;
    while k < node.depth
        invariant
            0 <= k <= node.depth,
            line@ == indent(k as nat),
        decreases node.depth - k,
    {
        line = line.concat("  ");
        k += 1;
    }
    let marker = if selected {
        "▸"
    } else if node.is_target {
        "●"
    } else {
        "├"
    };
    let pid = decimal_string(node.pid as u64);
    line.concat(marker).concat(" ").concat(node.name.as_str()).concat(" (").concat(pid.as_str()).concat(
        ")",
    )
}

/// The position counter of the tree view's footer: `[selected/total]`,
/// counting from 1.
pub fn tree_counter(selected: usize, total: usize) -> (r: String)
    requires
        selected < total,
    ensures
        r@ == "  ["@ + decimal((selected + 1) as nat) + "/"@ + decimal(total as nat) + "]"@,
{
    let a = decimal_string((selected + 1) as u64);
    let b = decimal_string(total as u64);
    text("  [").concat(a.as_str()).concat("/").concat(b.as_str()).concat("]")
}

} // verus!
