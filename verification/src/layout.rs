use vstd::prelude::*;

verus! {

// ── The CPU panel's per-core window ─────────────────────────────────────

/// Which per-core bars the CPU panel shows: `visible` cores from `offset`
/// on, with a "more above" line when `show_up` and a "more below" line when
/// `show_down`.
#[derive(Clone, Copy, Debug, PartialEq, Eq, Structural)]
pub struct CoreWindow {
    pub show_up: bool,
    pub show_down: bool,
    pub visible: usize,
    pub offset: usize,
}

/// The rows the panel has for per-core bars and their scroll lines: what is
/// left of `rows` after the overall bar, the blanks and the footer.
pub open spec fn core_slots(rows: int, show_per_core: bool) -> int {
    if show_per_core && rows > 5 {
        rows - 5
    } else {
        0
    }
}

/// The window shown for `total` cores in `rows` rows when the scroll offset
/// is `scroll`, and the scroll offset kept afterwards.
///
/// When per-core bars are off, or there is no room for them, or all cores
/// fit, no scrolling happens and the offset goes back to 0. Otherwise the
/// offset is clamped to the last core; a line saying how many cores lie
/// above takes a row when the offset is past the first core; the cores from
/// the offset fill the remaining rows, and when they do not all fit, one
/// more row goes to a line saying how many lie below.
pub open spec fn core_window_of(rows: int, show_per_core: bool, total: int, scroll: int) -> (
    CoreWindow,
    int,
) {
    let slots = core_slots(rows, show_per_core);
    if slots == 0 {
        (CoreWindow { show_up: false, show_down: false, visible: 0, offset: 0 }, 0)
    } else if total <= slots {
        (CoreWindow { show_up: false, show_down: false, visible: total as usize, offset: 0 }, 0)
    } else {
        let off = if scroll < total - 1 {
            scroll
        } else {
            total - 1
        };
        let room = if off > 0 {
            slots - 1
        } else {
            slots
        };
        if total - off <= room {
            (
                CoreWindow {
                    show_up: off > 0,
                    show_down: false,
                    visible: (total - off) as usize,
                    offset: off as usize,
                },
                off,
            )
        } else {
            let vis = if room > 0 {
                room - 1
            } else {
                0
            };
            (
                CoreWindow {
                    show_up: off > 0,
                    show_down: true,
                    visible: vis as usize,
                    offset: off as usize,
                },
                if vis == 0 {
                    0
                } else {
                    off
                },
            )
        }
    }
}

/// Lays out the per-core bars of the CPU panel in `available_rows` rows.
/// Returns `None`, leaving the offset alone, when the panel has no rows;
/// otherwise updates the scroll offset as `core_window_of` says.
pub fn core_window(available_rows: usize, show_per_core: bool, total_cores: usize, scroll_offset: &mut usize) -> (r: Option<CoreWindow>)
    ensures
        available_rows == 0 ==> r is None && *final(scroll_offset) == *old(scroll_offset),
        available_rows > 0 ==> r == Some(
            core_window_of(available_rows as int, show_per_core, total_cores as int, *old(scroll_offset) as int).0,
        ) && *final(scroll_offset) as int == core_window_of(
            available_rows as int,
            show_per_core,
            total_cores as int,
            *old(scroll_offset) as int,
        ).1,
{
    if available_rows == 0 {
        return None;
    }
    // Fixed rows: overall(1) + blank(1) + footer(2) = 4
    // When per-core is shown: + blank separator after cores(1) = 5
    let fixed_rows: usize = if show_per_core {
        5
    } else {
        4
    };
    let core_slots: usize = if show_per_core && available_rows > fixed_rows {
        available_rows - fixed_rows
    } else {
        0
    };
    let need_scroll = show_per_core && total_cores > core_slots;
    if !show_per_core || core_slots == 0 {
        *scroll_offset = 0;
        Some(CoreWindow { show_up: false, show_down: false, visible: 0, offset: 0 })
    } else if !need_scroll {
        // All cores fit — no scrolling needed
        *scroll_offset = 0;
        Some(CoreWindow { show_up: false, show_down: false, visible: total_cores, offset: 0 })
    } else {
        // Clamp the scroll offset first
        let max_offset = total_cores - 1;
        if *scroll_offset > max_offset {
            *scroll_offset = max_offset;
        }
        let actual_offset = *scroll_offset;
        let has_items_above = actual_offset > 0;
        let indicator_overhead: usize = if has_items_above {
            1
        } else {
            0
        };
        let slots_for_cores = core_slots - indicator_overhead;
        // Determine how many cores we can show after the offset
        let remaining = total_cores - actual_offset;
        let can_show = if remaining < slots_for_cores {
            remaining
        } else {
            slots_for_cores
        };
        // If there are items below, a row goes to the indicator
        let has_items_below = actual_offset + can_show < total_cores;
        let final_slots = if has_items_below && slots_for_cores > 0 {
            slots_for_cores - 1
        } else if has_items_below {
            0
        } else {
            slots_for_cores
        };
        let final_can_show = if remaining < final_slots {
            remaining
        } else {
            final_slots
        };
        let final_has_below = actual_offset + final_can_show < total_cores;
        if final_can_show == 0 && total_cores > 0 {
            *scroll_offset = 0;
        }
        Some(
            CoreWindow {
                show_up: has_items_above,
                show_down: final_has_below,
                visible: final_can_show,
                offset: actual_offset,
            },
        )
    }
}

/// The per-core window wastes no row: a "more below" line is shown only
/// when the cores from the offset do not fit in the rows left for bars
/// (after a "more above" line, if any), and then the bars take every other
/// row; without that line, every core from the offset on is shown.
pub proof fn lemma_core_window_wastes_no_row(rows: int, show_per_core: bool, total: int, scroll: int)
    requires
        rows > 0,
        0 <= total <= usize::MAX,
        0 <= scroll <= usize::MAX,
    ensures
        ({
            let w = core_window_of(rows, show_per_core, total, scroll).0;
            let slots = core_slots(rows, show_per_core);
            let up: int = if w.show_up { 1 } else { 0 };
            &&& w.show_down ==> up + (total - w.offset) > slots
            &&& w.show_down ==> w.visible == (if slots - up - 1 > 0 { slots - up - 1 } else { 0 })
            &&& slots > 0 && !w.show_down ==> w.offset + w.visible == total
        }),
{
}

/// Where the per-core window starts: at the first core, with every core
/// shown, when all cores fit the rows for bars; otherwise at the scroll
/// offset, kept within the cores (at most the last core). The offset kept
/// afterwards is the window's start while any bar is shown.
pub proof fn lemma_core_window_start(rows: int, show_per_core: bool, total: int, scroll: int)
    requires
        rows > 0,
        0 <= total <= usize::MAX,
        0 <= scroll <= usize::MAX,
    ensures
        ({
            let (w, kept) = core_window_of(rows, show_per_core, total, scroll);
            let slots = core_slots(rows, show_per_core);
            &&& slots == 0 ==> w.visible == 0 && kept == 0
            &&& slots > 0 && total <= slots ==> w == (CoreWindow {
                show_up: false,
                show_down: false,
                visible: total as usize,
                offset: 0,
            }) && kept == 0
            &&& slots > 0 && total > slots ==> w.offset == (if scroll < total - 1 {
                scroll
            } else {
                total - 1
            })
            &&& w.visible > 0 ==> kept == w.offset
        }),
{
}

/// The tree's window does not move while the selection is in it, and
/// otherwise moves just far enough to bring the selection in; it shows as
/// many nodes as fit, up to the last.
pub proof fn lemma_tree_window_moves_least(height: int, selected: int, scroll: int, total: int)
    requires
        height > 0,
        0 <= scroll,
        0 <= selected < total,
    ensures
        ({
            let (first, end) = tree_window_of(height, selected, scroll, total);
            &&& scroll <= selected < scroll + height ==> first == scroll
            &&& selected < scroll ==> first == selected
            &&& selected >= scroll + height ==> first + height - 1 == selected
            &&& end == (if first + height < total { first + height } else { total })
        }),
{
}

/// The per-core window always lies within the cores and the "more above"
/// line shows exactly when the window starts past the first core; when
/// there is room for bars, the "more below" line shows exactly when the
/// window ends before the last core, and the lines and bars fit the rows set
/// aside for them whenever any bar is shown.
pub proof fn lemma_core_window_fits(rows: int, show_per_core: bool, total: int, scroll: int)
    requires
        rows > 0,
        0 <= total <= usize::MAX,
        0 <= scroll <= usize::MAX,
    ensures
        ({
            let w = core_window_of(rows, show_per_core, total, scroll).0;
            let slots = core_slots(rows, show_per_core);
            &&& w.offset + w.visible <= total
            &&& w.show_up == (w.offset > 0)
            &&& slots > 0 ==> w.show_down == (w.offset + w.visible < total)
            &&& w.visible > 0 ==> (if w.show_up { 1int } else { 0 }) + w.visible + (if w.show_down {
                1int
            } else {
                0
            }) <= slots
        }),
{
}

// ── Gauge bars ──────────────────────────────────────────────────────────

/// The width of a gauge bar in a line `width` wide: what is left after the
/// 10-column label, the 7-column percentage and the 2-column gap.
pub fn gauge_bar_width(width: usize) -> (r: usize)
    ensures
        r == if width >= 19 {
            width - 19
        } else {
            0
        },
{
    let label_width: usize = 10;
    let pct_width: usize = 7;
    let gap: usize = 2;
    let a = if width > label_width {
        width - label_width
    } else {
        0
    };
    let b = if a > pct_width {
        a - pct_width
    } else {
        0
    };
    if b > gap {
        b - gap
    } else {
        0
    }
}

// ── The process tree's scroll window ────────────────────────────────────

/// The first and one-past-last node shown when `height` lines are free for
/// `total` nodes, `selected` is highlighted and the view was scrolled to
/// `scroll`: the view scrolls just enough to keep the selection in sight.
pub open spec fn tree_window_of(height: int, selected: int, scroll: int, total: int) -> (int, int) {
    let first = if height == 0 {
        0
    } else if selected < scroll {
        selected
    } else if selected >= scroll + height {
        selected - height + 1
    } else {
        scroll
    };
    (first, if first + height < total { first + height } else { total })
}

/// Chooses which tree nodes are drawn (see `tree_window_of`).
pub fn tree_window(height: usize, selected: usize, scroll: usize, total: usize) -> (r: (usize, usize))
    requires
        scroll + height <= usize::MAX,
        selected + height <= usize::MAX,
    ensures
        (r.0 as int, r.1 as int) == tree_window_of(height as int, selected as int, scroll as int, total as int),
{
    let first = if height == 0 {
        0
    } else if selected < scroll {
        selected
    } else if selected >= scroll + height {
        selected - height + 1
    } else {
        scroll
    };
    let end = if first + height < total {
        first + height
    } else {
        total
    };
    (first, end)
}

/// With room for at least one line, the selected node is among those drawn.
pub proof fn lemma_tree_window_shows_selection(height: int, selected: int, scroll: int, total: int)
    requires
        height > 0,
        0 <= scroll,
        0 <= selected < total,
    ensures
        tree_window_of(height, selected, scroll, total).0 <= selected < tree_window_of(
            height,
            selected,
            scroll,
            total,
        ).1,
        tree_window_of(height, selected, scroll, total).1 - tree_window_of(height, selected, scroll, total).0
            <= height,
{
}

// ── Popups ──────────────────────────────────────────────────────────────

/// A rectangle of terminal cells.
#[derive(Clone, Copy, Debug, PartialEq, Eq, Structural)]
pub struct Area {
    pub x: u16,
    pub y: u16,
    pub width: u16,
    pub height: u16,
}

/// A popup of at most `width` by `height` cells centered in `area`, leaving
/// a margin of 2 cells on each side where it can.
pub open spec fn centered_of(area: Area, width: u16, height: u16) -> Area {
    let room_w = if area.width >= 4 { area.width - 4 } else { 0 };
    let room_h = if area.height >= 4 { area.height - 4 } else { 0 };
    let w = if width < room_w { width as int } else { room_w };
    let h = if height < room_h { height as int } else { room_h };
    Area {
        x: (area.x + (area.width - w) / 2) as u16,
        y: (area.y + (area.height - h) / 2) as u16,
        width: w as u16,
        height: h as u16,
    }
}

/// Centers a popup of at most `width` by `height` cells in `area`.
pub fn centered_popup(area: Area, width: u16, height: u16) -> (r: Area)
    requires
        area.x + area.width <= u16::MAX,
        area.y + area.height <= u16::MAX,
    ensures
        r == centered_of(area, width, height),
        area.x <= r.x,
        r.x + r.width <= area.x + area.width,
        area.y <= r.y,
        r.y + r.height <= area.y + area.height,
{
    let room_w = if area.width >= 4 {
        area.width - 4
    } else {
        0
    };
    let room_h = if area.height >= 4 {
        area.height - 4
    } else {
        0
    };
    let w = if width < room_w {
        width
    } else {
        room_w
    };
    let h = if height < room_h {
        height
    } else {
        room_h
    };
    let x = area.x + (area.width - w) / 2;
    let y = area.y + (area.height - h) / 2;
    Area { x, y, width: w, height: h }
}

} // verus!
