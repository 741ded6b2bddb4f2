use sys_monitor::app::{App, TreeNode};
use sys_monitor::keys::{Key, KeyCode};
use sys_monitor::labels::{header_cells, tree_counter, tree_line};
use sys_monitor::layout::{centered_popup, core_window, gauge_bar_width, tree_window, Area, CoreWindow};
use sys_monitor::menu::ProcessMenu;
use sys_monitor::process::SortColumn;
use sys_monitor::text::{format_uptime, truncate};

fn window(show_up: bool, show_down: bool, visible: usize, offset: usize) -> Option<CoreWindow> {
    Some(CoreWindow { show_up, show_down, visible, offset })
}

#[test]
fn core_window_without_rows_changes_nothing() {
    let mut offset = 3;
    assert_eq!(core_window(0, true, 8, &mut offset), None);
    assert_eq!(offset, 3);
}

#[test]
fn core_window_when_cores_are_hidden_or_have_no_room() {
    let mut offset = 3;
    assert_eq!(core_window(20, false, 8, &mut offset), window(false, false, 0, 0));
    assert_eq!(offset, 0);
    let mut offset = 2;
    assert_eq!(core_window(5, true, 8, &mut offset), window(false, false, 0, 0));
    assert_eq!(offset, 0);
}

#[test]
fn core_window_when_all_cores_fit() {
    let mut offset = 4;
    assert_eq!(core_window(13, true, 8, &mut offset), window(false, false, 8, 0));
    assert_eq!(offset, 0);
}

#[test]
fn core_window_scrolls() {
    // 10 rows: 5 slots for 8 cores
    let mut offset = 0;
    assert_eq!(core_window(10, true, 8, &mut offset), window(false, true, 4, 0));
    assert_eq!(offset, 0);
    let mut offset = 2;
    assert_eq!(core_window(10, true, 8, &mut offset), window(true, true, 3, 2));
    assert_eq!(offset, 2);
    let mut offset = 5;
    assert_eq!(core_window(10, true, 8, &mut offset), window(true, false, 3, 5));
    assert_eq!(offset, 5);
    // an offset past the last core is clamped
    let mut offset = 40;
    assert_eq!(core_window(10, true, 8, &mut offset), window(true, false, 1, 7));
    assert_eq!(offset, 7);
}

#[test]
fn core_window_with_a_single_slot() {
    // 6 rows: 1 slot; with an offset no bar fits and the offset resets
    let mut offset = 3;
    assert_eq!(core_window(6, true, 8, &mut offset), window(true, true, 0, 3));
    assert_eq!(offset, 0);
    let mut offset = 0;
    assert_eq!(core_window(6, true, 8, &mut offset), window(false, true, 0, 0));
    assert_eq!(offset, 0);
}

#[test]
fn gauge_bar_widths() {
    assert_eq!(gauge_bar_width(0), 0);
    assert_eq!(gauge_bar_width(19), 0);
    assert_eq!(gauge_bar_width(20), 1);
    assert_eq!(gauge_bar_width(60), 41);
}

#[test]
fn tree_window_keeps_the_selection_in_sight() {
    assert_eq!(tree_window(5, 2, 0, 20), (0, 5));
    assert_eq!(tree_window(5, 7, 0, 20), (3, 8));
    assert_eq!(tree_window(5, 1, 3, 20), (1, 6));
    assert_eq!(tree_window(5, 18, 16, 20), (16, 20));
    assert_eq!(tree_window(0, 7, 4, 20), (0, 0));
}

#[test]
fn popups_are_centered() {
    let area = Area { x: 0, y: 0, width: 100, height: 40 };
    assert_eq!(centered_popup(area, 50, 20), Area { x: 25, y: 10, width: 50, height: 20 });
    let small = Area { x: 3, y: 2, width: 30, height: 10 };
    assert_eq!(centered_popup(small, 50, 20), Area { x: 5, y: 4, width: 26, height: 6 });
    let tiny = Area { x: 1, y: 1, width: 3, height: 2 };
    assert_eq!(centered_popup(tiny, 50, 20), Area { x: 2, y: 2, width: 0, height: 0 });
}

#[test]
fn menu_popup_height_follows_the_mode() {
    let area = Area { x: 0, y: 0, width: 100, height: 40 };
    let mut menu = ProcessMenu::new();
    menu.open(12, "app".to_string());
    assert_eq!(menu.popup(area), Area { x: 28, y: 15, width: 44, height: 10 });
    menu.confirm_mode = true;
    assert_eq!(menu.popup(area).height, 9);
    menu.feedback = Some("ok".to_string());
    assert_eq!(menu.popup(area).height, 8);
}

#[test]
fn menu_texts() {
    let mut menu = ProcessMenu::new();
    menu.open(12, "app".to_string());
    assert_eq!(menu.title(), " app (PID 12) ");
    assert_eq!(menu.entry(0), "▸ Kill Process  (SIGTERM)");
    assert_eq!(menu.entry(3), "  Open File Location");
    assert_eq!(menu.confirm_prompt(), "Kill \"app\"?");
    menu.selected = 1;
    assert_eq!(menu.confirm_prompt(), "Force kill \"app\"?");
}

#[test]
fn table_header_marks_the_sort_column() {
    assert_eq!(header_cells(SortColumn::Cpu, false), vec!["PID", "Name", "CPU% ▼", "MEM%", "MEM", "Status"]);
    assert_eq!(header_cells(SortColumn::Memory, true), vec!["PID", "Name", "CPU%", "MEM% ▲", "MEM", "Status"]);
    assert_eq!(header_cells(SortColumn::Pid, false), vec!["PID ▼", "Name", "CPU%", "MEM%", "MEM", "Status"]);
    assert_eq!(header_cells(SortColumn::Name, true), vec!["PID", "Name ▲", "CPU%", "MEM%", "MEM", "Status"]);
}

#[test]
fn table_titles() {
    let mut app = App::new(&Vec::new(), 0);
    assert_eq!(app.table_title(), " PROCESSES ");
    app.on_key(Key { code: KeyCode::Char('/'), ctrl: false });
    app.on_key(Key { code: KeyCode::Char('v'), ctrl: false });
    assert_eq!(app.table_title(), " PROCESSES ─ filter: v▏");
    app.on_key(Key { code: KeyCode::Enter, ctrl: false });
    assert_eq!(app.table_title(), " PROCESSES ─ \"v\" ");
}

#[test]
fn tree_texts() {
    let node = TreeNode { pid: 77, name: "worker".to_string(), depth: 2, is_target: false };
    assert_eq!(tree_line(&node, false), "    ├ worker (77)");
    assert_eq!(tree_line(&node, true), "    ▸ worker (77)");
    let target = TreeNode { pid: 5, name: "main".to_string(), depth: 0, is_target: true };
    assert_eq!(tree_line(&target, false), "● main (5)");
    assert_eq!(tree_counter(4, 12), "  [5/12]");
    let mut app = App::new(&Vec::new(), 0);
    app.tree_origin_pid = 9;
    app.tree_origin_name = "init".to_string();
    assert_eq!(app.tree_title(), " Process Tree — init (PID 9) ");
}

#[test]
fn uptimes() {
    assert_eq!(format_uptime(3 * 86_400 + 14 * 3_600 + 59 * 60), "3d 14h");
    assert_eq!(format_uptime(86_400), "1d 0h");
    assert_eq!(format_uptime(5 * 3_600 + 12 * 60 + 30), "5h 12m");
    assert_eq!(format_uptime(3_600), "1h 0m");
    assert_eq!(format_uptime(12 * 60 + 59), "12m");
    assert_eq!(format_uptime(59), "0m");
    assert_eq!(format_uptime(0), "0m");
}

#[test]
fn truncated_names() {
    assert_eq!(truncate("editor", 25), "editor");
    assert_eq!(truncate("editor", 6), "editor");
    assert_eq!(truncate("editor", 5), "edit…");
    assert_eq!(truncate("éditeur", 4), "édi…");
    assert_eq!(truncate("editor", 1), "…");
    assert_eq!(truncate("editor", 0), "…");
    assert_eq!(truncate("", 0), "");
}
