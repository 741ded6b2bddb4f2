use sys_monitor::app::{
    App, ClipboardOutcome, Effect, RefreshPlan, MAX_PROCESS_ROWS, METRICS_INTERVAL_MS, ROWS_INTERVAL_MS,
};
use sys_monitor::keys::{is_quit, Key, KeyCode};
use sys_monitor::menu::{
    force_kill_outcome, kill_feedback, terminate_outcome, KillResult, ProcessAction, ProcessMenu,
    ACTION_COUNT,
};
use sys_monitor::process::{ProcessSample, SortColumn};
use sys_monitor::tree::process_tree;

fn key(code: KeyCode) -> Key {
    Key { code, ctrl: false }
}

fn ch(c: char) -> Key {
    key(KeyCode::Char(c))
}

fn sample(pid: u32, parent: Option<u32>, name: &str, cpu: f32, memory: u64, exe: Option<&str>) -> ProcessSample {
    ProcessSample {
        pid,
        parent,
        name: name.to_string(),
        cpu_key: if cpu > 0.0 { cpu.to_bits() } else { 0 },
        memory,
        status: "Run".to_string(),
        exe_path: exe.map(|e| e.to_string()),
    }
}

fn procs() -> Vec<ProcessSample> {
    vec![
        sample(1, None, "init", 0.1, 10, None),
        sample(40, Some(1), "shell", 5.0, 20, Some("/bin/shell")),
        sample(41, Some(40), "editor", 9.0, 30, Some("/bin/editor")),
    ]
}

fn is_nothing(e: &Effect) -> bool {
    matches!(e, Effect::Nothing)
}

#[test]
fn quit_keys() {
    assert!(is_quit(&ch('q')));
    assert!(is_quit(&key(KeyCode::Esc)));
    assert!(is_quit(&Key { code: KeyCode::Char('c'), ctrl: true }));
    assert!(!is_quit(&ch('c')));
    assert!(!is_quit(&ch('x')));
}

#[test]
fn start_up_state() {
    let app = App::new(&procs(), 1000);
    assert!(app.running);
    assert_eq!(app.sort_column, SortColumn::Cpu);
    assert!(!app.sort_ascending);
    assert!(app.show_per_core);
    assert_eq!(app.table_state.selected(), Some(0));
    let pids: Vec<u32> = app.processes.iter().map(|p| p.pid).collect();
    assert_eq!(pids, vec![41, 40, 1]);
    assert!(!app.process_menu.visible);
    let empty = App::new(&Vec::new(), 1000);
    assert_eq!(empty.table_state.selected(), None);
    assert_eq!(MAX_PROCESS_ROWS, 100);
}

#[test]
fn quitting_from_the_dashboard() {
    let mut app = App::new(&procs(), 1000);
    assert!(is_nothing(&app.on_key(ch('q'))));
    assert!(!app.running);
}

#[test]
fn quit_key_is_typed_into_the_filter() {
    let mut app = App::new(&procs(), 1000);
    app.on_key(ch('/'));
    assert!(app.filter_mode);
    app.on_key(ch('q'));
    assert!(app.running);
    assert_eq!(app.filter_text, "q");
    app.on_key(ch('x'));
    assert_eq!(app.filter_text, "qx");
    app.on_key(key(KeyCode::Backspace));
    assert_eq!(app.filter_text, "q");
    assert!(app.refresh_due);
    app.on_key(key(KeyCode::Enter));
    assert!(!app.filter_mode);
    assert_eq!(app.filter_text, "q");
    app.on_key(ch('/'));
    app.on_key(key(KeyCode::Esc));
    assert!(!app.filter_mode);
    assert_eq!(app.filter_text, "");
}

#[test]
fn table_navigation() {
    let mut app = App::new(&procs(), 1000);
    app.on_key(key(KeyCode::Down));
    assert_eq!(app.table_state.selected(), Some(1));
    app.on_key(ch('j'));
    app.on_key(ch('j'));
    assert_eq!(app.table_state.selected(), Some(2));
    app.on_key(key(KeyCode::Up));
    assert_eq!(app.table_state.selected(), Some(1));
    app.on_key(ch('g'));
    assert_eq!(app.table_state.selected(), Some(0));
    app.on_key(ch('k'));
    assert_eq!(app.table_state.selected(), Some(0));
    app.on_key(ch('G'));
    assert_eq!(app.table_state.selected(), Some(2));
}

#[test]
fn sort_keys() {
    let mut app = App::new(&procs(), 1000);
    app.on_key(ch('s'));
    assert_eq!(app.sort_column, SortColumn::Memory);
    assert!(app.refresh_due);
    app.on_key(ch('S'));
    assert!(app.sort_ascending);
    app.on_key(ch('S'));
    assert!(!app.sort_ascending);
}

#[test]
fn refresh_timing_and_selection_clamp() {
    let mut app = App::new(&procs(), 1000);
    let plan = |metrics: bool, rows: bool| RefreshPlan { metrics, rows };
    assert_eq!(METRICS_INTERVAL_MS, 1000);
    assert_eq!(ROWS_INTERVAL_MS, 2000);
    assert_eq!(app.tick(999, 999), plan(false, false));
    // the figures are due every second, the process list every two
    assert_eq!(app.tick(1000, 1000), plan(true, false));
    assert_eq!(app.tick(1000, 1999), plan(true, false));
    assert_eq!(app.tick(1000, 2000), plan(true, true));
    assert_eq!(app.tick(0, 2500), plan(false, true));
    app.on_key(ch('r'));
    assert_eq!(app.tick(0, 0), plan(true, true));
    app.on_key(ch('G'));
    assert_eq!(app.table_state.selected(), Some(2));
    app.on_key(ch('/'));
    app.on_key(ch('e'));
    app.on_key(ch('d'));
    app.on_key(key(KeyCode::Enter));
    app.apply_refresh(&procs(), 1000);
    assert!(!app.refresh_due);
    let pids: Vec<u32> = app.processes.iter().map(|p| p.pid).collect();
    assert_eq!(pids, vec![41]);
    assert_eq!(app.table_state.selected(), Some(0));
}

#[test]
fn per_core_keys() {
    let mut app = App::new(&procs(), 1000);
    app.on_key(ch(']'));
    app.on_key(ch(']'));
    assert_eq!(app.core_scroll_offset, 2);
    app.on_key(ch('['));
    assert_eq!(app.core_scroll_offset, 1);
    app.on_key(ch('1'));
    assert!(!app.show_per_core);
    assert_eq!(app.core_scroll_offset, 0);
    app.on_key(ch(']'));
    assert_eq!(app.core_scroll_offset, 0);
}

#[test]
fn help_is_dismissed_by_any_key() {
    let mut app = App::new(&procs(), 1000);
    app.on_key(ch('?'));
    assert!(app.show_help);
    app.on_key(key(KeyCode::Down));
    assert!(!app.show_help);
    assert_eq!(app.table_state.selected(), Some(0));
}

#[test]
fn menu_actions() {
    assert_eq!(ACTION_COUNT, 5);
    assert_eq!(ProcessAction::at(0), ProcessAction::Kill);
    assert_eq!(ProcessAction::at(4), ProcessAction::ProcessTree);
    assert_eq!(ProcessAction::Kill.label(), "Kill Process  (SIGTERM)");
    assert_eq!(ProcessAction::ForceKill.label(), "Force Kill    (SIGKILL)");
    assert_eq!(ProcessAction::CopyPid.label(), "Copy PID");
    assert_eq!(ProcessAction::OpenFileLocation.label(), "Open File Location");
    assert_eq!(ProcessAction::ProcessTree.label(), "Process Tree");
    let mut menu = ProcessMenu::new();
    assert!(!menu.visible);
    menu.open(7, "seven".to_string());
    assert!(menu.visible);
    assert_eq!(menu.current_action(), ProcessAction::Kill);
    menu.confirm_mode = true;
    menu.feedback = Some("done".to_string());
    menu.close();
    assert!(!menu.visible && !menu.confirm_mode && menu.feedback.is_none());
    // closing resets everything, as a new menu
    assert_eq!(menu.selected, 0);
    assert_eq!(menu.target_pid, 0);
    assert_eq!(menu.target_name, "");
}

#[test]
fn closing_the_menu_resets_it() {
    let mut app = App::new(&procs(), 1000);
    app.on_key(key(KeyCode::Enter));
    app.on_key(key(KeyCode::Down));
    app.on_key(key(KeyCode::Down));
    assert_eq!(app.process_menu.selected, 2);
    app.on_key(key(KeyCode::Esc));
    assert!(!app.process_menu.visible);
    assert_eq!(app.process_menu.selected, 0);
    assert_eq!(app.process_menu.target_pid, 0);
    assert_eq!(app.process_menu.target_name, "");
    // opening it again starts on the first action
    app.on_key(key(KeyCode::Enter));
    assert_eq!(app.process_menu.current_action(), ProcessAction::Kill);
    assert_eq!(app.process_menu.target_pid, 41);
}

#[test]
fn kill_key_asks_for_confirmation() {
    let mut app = App::new(&procs(), 1000);
    app.on_key(key(KeyCode::Down));
    assert_eq!(app.table_state.selected(), Some(1));
    assert!(is_nothing(&app.on_key(ch('K'))));
    assert!(app.process_menu.visible);
    assert!(app.process_menu.confirm_mode);
    assert_eq!(app.process_menu.current_action(), ProcessAction::Kill);
    assert_eq!(app.process_menu.target_pid, 40);
    assert_eq!(app.process_menu.target_name, "shell");
    match app.on_key(ch('y')) {
        Effect::Signal { pid, force } => {
            assert_eq!(pid, 40);
            assert!(!force);
        },
        _ => panic!("a signal was expected"),
    }
}

#[test]
fn kill_key_can_be_declined() {
    let mut app = App::new(&procs(), 1000);
    app.on_key(ch('K'));
    assert!(app.process_menu.confirm_mode);
    assert!(is_nothing(&app.on_key(ch('n'))));
    assert!(!app.process_menu.confirm_mode);
    assert!(app.process_menu.visible);
    assert_eq!(app.process_menu.target_pid, 41);
}

#[test]
fn kill_key_without_a_row_or_with_control_does_nothing() {
    let mut empty = App::new(&Vec::new(), 1000);
    assert!(is_nothing(&empty.on_key(ch('K'))));
    assert!(!empty.process_menu.visible);
    let mut app = App::new(&procs(), 1000);
    assert!(is_nothing(&app.on_key(Key { code: KeyCode::Char('K'), ctrl: true })));
    assert!(!app.process_menu.visible);
    // a lower-case k moves up instead
    app.on_key(ch('j'));
    app.on_key(ch('k'));
    assert!(!app.process_menu.visible);
    assert_eq!(app.table_state.selected(), Some(0));
}

#[test]
fn core_offset_is_only_raised_on_the_dashboard() {
    let mut app = App::new(&procs(), 1000);
    app.core_scroll_offset = usize::MAX;
    app.on_key(ch('?'));
    app.on_key(ch(']'));
    assert!(!app.show_help);
    assert_eq!(app.core_scroll_offset, usize::MAX);
    app.on_key(ch('/'));
    app.on_key(ch(']'));
    assert_eq!(app.filter_text, "]");
    assert_eq!(app.core_scroll_offset, usize::MAX);
}

#[test]
fn handlers_called_directly() {
    let mut app = App::new(&procs(), 1000);
    // the filter prompt: a character then Backspace restores the text
    app.filter_mode = true;
    app.filter_text = "ed".to_string();
    app.handle_filter_key(ch('x'));
    assert_eq!(app.filter_text, "edx");
    app.handle_filter_key(key(KeyCode::Backspace));
    assert_eq!(app.filter_text, "ed");
    assert!(app.filter_mode);
    app.handle_filter_key(key(KeyCode::Enter));
    assert!(!app.filter_mode);
    // the menu: down then up, and a kill action asks first
    app.process_menu.open(41, "editor".to_string());
    assert!(is_nothing(&app.handle_menu_key(key(KeyCode::Down))));
    assert_eq!(app.process_menu.selected, 1);
    app.handle_menu_key(key(KeyCode::Up));
    assert_eq!(app.process_menu.selected, 0);
    assert!(is_nothing(&app.execute_menu_action()));
    assert!(app.process_menu.confirm_mode);
    app.handle_menu_key(key(KeyCode::Esc));
    assert!(!app.process_menu.confirm_mode);
    app.handle_menu_key(key(KeyCode::Down));
    app.handle_menu_key(key(KeyCode::Down));
    match app.execute_menu_action() {
        Effect::CopyPid { pid } => assert_eq!(pid, 41),
        _ => panic!("a copy was expected"),
    }
    assert!(!app.process_menu.confirm_mode);
    // the dashboard handler
    app.process_menu.close();
    app.handle_table_key(ch('G'));
    assert_eq!(app.table_state.selected(), Some(2));
}

#[test]
fn kill_needs_confirmation() {
    let mut app = App::new(&procs(), 1000);
    app.on_key(key(KeyCode::Enter));
    assert!(app.process_menu.visible);
    assert_eq!(app.process_menu.target_pid, 41);
    assert_eq!(app.process_menu.target_name, "editor");
    assert!(is_nothing(&app.on_key(key(KeyCode::Enter))));
    assert!(app.process_menu.confirm_mode);
    match app.on_key(ch('y')) {
        Effect::Signal { pid, force } => {
            assert_eq!(pid, 41);
            assert!(!force);
        },
        _ => panic!("a signal was expected"),
    }
    app.signal_sent(KillResult::Success);
    assert!(!app.process_menu.confirm_mode);
    assert_eq!(app.process_menu.feedback.as_deref(), Some("✓ Signal sent successfully"));
    // any key closes the menu and asks for a refresh
    app.on_key(ch('z'));
    assert!(!app.process_menu.visible);
    assert!(app.refresh_due);
}

#[test]
fn force_kill_and_cancel() {
    let mut app = App::new(&procs(), 1000);
    app.on_key(key(KeyCode::Enter));
    app.on_key(key(KeyCode::Down));
    assert_eq!(app.process_menu.selected, 1);
    app.on_key(key(KeyCode::Enter));
    assert!(app.process_menu.confirm_mode);
    // q does not quit while the menu is open
    app.on_key(ch('q'));
    assert!(app.running);
    app.on_key(ch('n'));
    assert!(!app.process_menu.confirm_mode);
    app.on_key(key(KeyCode::Enter));
    match app.on_key(key(KeyCode::Enter)) {
        Effect::Signal { pid, force } => {
            assert_eq!(pid, 41);
            assert!(force);
        },
        _ => panic!("a signal was expected"),
    }
}

#[test]
fn menu_navigation_wraps() {
    let mut app = App::new(&procs(), 1000);
    app.on_key(key(KeyCode::Enter));
    app.on_key(key(KeyCode::Up));
    assert_eq!(app.process_menu.selected, 4);
    app.on_key(ch('j'));
    assert_eq!(app.process_menu.selected, 0);
    for _ in 0..5 {
        app.on_key(key(KeyCode::Down));
    }
    assert_eq!(app.process_menu.selected, 0);
    app.on_key(key(KeyCode::Esc));
    assert!(!app.process_menu.visible);
}

#[test]
fn copy_pid_flow() {
    let mut app = App::new(&procs(), 1000);
    app.on_key(key(KeyCode::Enter));
    app.on_key(key(KeyCode::Down));
    app.on_key(key(KeyCode::Down));
    match app.on_key(key(KeyCode::Enter)) {
        Effect::CopyPid { pid } => assert_eq!(pid, 41),
        _ => panic!("a copy was expected"),
    }
    app.copy_done(ClipboardOutcome::Copied);
    assert_eq!(app.process_menu.feedback.as_deref(), Some("✓ PID 41 copied to clipboard"));
    app.copy_done(ClipboardOutcome::Failed("busy".to_string()));
    assert_eq!(app.process_menu.feedback.as_deref(), Some("✗ Clipboard error: busy"));
    app.copy_done(ClipboardOutcome::Unavailable("no display".to_string()));
    assert_eq!(app.process_menu.feedback.as_deref(), Some("✗ Clipboard unavailable: no display"));
}

#[test]
fn reveal_flow() {
    let mut app = App::new(&procs(), 1000);
    app.on_key(key(KeyCode::Enter));
    for _ in 0..3 {
        app.on_key(key(KeyCode::Down));
    }
    match app.on_key(key(KeyCode::Enter)) {
        Effect::Reveal { path } => {
            assert_eq!(path, "/bin/editor");
            app.reveal_done(&path, None);
        },
        _ => panic!("a reveal was expected"),
    }
    assert_eq!(app.process_menu.feedback.as_deref(), Some("✓ Revealed: /bin/editor"));
    app.reveal_done("/x", Some("denied".to_string()));
    assert_eq!(app.process_menu.feedback.as_deref(), Some("✗ Failed to open Finder: denied"));
}

#[test]
fn reveal_without_a_path() {
    let mut app = App::new(&procs(), 1000);
    app.on_key(ch('G'));
    app.on_key(key(KeyCode::Enter));
    assert_eq!(app.process_menu.target_pid, 1);
    for _ in 0..3 {
        app.on_key(key(KeyCode::Down));
    }
    assert!(is_nothing(&app.on_key(key(KeyCode::Enter))));
    assert_eq!(app.process_menu.feedback.as_deref(), Some("✗ Executable path not available"));
}

#[test]
fn kill_outcomes() {
    assert_eq!(terminate_outcome(None), KillResult::NotFound);
    assert_eq!(terminate_outcome(Some(None)), KillResult::Unsupported);
    assert_eq!(terminate_outcome(Some(Some(true))), KillResult::Success);
    assert_eq!(terminate_outcome(Some(Some(false))), KillResult::Failed);
    assert_eq!(force_kill_outcome(None), KillResult::NotFound);
    assert_eq!(force_kill_outcome(Some(true)), KillResult::Success);
    assert_eq!(force_kill_outcome(Some(false)), KillResult::Failed);
    assert_eq!(kill_feedback(KillResult::NotFound), "✗ Process not found (already exited?)");
    assert_eq!(kill_feedback(KillResult::Unsupported), "✗ Signal not supported on this platform");
    assert_eq!(kill_feedback(KillResult::Failed), "✗ Failed (permission denied?)");
}

#[test]
fn process_tree_view() {
    let list = procs();
    let mut app = App::new(&list, 1000);
    app.on_key(ch('j'));
    app.on_key(key(KeyCode::Enter));
    assert_eq!(app.process_menu.target_pid, 40);
    for _ in 0..4 {
        app.on_key(key(KeyCode::Down));
    }
    let pid = match app.on_key(key(KeyCode::Enter)) {
        Effect::BuildTree { pid } => pid,
        _ => panic!("a tree was expected"),
    };
    assert_eq!(pid, 40);
    app.enter_process_tree(process_tree(&list, pid));
    assert!(app.show_process_tree);
    assert!(!app.process_menu.visible);
    assert_eq!(app.tree_origin_pid, 40);
    assert_eq!(app.tree_origin_name, "shell");
    let nodes: Vec<(u32, i32, bool)> = app.tree_nodes.iter().map(|n| (n.pid, n.depth, n.is_target)).collect();
    assert_eq!(nodes, vec![(1, 0, false), (40, 1, true), (41, 2, false)]);
    assert_eq!(app.tree_selected, 1);
    app.on_key(key(KeyCode::Down));
    assert_eq!(app.tree_selected, 2);
    app.on_key(key(KeyCode::Down));
    assert_eq!(app.tree_selected, 2);
    app.on_key(ch('g'));
    assert_eq!(app.tree_selected, 0);
    app.on_key(key(KeyCode::End));
    assert_eq!(app.tree_selected, 2);
    // Enter opens the menu on the selected node, on top of the tree
    app.handle_key(key(KeyCode::Enter));
    assert!(app.process_menu.visible);
    assert_eq!(app.process_menu.target_pid, 41);
    app.handle_key(key(KeyCode::Esc));
    assert!(!app.process_menu.visible);
    assert!(app.show_process_tree);
    // Esc in the tree view itself closes it
    app.handle_key(key(KeyCode::Esc));
    assert!(!app.show_process_tree);
    assert!(app.tree_nodes.is_empty());
    assert_eq!(app.tree_selected, 0);
}

#[test]
fn empty_tree_reports_failure() {
    let mut app = App::new(&procs(), 1000);
    app.on_key(key(KeyCode::Enter));
    app.enter_process_tree(Vec::new());
    assert!(!app.show_process_tree);
    assert!(app.process_menu.visible);
    assert_eq!(app.process_menu.feedback.as_deref(), Some("✗ Could not build process tree"));
}

#[test]
fn per_core_toggle_twice_restores_the_view() {
    let mut app = App::new(&procs(), 1000);
    app.on_key(ch(']'));
    app.on_key(ch('1'));
    app.on_key(ch('1'));
    assert!(app.show_per_core);
    assert_eq!(app.core_scroll_offset, 0);
}

#[test]
fn quit_key_in_the_tree_view_quits() {
    let list = procs();
    let mut app = App::new(&list, 1000);
    app.on_key(key(KeyCode::Enter));
    app.enter_process_tree(process_tree(&list, 41));
    assert!(app.show_process_tree);
    app.on_key(ch('q'));
    assert!(!app.running);
}
