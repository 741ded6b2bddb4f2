use sys_monitor::process::{collect_processes, process_is_visible, ProcessInfo, ProcessSample, SortColumn};
use sys_monitor::sort::{compare_rows, sort_rows};
use sys_monitor::text::{contains_run, decimal_string};

fn sample(pid: u32, name: &str, cpu: f32, memory: u64) -> ProcessSample {
    ProcessSample {
        pid,
        parent: None,
        name: name.to_string(),
        cpu_key: if cpu > 0.0 { cpu.to_bits() } else { 0 },
        memory,
        status: "Run".to_string(),
        exe_path: None,
    }
}

fn pids(rows: &[ProcessInfo]) -> Vec<u32> {
    rows.iter().map(|r| r.pid).collect()
}

fn chars(s: &str) -> Vec<char> {
    s.chars().collect()
}

fn procs() -> Vec<ProcessSample> {
    vec![
        sample(10, "bash", 1.5, 300),
        sample(2, "Firefox", 20.0, 900),
        sample(7, "idle", 0.0, 0),
        sample(5, "cargo", 3.25, 100),
        sample(3, "zsh", 0.0, 50),
    ]
}

#[test]
fn sort_column_cycles() {
    assert_eq!(SortColumn::Cpu.next(), SortColumn::Memory);
    assert_eq!(SortColumn::Memory.next(), SortColumn::Pid);
    assert_eq!(SortColumn::Pid.next(), SortColumn::Name);
    assert_eq!(SortColumn::Name.next(), SortColumn::Cpu);
    let mut c = SortColumn::Pid;
    for _ in 0..4 {
        c = c.next();
    }
    assert_eq!(c, SortColumn::Pid);
}

#[test]
fn sort_column_labels() {
    assert_eq!(SortColumn::Cpu.label(), "CPU%");
    assert_eq!(SortColumn::Memory.label(), "MEM%");
    assert_eq!(SortColumn::Pid.label(), "PID");
    assert_eq!(SortColumn::Name.label(), "Name");
}

#[test]
fn idle_processes_are_hidden() {
    assert!(!process_is_visible(&sample(1, "idle", 0.0, 0)));
    assert!(process_is_visible(&sample(1, "a", 0.5, 0)));
    assert!(process_is_visible(&sample(1, "a", 0.0, 1)));
    let rows = collect_processes(&procs(), 1000, SortColumn::Pid, false, None, 100);
    assert_eq!(pids(&rows), vec![2, 3, 5, 10]);
}

#[test]
fn default_sort_is_cpu_highest_first() {
    let rows = collect_processes(&procs(), 1000, SortColumn::Cpu, false, None, 100);
    assert_eq!(pids(&rows), vec![2, 5, 10, 3]);
}

#[test]
fn ascending_reverses_the_cpu_order() {
    let rows = collect_processes(&procs(), 1000, SortColumn::Cpu, true, None, 100);
    assert_eq!(pids(&rows), vec![3, 10, 5, 2]);
}

#[test]
fn memory_sort_is_highest_first() {
    let rows = collect_processes(&procs(), 1000, SortColumn::Memory, false, None, 100);
    assert_eq!(pids(&rows), vec![2, 10, 5, 3]);
}

#[test]
fn memory_sort_without_total_keeps_reported_order() {
    // every share is 0 when the total is unknown: the sort keeps the order
    let rows = collect_processes(&procs(), 0, SortColumn::Memory, false, None, 100);
    assert_eq!(pids(&rows), vec![10, 2, 5, 3]);
}

#[test]
fn pid_sort_is_lowest_first() {
    let rows = collect_processes(&procs(), 1000, SortColumn::Pid, false, None, 100);
    assert_eq!(pids(&rows), vec![2, 3, 5, 10]);
    let rows = collect_processes(&procs(), 1000, SortColumn::Pid, true, None, 100);
    assert_eq!(pids(&rows), vec![10, 5, 3, 2]);
}

#[test]
fn name_sort_ignores_case() {
    let rows = collect_processes(&procs(), 1000, SortColumn::Name, false, None, 100);
    // bash, cargo, Firefox, zsh
    assert_eq!(pids(&rows), vec![10, 5, 2, 3]);
}

#[test]
fn ties_keep_the_reported_order() {
    let list = vec![
        sample(9, "b", 1.0, 10),
        sample(4, "a", 1.0, 10),
        sample(6, "c", 2.0, 10),
        sample(1, "d", 1.0, 10),
    ];
    let rows = collect_processes(&list, 100, SortColumn::Cpu, false, None, 100);
    assert_eq!(pids(&rows), vec![6, 9, 4, 1]);
    let rows = collect_processes(&list, 100, SortColumn::Cpu, true, None, 100);
    assert_eq!(pids(&rows), vec![9, 4, 1, 6]);
}

#[test]
fn filter_matches_names_in_any_case() {
    let rows = collect_processes(&procs(), 1000, SortColumn::Pid, false, Some("FIRE"), 100);
    assert_eq!(pids(&rows), vec![2]);
    let rows = collect_processes(&procs(), 1000, SortColumn::Pid, false, Some("sh"), 100);
    assert_eq!(pids(&rows), vec![3, 10]);
    let rows = collect_processes(&procs(), 1000, SortColumn::Pid, false, Some("nothing"), 100);
    assert!(rows.is_empty());
    // the idle process stays hidden even when its name matches
    let rows = collect_processes(&procs(), 1000, SortColumn::Pid, false, Some("idle"), 100);
    assert!(rows.is_empty());
}

#[test]
fn table_is_cut_to_max_rows() {
    let rows = collect_processes(&procs(), 1000, SortColumn::Cpu, false, None, 2);
    assert_eq!(pids(&rows), vec![2, 5]);
    let rows = collect_processes(&procs(), 1000, SortColumn::Cpu, false, None, 0);
    assert!(rows.is_empty());
}

#[test]
fn rows_keep_what_was_reported() {
    let mut list = procs();
    list[1].exe_path = Some("/usr/bin/firefox".to_string());
    let rows = collect_processes(&list, 1000, SortColumn::Cpu, false, None, 1);
    assert_eq!(rows[0].pid, 2);
    assert_eq!(rows[0].name, "Firefox");
    assert_eq!(rows[0].mem_bytes, 900);
    assert_eq!(f32::from_bits(rows[0].cpu_key), 20.0);
    assert_eq!(rows[0].status, "Run");
    assert_eq!(rows[0].exe_path, Some("/usr/bin/firefox".to_string()));
}

#[test]
fn compare_rows_follows_the_column() {
    let rows = collect_processes(&procs(), 1000, SortColumn::Pid, false, None, 100);
    // rows: pid 2 Firefox, 3 zsh, 5 cargo, 10 bash
    assert_eq!(compare_rows(&rows[0], &rows[1], SortColumn::Pid, false, 1000), -1);
    assert_eq!(compare_rows(&rows[0], &rows[1], SortColumn::Pid, true, 1000), 1);
    assert_eq!(compare_rows(&rows[0], &rows[0], SortColumn::Name, false, 1000), 0);
    assert_eq!(compare_rows(&rows[3], &rows[2], SortColumn::Name, false, 1000), -1);
    assert_eq!(compare_rows(&rows[0], &rows[2], SortColumn::Memory, false, 0), 0);
}

#[test]
fn sort_rows_is_stable() {
    let rows = collect_processes(&procs(), 1000, SortColumn::Pid, false, None, 100);
    let sorted = sort_rows(rows, SortColumn::Memory, false, 0);
    assert_eq!(pids(&sorted), vec![2, 3, 5, 10]);
}

#[test]
fn substring_search() {
    assert!(contains_run(&chars("firefox"), &chars("refo")));
    assert!(contains_run(&chars("firefox"), &chars("")));
    assert!(contains_run(&chars("abc"), &chars("abc")));
    assert!(!contains_run(&chars("abc"), &chars("abcd")));
    assert!(!contains_run(&chars("abc"), &chars("ac")));
}

#[test]
fn decimal_notation() {
    assert_eq!(decimal_string(0), "0");
    assert_eq!(decimal_string(7), "7");
    assert_eq!(decimal_string(10), "10");
    assert_eq!(decimal_string(4096), "4096");
    assert_eq!(decimal_string(u64::MAX), "18446744073709551615");
}

#[test]
fn the_table_depends_on_its_inputs_only() {
    let a = collect_processes(&procs(), 1000, SortColumn::Name, true, Some("a"), 3);
    let b = collect_processes(&procs(), 1000, SortColumn::Name, true, Some("a"), 3);
    assert_eq!(pids(&a), pids(&b));
    // names holding "a" (bash, cargo): descending by name
    assert_eq!(pids(&a), vec![5, 10]);
}
