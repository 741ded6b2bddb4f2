use sys_monitor::process::ProcessSample;
use sys_monitor::tree::{lineage_is_finite, pids_are_unique, process_tree, tree_around};

fn node(pid: u32, parent: Option<u32>, name: &str) -> ProcessSample {
    ProcessSample {
        pid,
        parent,
        name: name.to_string(),
        cpu_key: 0,
        memory: 1,
        status: "Sleep".to_string(),
        exe_path: None,
    }
}

fn family() -> Vec<ProcessSample> {
    vec![
        node(1, None, "init"),
        node(20, Some(1), "login"),
        node(300, Some(20), "shell"),
        node(4000, Some(300), "editor"),
        node(4001, Some(300), "make"),
        node(50000, Some(4001), "cc"),
        node(9, Some(1), "daemon"),
    ]
}

fn entry(pid: u32, name: &str, depth: i32) -> (u32, String, i32) {
    (pid, name.to_string(), depth)
}

#[test]
fn tree_lists_ancestors_target_and_descendants() {
    let tree = process_tree(&family(), 300);
    assert_eq!(
        tree,
        vec![
            entry(1, "init", -2),
            entry(20, "login", -1),
            entry(300, "shell", 0),
            entry(4000, "editor", 1),
            entry(4001, "make", 1),
            entry(50000, "cc", 2),
        ]
    );
}

#[test]
fn tree_of_a_root_process() {
    // children in list order, then the families of the children, last child first
    let tree = process_tree(&family(), 1);
    assert_eq!(
        tree,
        vec![
            entry(1, "init", 0),
            entry(20, "login", 1),
            entry(9, "daemon", 1),
            entry(300, "shell", 2),
            entry(4000, "editor", 3),
            entry(4001, "make", 3),
            entry(50000, "cc", 4),
        ]
    );
}

#[test]
fn tree_of_a_leaf_process() {
    let tree = process_tree(&family(), 50000);
    assert_eq!(
        tree,
        vec![
            entry(1, "init", -4),
            entry(20, "login", -3),
            entry(300, "shell", -2),
            entry(4001, "make", -1),
            entry(50000, "cc", 0),
        ]
    );
}

#[test]
fn tree_of_an_unlisted_process_still_finds_its_children() {
    let list = vec![node(5, Some(77), "orphan"), node(6, None, "other")];
    let tree = process_tree(&list, 77);
    assert_eq!(tree, vec![entry(5, "orphan", 1)]);
    assert!(process_tree(&list, 1234).is_empty());
}

#[test]
fn walk_up_stops_at_an_unlisted_parent() {
    let list = vec![node(5, Some(77), "orphan")];
    assert_eq!(process_tree(&list, 5), vec![entry(5, "orphan", 0)]);
}

#[test]
fn list_properties() {
    assert!(pids_are_unique(&family()));
    let mut twice = family();
    twice.push(node(9, None, "again"));
    assert!(!pids_are_unique(&twice));
    assert!(lineage_is_finite(&family(), 50000));
    let cycle = vec![node(1, Some(2), "a"), node(2, Some(1), "b"), node(3, Some(2), "c")];
    assert!(!lineage_is_finite(&cycle, 3));
    assert!(lineage_is_finite(&cycle, 99));
    let own_parent = vec![node(4, Some(4), "self")];
    assert!(!lineage_is_finite(&own_parent, 4));
}

#[test]
fn tree_around_refuses_lists_without_a_tree() {
    let cycle = vec![node(1, Some(2), "a"), node(2, Some(1), "b")];
    assert!(tree_around(&cycle, 1).is_none());
    let mut twice = family();
    twice.push(node(300, None, "again"));
    assert!(tree_around(&twice, 300).is_none());
    assert_eq!(tree_around(&family(), 300), Some(process_tree(&family(), 300)));
}

#[test]
fn every_tree_fits_in_the_list() {
    let procs = family();
    for target in [1, 20, 300, 4000, 4001, 50000, 9, 77] {
        let tree = process_tree(&procs, target);
        assert!(tree.len() <= procs.len());
        for i in 0..tree.len() {
            for j in (i + 1)..tree.len() {
                assert_ne!(tree[i].0, tree[j].0);
            }
        }
    }
    assert_eq!(process_tree(&procs, 1).len(), procs.len());
}
