use datadriver::scanner::{age_days, is_skipped_path, DirItem, WalkState};

fn item(path: &str, is_dir: bool, len: u64, accessed: u64) -> DirItem {
    DirItem {
        path: path.to_string(),
        name: path.rsplit('/').next().unwrap().to_string(),
        created: 1,
        modified: 2,
        accessed,
        is_file: !is_dir,
        is_dir,
        len,
    }
}

const NOW: u64 = 100 * 86400;

#[test]
fn age_in_days() {
    assert_eq!(age_days(0, NOW), u64::MAX);
    assert_eq!(age_days(NOW, NOW), 0);
    assert_eq!(age_days(NOW - 86400 * 3 - 1, NOW), 3);
}

#[test]
fn node_modules_paths_are_skipped() {
    assert!(is_skipped_path("/proj/node_modules/x"));
    assert!(is_skipped_path("/proj/Node_Modules"));
    assert!(!is_skipped_path("/proj/node-modules"));
}

#[test]
fn walk_records_everything_by_default() {
    let mut w = WalkState::start("/root");
    assert_eq!(w.next_dir(), Some("/root".to_string()));
    assert_eq!(w.next_dir(), None);
    w.visit(item("/root/sub", true, 4096, NOW - 10), NOW, 30, false);
    w.visit(item("/root/a.txt", false, 0, NOW - 10), NOW, 30, false);
    w.visit(item("/root/old.txt", false, 10, NOW - 40 * 86400), NOW, 30, false);
    w.visit(item("/root/node_modules", true, 0, NOW), NOW, 30, false);
    assert_eq!(w.next_dir(), Some("/root/sub".to_string()));
    w.visit(item("/root/sub/b", false, 5, 0), NOW, 30, false);
    assert_eq!(w.next_dir(), None);
    let es = w.finish();
    assert_eq!(es.len(), 4);
    let idx: Vec<usize> = es.iter().map(|e| e.index).collect();
    assert_eq!(idx, vec![1, 2, 3, 4]);
    assert!(es[0].is_dir && es[0].size == 0 && es[0].status == "RECENT" && !es[0].is_empty);
    assert!(es[1].is_empty && es[1].status == "RECENT");
    assert!(!es[2].is_empty && es[2].status == "OLD" && es[2].size == 10);
    assert_eq!(es[3].path, "/root/sub/b");
    assert_eq!(es[3].status, "OLD");
}

#[test]
fn walk_keeps_only_candidates_when_asked() {
    let mut w = WalkState::start("/r");
    let _ = w.next_dir();
    w.visit(item("/r/d", true, 0, NOW), NOW, 30, true);
    w.visit(item("/r/fresh", false, 10, NOW - 5), NOW, 30, true);
    w.visit(item("/r/empty", false, 0, NOW - 5), NOW, 30, true);
    w.visit(item("/r/stale", false, 10, NOW - 31 * 86400), NOW, 30, true);
    assert_eq!(w.stack.len(), 1);
    let es = w.finish();
    let names: Vec<&str> = es.iter().map(|e| e.name.as_str()).collect();
    assert_eq!(names, vec!["empty", "stale"]);
    assert!(es.iter().all(|e| !e.is_dir));
}

#[test]
fn threshold_is_inclusive() {
    let mut w = WalkState::start("/r");
    w.visit(item("/r/x", false, 1, NOW - 30 * 86400), NOW, 30, false);
    w.visit(item("/r/y", false, 1, NOW - 31 * 86400), NOW, 30, false);
    let es = w.finish();
    assert_eq!(es[0].status, "RECENT");
    assert_eq!(es[1].status, "OLD");
}
