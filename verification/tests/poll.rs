use rubbish::pager::{choose_pager, pager_or_cat};
use rubbish::poll::{changes_between, ChangeKind, Snapshot};

fn snapshot(files: &[(&str, i128)]) -> Snapshot {
    let mut s = Snapshot::new();
    for (path, time) in files {
        s.insert(path.to_string(), *time);
    }
    s
}

fn diff(last: &Snapshot, current: &Snapshot) -> Vec<(String, ChangeKind)> {
    changes_between(last, current).into_iter().map(|c| (c.path, c.kind)).collect()
}

#[test]
fn snapshots() {
    let s = snapshot(&[("a", 1), ("b", 2), ("a", 3)]);
    assert_eq!(s.get(&"a".to_string()), Some(3));
    assert_eq!(s.get(&"b".to_string()), Some(2));
    assert_eq!(s.get(&"c".to_string()), None);
}

#[test]
fn what_changed() {
    let last = snapshot(&[("same", 1), ("changed", 1), ("gone", 1)]);
    let current = snapshot(&[("new", 1), ("changed", 2), ("same", 1)]);
    let mut found = diff(&last, &current);
    assert_eq!(found.last().unwrap(), &("gone".to_string(), ChangeKind::Removed));
    found.sort_by(|a, b| a.0.cmp(&b.0));
    assert_eq!(
        found,
        vec![
            ("changed".to_string(), ChangeKind::Modified),
            ("gone".to_string(), ChangeKind::Removed),
            ("new".to_string(), ChangeKind::Created),
        ]
    );
}

#[test]
fn nothing_changed() {
    let a = snapshot(&[("x", 1), ("y", 2)]);
    let b = snapshot(&[("y", 2), ("x", 1)]);
    assert!(diff(&a, &b).is_empty());
    assert!(diff(&Snapshot::new(), &Snapshot::new()).is_empty());
}

#[test]
fn everything_changed() {
    let a = snapshot(&[("x", 1)]);
    assert_eq!(diff(&Snapshot::new(), &a), vec![("x".to_string(), ChangeKind::Created)]);
    assert_eq!(diff(&a, &Snapshot::new()), vec![("x".to_string(), ChangeKind::Removed)]);
}

#[test]
fn pagers() {
    assert_eq!(choose_pager(true, true), Some("jless"));
    assert_eq!(choose_pager(true, false), Some("jless"));
    assert_eq!(choose_pager(false, true), Some("less"));
    assert_eq!(choose_pager(false, false), None);
    assert_eq!(pager_or_cat(false, false), "cat");
    assert_eq!(pager_or_cat(false, true), "less");
    assert_eq!(pager_or_cat(true, false), "jless");
}
