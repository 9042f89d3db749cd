use rubbish::tags::{filter_indices_mode, passes_filter, tag_counts, unique_tags, TagSet};

fn row(tags: &[&str]) -> Vec<String> {
    tags.iter().map(|t| t.to_string()).collect()
}

#[test]
fn test_filter_indices_basic() {
    let mut tags_vec: Vec<Vec<String>> = Vec::new();
    tags_vec.push(vec!["a".to_string(), "b".to_string()]);
    tags_vec.push(vec!["b".to_string(), "c".to_string()]);
    tags_vec.push(vec!["a".to_string(), "c".to_string()]);

    let mut sel = TagSet::new();
    let all = filter_indices_mode(&sel, &tags_vec, true);
    assert_eq!(all, vec![0, 1, 2]);

    sel.insert("a".to_string());
    let a_idxs = filter_indices_mode(&sel, &tags_vec, true);
    assert_eq!(a_idxs, vec![0, 2]);

    sel.insert("b".to_string());
    let ab_idxs = filter_indices_mode(&sel, &tags_vec, true);
    assert_eq!(ab_idxs, vec![0]);

    sel.insert("z".to_string());
    let none = filter_indices_mode(&sel, &tags_vec, true);
    assert!(none.is_empty());
}

#[test]
fn tui_test_filter_indices_basic() {
    let tags_vec = vec![row(&["a", "b"]), row(&["b", "c"]), row(&["a", "c"])];

    let mut sel = TagSet::new();
    assert_eq!(filter_indices_mode(&sel, &tags_vec, true), vec![0, 1, 2]);

    sel.insert("a".to_string());
    assert_eq!(filter_indices_mode(&sel, &tags_vec, true), vec![0, 2]);

    sel.insert("b".to_string());
    assert_eq!(filter_indices_mode(&sel, &tags_vec, true), vec![0]);

    sel.insert("z".to_string());
    assert!(filter_indices_mode(&sel, &tags_vec, true).is_empty());
}

#[test]
fn test_filter_indices_mode_union() {
    let mut tags_vec: Vec<Vec<String>> = Vec::new();
    tags_vec.push(vec!["a".to_string(), "b".to_string()]);
    tags_vec.push(vec!["b".to_string(), "c".to_string()]);
    tags_vec.push(vec!["d".to_string()]);

    let mut sel = TagSet::new();
    sel.insert("b".to_string());
    let union = filter_indices_mode(&sel, &tags_vec, false);
    assert_eq!(union, vec![0, 1]);

    sel.insert("d".to_string());
    let union2 = filter_indices_mode(&sel, &tags_vec, false);
    assert_eq!(union2, vec![0, 1, 2]);
}

#[test]
fn tui_test_filter_indices_mode_union() {
    let tags_vec = vec![row(&["a", "b"]), row(&["b", "c"]), row(&["d"])];

    let mut sel = TagSet::new();
    sel.insert("b".to_string());
    assert_eq!(filter_indices_mode(&sel, &tags_vec, false), vec![0, 1]);

    sel.insert("d".to_string());
    assert_eq!(filter_indices_mode(&sel, &tags_vec, false), vec![0, 1, 2]);
}

#[test]
fn a_set_holds_a_tag_once() {
    let mut set = TagSet::new();
    assert!(set.is_empty());
    set.insert("x".to_string());
    set.insert("x".to_string());
    assert!(set.contains(&"x".to_string()));
    set.remove(&"x".to_string());
    assert!(!set.contains(&"x".to_string()));
    assert!(set.is_empty());
    set.remove(&"y".to_string());
    assert!(set.is_empty());
    set.insert("x".to_string());
    set.insert("y".to_string());
    set.clear();
    assert!(set.is_empty());
}

#[test]
fn unused_tags_are_dropped() {
    let mut set = TagSet::new();
    set.insert("kept".to_string());
    set.insert("gone".to_string());
    set.retain_used(&vec![row(&["other"]), row(&["kept"])]);
    assert!(set.contains(&"kept".to_string()));
    assert!(!set.contains(&"gone".to_string()));
    assert!(!set.contains(&"other".to_string()));
}

#[test]
fn all_tags_are_stricter_than_any() {
    let rows = vec![row(&["a", "b"]), row(&["b"]), row(&[]), row(&["c"])];
    let mut set = TagSet::new();
    set.insert("a".to_string());
    set.insert("b".to_string());
    assert_eq!(filter_indices_mode(&set, &rows, true), vec![0]);
    assert_eq!(filter_indices_mode(&set, &rows, false), vec![0, 1]);
    assert!(passes_filter(&set, &rows[0], true));
    assert!(!passes_filter(&set, &rows[1], true));
    assert!(passes_filter(&set, &rows[1], false));
    assert!(!passes_filter(&set, &rows[2], false));
    assert!(passes_filter(&TagSet::new(), &rows[2], false));
}

#[test]
fn more_tags_show_fewer_or_more() {
    let rows = vec![row(&["a", "b"]), row(&["a"]), row(&["b"])];
    let mut set = TagSet::new();
    set.insert("a".to_string());
    assert_eq!(filter_indices_mode(&set, &rows, true), vec![0, 1]);
    assert_eq!(filter_indices_mode(&set, &rows, false), vec![0, 1]);
    set.insert("b".to_string());
    assert_eq!(filter_indices_mode(&set, &rows, true), vec![0]);
    assert_eq!(filter_indices_mode(&set, &rows, false), vec![0, 1, 2]);
}

#[test]
fn all_tags_in_natural_order() {
    let rows = vec![row(&["bug10", "bug2"]), row(&["Bug1", "bug2"]), row(&[])];
    assert_eq!(unique_tags(&rows), row(&["Bug1", "bug2", "bug10"]));
    assert!(unique_tags(&vec![row(&[])]).is_empty());
}

#[test]
fn counts_are_what_each_tag_shows() {
    let rows = vec![row(&["a", "b"]), row(&["b", "b"]), row(&["c"])];
    let tags = unique_tags(&rows);
    assert_eq!(tags, row(&["a", "b", "c"]));
    assert_eq!(tag_counts(&tags, &rows), vec![1, 2, 1]);
    for (k, tag) in tags.iter().enumerate() {
        let mut set = TagSet::new();
        set.insert(tag.clone());
        let shown = filter_indices_mode(&set, &rows, k % 2 == 0);
        assert_eq!(shown.len(), tag_counts(&tags, &rows)[k]);
    }
}
