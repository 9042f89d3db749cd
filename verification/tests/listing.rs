use chrono::TimeZone;
use rubbish::clock::{can_show, show_second, show_time, whole_second, FIRST_SECOND, LAST_SECOND};
use rubbish::listing::{
    build_entry_from_path, can_make_entry, can_scan, can_show_change, can_start, point_of_stamp,
    scan_dumps, startup_listing, FileFacts, FileStat, Listing,
};
use rubbish::metadata::{checked_metadata, Metadata, StampUnit};

const SECOND: i128 = 1_000_000_000;

/// A second on the local clock.
fn local(secs: i64) -> String {
    chrono::Local.timestamp_opt(secs, 0).single().unwrap().format("%Y-%m-%d %H:%M:%S").to_string()
}

fn facts(name: &str, len: u64, modified: Option<i128>, metadata: Metadata) -> FileFacts {
    FileFacts {
        path: format!("/dumps/{}", name).into_bytes(),
        is_file: true,
        name: Some(name.to_string()),
        lossy_name: name.to_string(),
        stat: Some(FileStat { len, modified }),
        metadata,
    }
}

fn bare(name: &str, modified: i128) -> FileFacts {
    facts(name, 1, Some(modified), Metadata::none())
}

fn stamped(name: &str, modified: i128, timestamp: i64) -> FileFacts {
    let metadata = Metadata { title: String::new(), tags: Vec::new(), timestamp: Some(timestamp) };
    facts(name, 1, Some(modified), metadata)
}

fn names(list: &Listing) -> Vec<String> {
    list.paths
        .iter()
        .map(|p| String::from_utf8(p.clone()).unwrap().trim_start_matches("/dumps/").to_string())
        .collect()
}

fn now() -> i128 {
    std::time::SystemTime::now().duration_since(std::time::UNIX_EPOCH).unwrap().as_nanos() as i128
}

#[test]
fn test_build_entry_from_path_extracts_title_and_size() {
    let fname = format!("2026-03-18_test-title-{}_.json", uuid::Uuid::new_v4());
    let data = b"{\"x\":1}\n";
    let file = facts(&fname, data.len() as u64, Some(now()), Metadata::none());

    let (entry, _mtime) = build_entry_from_path(&file).expect("should build entry");

    assert!(entry.title.contains("test-title"));
    assert!(entry.size.ends_with("B") || entry.size.contains("KiB"));
    assert!(!entry.time.is_empty());
}

#[test]
fn tui_test_build_entry_from_path_extracts_title_and_size() {
    let id = uuid::Uuid::new_v4();
    let fname = format!("2026-03-18_test-title-{}_.json", id);
    let data = b"{\"x\":1}\n";
    let modified = now();
    let file = facts(&fname, data.len() as u64, Some(modified), Metadata::none());

    let (entry, mtime) = build_entry_from_path(&file).expect("should build entry");

    assert!(entry.title.contains("test-title"));
    assert_eq!(entry.title, format!("2026-03-18_test-title-{}", id));
    assert!(entry.size.ends_with("B") || entry.size.contains("KiB"));
    assert_eq!(entry.size, "8 B");
    assert!(!entry.time.is_empty());
    assert_eq!(entry.time, local((modified / SECOND) as i64));
    assert_eq!(mtime, modified);
}

fn sample_directory(unit: StampUnit) -> Vec<FileFacts> {
    let id = "00000000000000000000000000";
    let mut meta = serde_json::Map::new();
    meta.insert("title".to_string(), "Meta Title".into());
    meta.insert("tags".to_string(), vec!["t1", "t2"].into());
    let text = serde_json::to_string(&meta).unwrap();
    let metadata = checked_metadata(&text, unit).unwrap();
    vec![
        facts(&format!("{}.json", id), 8, Some(now()), metadata),
        facts(&format!("{}.metadata.json", id), text.len() as u64, Some(now()), Metadata::none()),
    ]
}

#[test]
fn test_scan_dumps_ignores_metadata_and_reads_titles() {
    let list = scan_dumps(&sample_directory(StampUnit::Millis), StampUnit::Millis);
    assert_eq!(list.entries.len(), 1);
    assert_eq!(list.paths.len(), 1);
    assert_eq!(list.tags_vec.len(), 1);
    assert_eq!(list.entries[0].title, "Meta Title");
    assert_eq!(list.tags_vec[0], vec!["t1".to_string(), "t2".to_string()]);
}

#[test]
fn tui_test_scan_dumps_ignores_metadata_and_reads_titles() {
    let list = scan_dumps(&sample_directory(StampUnit::Seconds), StampUnit::Seconds);
    assert_eq!(list.entries.len(), 1);
    assert_eq!(list.paths.len(), 1);
    assert_eq!(list.tags_vec.len(), 1);
    assert_eq!(list.entries[0].title, "Meta Title");
    assert_eq!(list.tags_vec[0], vec!["t1".to_string(), "t2".to_string()]);
}

#[test]
fn a_scan_puts_the_newest_first() {
    let files = vec![
        bare("old.json", 10 * SECOND),
        stamped("stamped.json", 0, 50_000),
        bare("new.json", 90 * SECOND),
        bare("same.json", 10 * SECOND),
        stamped("negative.json", 99 * SECOND, -5000),
    ];
    let list = scan_dumps(&files, StampUnit::Millis);
    assert_eq!(
        names(&list),
        vec!["new.json", "stamped.json", "same.json", "old.json", "negative.json"]
    );
    assert_eq!(list.entries[0].time, local(90));
    assert_eq!(list.entries[1].time, local(50));
    assert_eq!(list.entries[4].time, local(-5));
    // in seconds the stamped one is far ahead
    assert_eq!(names(&scan_dumps(&files, StampUnit::Seconds))[0], "stamped.json");
}

#[test]
fn a_scan_keeps_dumps_only() {
    let mut folder = bare("folder.json", SECOND);
    folder.is_file = false;
    let mut unknown = bare("unknown.json", SECOND);
    unknown.stat = None;
    let mut odd = bare("odd", SECOND);
    odd.name = None;
    let files = vec![folder, unknown, odd, bare("notes.txt", SECOND), bare("a.json.tmp", SECOND)];
    let list = scan_dumps(&files, StampUnit::Millis);
    assert_eq!(names(&list), vec!["odd"]);
    assert!(scan_dumps(&Vec::new(), StampUnit::Millis).is_empty());
}

#[test]
fn a_time_that_is_not_known_counts_as_1970() {
    let files = vec![facts("a.json", 3, None, Metadata::none())];
    let list = scan_dumps(&files, StampUnit::Millis);
    assert_eq!(list.entries[0].time, local(0));
    assert_eq!(list.entries[0].size, "3 B");
}

#[test]
fn the_list_at_startup() {
    let titled = Metadata { title: "T".to_string(), tags: vec!["x".to_string()], timestamp: Some(7) };
    let files = vec![
        facts("named_1.json", 2048, Some(5 * SECOND), Metadata::none()),
        facts("b.txt", 1, None, Metadata::none()),
        facts("c.json", 1, Some(9 * SECOND), titled),
        facts("c.metadata.json", 1, Some(9 * SECOND), Metadata::none()),
    ];
    let list = startup_listing(&files);
    assert_eq!(names(&list), vec!["c.json", "named_1.json", "b.txt"]);
    assert_eq!(list.entries[0].title, "T");
    assert_eq!(list.entries[0].time, local(9));
    assert_eq!(list.tags_vec[0], vec!["x".to_string()]);
    assert_eq!(list.entries[1].title, "named");
    assert_eq!(list.entries[1].size, "2.0 KiB");
    assert_eq!(list.entries[2].time, "unknown");
    assert_eq!(list.entries[2].title, "");
}

#[test]
fn no_entry_without_a_time() {
    assert!(build_entry_from_path(&facts("a.json", 1, None, Metadata::none())).is_none());
    assert!(build_entry_from_path(&bare("a.metadata.json", SECOND)).is_none());
    let mut folder = bare("a.json", SECOND);
    folder.is_file = false;
    assert!(build_entry_from_path(&folder).is_none());
    let mut gone = bare("a.json", SECOND);
    gone.stat = None;
    assert!(build_entry_from_path(&gone).is_none());
    assert!(build_entry_from_path(&bare("a.txt", SECOND)).is_some());
}

#[test]
fn lists_change_in_place() {
    let mut list = scan_dumps(
        &vec![bare("a.json", 3), bare("b.json", 2), bare("c.json", 1)],
        StampUnit::Millis,
    );
    assert_eq!(list.len(), 3);
    assert_eq!(list.position(&b"/dumps/b.json".to_vec()), Some(1));
    assert_eq!(list.position(&b"/dumps/x.json".to_vec()), None);
    list.remove(1);
    assert_eq!(names(&list), vec!["a.json", "c.json"]);
    let (entry, _) = build_entry_from_path(&bare("n_1.json", 0)).unwrap();
    list.insert(1, b"/dumps/n_1.json".to_vec(), entry, vec!["t".to_string()]);
    assert_eq!(names(&list), vec!["a.json", "n_1.json", "c.json"]);
    assert_eq!(list.entries[1].title, "n");
    let (entry, _) = build_entry_from_path(&bare("m_1.json", 0)).unwrap();
    list.update(1, entry, Vec::new());
    assert_eq!(names(&list), vec!["a.json", "n_1.json", "c.json"]);
    assert_eq!(list.entries[1].title, "m");
    assert!(list.tags_vec[1].is_empty());
    assert!(Listing::new().is_empty());
}

#[test]
fn seconds_on_the_local_clock() {
    assert_eq!(show_second(1_700_000_000), Some(local(1_700_000_000)));
    assert_eq!(show_second(FIRST_SECOND - 1), None);
    assert_eq!(show_second(LAST_SECOND + 1), None);
    assert!(show_second(FIRST_SECOND).is_some());
    assert!(show_second(LAST_SECOND).is_some());
    assert!(chrono::Local.timestamp_opt(FIRST_SECOND - 1, 0).single().is_none());
    assert!(chrono::Local.timestamp_opt(LAST_SECOND + 1, 0).single().is_none());
    assert_eq!(whole_second(-1), -1);
    assert_eq!(whole_second(-SECOND), -1);
    assert_eq!(whole_second(-SECOND - 1), -2);
    assert_eq!(whole_second(1_999_999_999), 1);
    assert_eq!(show_time(1_700_000_000 * SECOND + 999_999_999), local(1_700_000_000));
}

#[test]
fn points_in_time() {
    assert_eq!(point_of_stamp(1500, StampUnit::Millis), 1_500_000_000);
    assert_eq!(point_of_stamp(1500, StampUnit::Seconds), 1_500_000_000_000);
    assert_eq!(point_of_stamp(-1, StampUnit::Millis), -1_000_000);
}

#[test]
fn times_that_cannot_be_shown() {
    let last = LAST_SECOND as i128 * SECOND;
    assert!(can_show(last) && can_show(last + SECOND - 1) && !can_show(last + SECOND));
    let first = FIRST_SECOND as i128 * SECOND;
    assert!(can_show(first) && !can_show(first - 1));
    let far = || bare("far.json", last + SECOND);
    assert!(!can_show_change(&far()));
    assert!(!can_start(&vec![bare("a.json", 0), far()]));
    assert!(!can_scan(&vec![bare("a.json", 0), far()], StampUnit::Millis));
    // what is not listed does not matter
    assert!(can_start(&vec![bare("far.metadata.json", last + SECOND)]));
    assert!(can_scan(&vec![bare("far.txt", last + SECOND)], StampUnit::Millis));
    // a timestamp in the sidecar takes the place of the last change
    assert!(can_scan(&vec![stamped("far.json", last + SECOND, 5)], StampUnit::Millis));
    assert!(can_scan(&vec![stamped("far.json", 0, i64::MIN + 1)], StampUnit::Seconds));
    assert!(!can_scan(&vec![stamped("far.json", 0, i64::MAX)], StampUnit::Seconds));
    assert!(can_make_entry(&far()));
    assert!(!can_make_entry(&bare("far.metadata.json", 0)));
}
