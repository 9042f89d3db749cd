use chrono::TimeZone;
use rubbish::browser::{Arrival, Browser, Focus, KnownTime, Preview, Viewer, WatchEvent};
use rubbish::listing::{scan_dumps, FileFacts, FileStat};
use rubbish::metadata::Metadata;

const SECOND: i128 = 1_000_000_000;

fn local(secs: i64) -> String {
    chrono::Local.timestamp_opt(secs, 0).single().unwrap().format("%Y-%m-%d %H:%M:%S").to_string()
}

fn file(name: &str, modified: i128, tags: &[&str]) -> FileFacts {
    FileFacts {
        path: format!("/dumps/{}", name).into_bytes(),
        is_file: true,
        name: Some(name.to_string()),
        lossy_name: name.to_string(),
        stat: Some(FileStat { len: 1024, modified: Some(modified) }),
        metadata: Metadata {
            title: String::new(),
            tags: tags.iter().map(|t| t.to_string()).collect(),
            timestamp: None,
        },
    }
}

fn directory() -> Vec<u8> {
    b"/dumps".to_vec()
}

/// Three dumps at 30, 20 and 10 seconds, the first one selected.
fn browser(viewer: Viewer) -> Browser {
    let files = vec![
        file("c.json", 10 * SECOND, &["x"]),
        file("b.json", 20 * SECOND, &["x", "y"]),
        file("a.json", 30 * SECOND, &[]),
    ];
    let (browser, preview) = Browser::new(viewer, scan_dumps(&files, viewer.unit()));
    assert_eq!(preview, Preview::Load(0));
    browser
}

fn known() -> Vec<KnownTime> {
    [30, 20, 10]
        .iter()
        .map(|s| KnownTime { timestamp: None, modified: Some(s * SECOND) })
        .collect()
}

fn names(b: &Browser) -> Vec<String> {
    b.listing
        .paths
        .iter()
        .map(|p| String::from_utf8(p.clone()).unwrap().trim_start_matches("/dumps/").to_string())
        .collect()
}

fn created(b: &mut Browser, f: FileFacts) -> Preview {
    b.apply_watch_event(WatchEvent::Created(Arrival { file: f, known: known() }), &directory())
}

#[test]
fn the_start() {
    let b = browser(Viewer::Embedded);
    assert_eq!(names(&b), vec!["a.json", "b.json", "c.json"]);
    assert_eq!(b.selected, Some(0));
    assert!(b.match_all);
    assert_eq!(b.focus, Focus::Dumps);
    assert_eq!(b.tags_selected, None);
    assert!(b.selected_tags.is_empty());
    let (empty, preview) =
        Browser::new(Viewer::Embedded, scan_dumps(&Vec::new(), Viewer::Embedded.unit()));
    assert_eq!(empty.selected, None);
    assert_eq!(preview, Preview::Clear);
}

#[test]
fn a_new_dump_goes_before_the_first_older_one() {
    let mut b = browser(Viewer::Embedded);
    b.selected = Some(1);
    assert_eq!(created(&mut b, file("title_1.json", 25 * SECOND, &["z"])), Preview::Load(0));
    assert_eq!(names(&b), vec!["a.json", "title_1.json", "b.json", "c.json"]);
    assert_eq!(b.selected, Some(0));
    assert_eq!(b.listing.entries[1].title, "title");
    assert_eq!(b.listing.entries[1].time, local(25));
    assert_eq!(b.listing.entries[1].size, "1.0 KiB");
    assert_eq!(b.listing.tags_vec[1], vec!["z".to_string()]);
}

#[test]
fn the_oldest_dump_goes_to_the_end() {
    let mut b = browser(Viewer::Standalone);
    assert_eq!(created(&mut b, file("z.json", 10 * SECOND, &[])), Preview::Keep);
    assert_eq!(names(&b), vec!["a.json", "b.json", "c.json", "z.json"]);
    assert_eq!(b.selected, Some(0));
}

#[test]
fn the_standalone_viewer_stays_on_its_dump() {
    let mut b = browser(Viewer::Standalone);
    b.selected = Some(1);
    assert_eq!(created(&mut b, file("n.json", 40 * SECOND, &[])), Preview::Keep);
    assert_eq!(b.selected, Some(2));
    assert_eq!(names(&b)[2], "b.json");
    let mut b = browser(Viewer::Standalone);
    b.selected = None;
    assert_eq!(created(&mut b, file("n.json", 5 * SECOND, &[])), Preview::Load(0));
    assert_eq!(b.selected, Some(0));
}

#[test]
fn a_hidden_dump_leaves_the_selection() {
    let mut b = browser(Viewer::Embedded);
    b.selected_tags.insert("x".to_string());
    b.selected = Some(2);
    assert_eq!(created(&mut b, file("n.json", 40 * SECOND, &["other"])), Preview::Keep);
    assert_eq!(b.selected, Some(3));
    assert_eq!(names(&b)[3], "c.json");
}

#[test]
fn any_picked_tag_is_enough_in_the_other_mode() {
    let mut b = browser(Viewer::Embedded);
    b.selected_tags.insert("x".to_string());
    b.selected_tags.insert("y".to_string());
    b.match_all = false;
    assert_eq!(created(&mut b, file("n.json", 40 * SECOND, &["y"])), Preview::Load(0));
    let mut b = browser(Viewer::Embedded);
    b.selected_tags.insert("x".to_string());
    b.selected_tags.insert("y".to_string());
    assert_eq!(created(&mut b, file("n.json", 40 * SECOND, &["y"])), Preview::Keep);
}

#[test]
fn news_of_a_listed_dump_brings_it_up_to_date() {
    let mut b = browser(Viewer::Embedded);
    let mut f = file("b.json", 99 * SECOND, &["new"]);
    f.metadata.title = "Title".to_string();
    f.metadata.timestamp = Some(77_900);
    let ev = WatchEvent::Modified(Arrival { file: f, known: known() });
    assert_eq!(b.apply_watch_event(ev, &directory()), Preview::Keep);
    assert_eq!(names(&b), vec!["a.json", "b.json", "c.json"]);
    assert_eq!(b.listing.entries[1].title, "Title");
    assert_eq!(b.listing.entries[1].time, local(77));
    assert_eq!(b.listing.tags_vec[1], vec!["new".to_string()]);
    assert_eq!(b.selected, Some(0));
    let ev = WatchEvent::Modified(Arrival { file: file("a.json", SECOND, &[]), known: known() });
    assert_eq!(b.apply_watch_event(ev, &directory()), Preview::Load(0));
}

#[test]
fn a_sidecar_places_a_new_dump() {
    let mut b = browser(Viewer::Standalone);
    let mut f = file("n.json", 99 * SECOND, &[]);
    f.metadata.timestamp = Some(15);
    let known = vec![
        KnownTime { timestamp: Some(30), modified: Some(0) },
        KnownTime { timestamp: Some(-1), modified: Some(20 * SECOND) },
        KnownTime { timestamp: None, modified: None },
    ];
    let ev = WatchEvent::Created(Arrival { file: f, known });
    b.apply_watch_event(ev, &directory());
    assert_eq!(names(&b), vec!["a.json", "b.json", "n.json", "c.json"]);
    assert_eq!(b.listing.entries[2].time, local(15));
}

#[test]
fn milliseconds_place_a_new_dump_in_the_embedded_viewer() {
    let mut b = browser(Viewer::Embedded);
    let mut f = file("n.json", 0, &[]);
    f.metadata.timestamp = Some(1_700_000_000_000);
    let known = vec![
        KnownTime { timestamp: Some(2_000_000_000_000), modified: Some(0) },
        KnownTime { timestamp: None, modified: Some(1_700_000_001 * SECOND) },
        KnownTime { timestamp: Some(1_699_999_999_999), modified: None },
    ];
    b.apply_watch_event(WatchEvent::Created(Arrival { file: f, known }), &directory());
    assert_eq!(names(&b), vec!["a.json", "b.json", "n.json", "c.json"]);
    assert_eq!(b.listing.entries[2].time, local(1_700_000_000));
}

#[test]
fn no_path_is_listed_twice() {
    let mut b = browser(Viewer::Embedded);
    created(&mut b, file("b.json", 5 * SECOND, &[]));
    created(&mut b, file("a.json", 99 * SECOND, &[]));
    assert_eq!(names(&b), vec!["a.json", "b.json", "c.json"]);
    let files = vec![file("a.json", SECOND, &[]), file("b.json", SECOND, &[])];
    b.apply_watch_event(WatchEvent::Rescan(files), &directory());
    assert_eq!(names(&b), vec!["b.json", "a.json"]);
}

#[test]
fn files_elsewhere_are_ignored() {
    let mut b = browser(Viewer::Embedded);
    let mut f = file("n.json", 40 * SECOND, &[]);
    f.path = b"/elsewhere/n.json".to_vec();
    assert_eq!(created(&mut b, f), Preview::Keep);
    assert_eq!(b.listing.len(), 3);
}

#[test]
fn a_sidecar_is_never_listed() {
    let mut b = browser(Viewer::Embedded);
    assert_eq!(created(&mut b, file("n.metadata.json", 40 * SECOND, &[])), Preview::Keep);
    assert_eq!(b.listing.len(), 3);
}

#[test]
fn news_of_a_file_that_is_gone_takes_it_out() {
    let mut b = browser(Viewer::Embedded);
    let mut f = file("a.json", 30 * SECOND, &[]);
    f.is_file = false;
    assert_eq!(created(&mut b, f), Preview::Load(0));
    assert_eq!(names(&b), vec!["b.json", "c.json"]);
    assert_eq!(b.selected, Some(0));
}

#[test]
fn removals() {
    let gone = |name: &str| WatchEvent::Removed(format!("/dumps/{}", name).into_bytes());
    let mut b = browser(Viewer::Embedded);
    b.selected = Some(1);
    assert_eq!(b.apply_watch_event(gone("x.json"), &directory()), Preview::Keep);
    assert_eq!(b.apply_watch_event(gone("c.json"), &directory()), Preview::Keep);
    assert_eq!(b.selected, Some(1));
    assert_eq!(b.apply_watch_event(gone("b.json"), &directory()), Preview::Load(0));
    assert_eq!(b.selected, Some(0));
    assert_eq!(b.apply_watch_event(gone("a.json"), &directory()), Preview::Clear);
    assert_eq!(b.selected, None);
    assert!(b.listing.is_empty());
    let mut b = browser(Viewer::Embedded);
    b.selected = Some(2);
    assert_eq!(b.apply_watch_event(gone("a.json"), &directory()), Preview::Keep);
    assert_eq!(b.selected, Some(1));
    assert_eq!(names(&b)[1], "c.json");
}

#[test]
fn other_spellings_of_a_path_are_the_same_dump() {
    let mut b = browser(Viewer::Embedded);
    let mut f = file("b.json", 5 * SECOND, &["new"]);
    f.path = b"/dumps/./b.json".to_vec();
    let ev = WatchEvent::Modified(Arrival { file: f, known: known() });
    assert_eq!(b.apply_watch_event(ev, &b"/dumps/".to_vec()), Preview::Keep);
    assert_eq!(names(&b), vec!["a.json", "b.json", "c.json"]);
    assert_eq!(b.listing.tags_vec[1], vec!["new".to_string()]);
    let gone = WatchEvent::Removed(b"/dumps//b.json".to_vec());
    b.apply_watch_event(gone, &directory());
    assert_eq!(names(&b), vec!["a.json", "c.json"]);
}

#[test]
fn a_removal_undoes_an_arrival() {
    let mut b = browser(Viewer::Embedded);
    let before = names(&b);
    created(&mut b, file("n.json", 15 * SECOND, &[]));
    assert_eq!(b.listing.len(), 4);
    b.apply_watch_event(WatchEvent::Removed(b"/dumps/n.json".to_vec()), &directory());
    assert_eq!(names(&b), before);
}

#[test]
fn arrivals_keep_the_newest_first() {
    for at in 0..40i128 {
        let mut b = browser(Viewer::Standalone);
        created(&mut b, file("n.json", at * SECOND, &[]));
        let times: Vec<String> = b.listing.entries.iter().map(|e| e.time.clone()).collect();
        let mut sorted = times.clone();
        sorted.sort();
        sorted.reverse();
        assert_eq!(times, sorted);
    }
}

#[test]
fn reading_the_directory_anew() {
    let mut b = browser(Viewer::Embedded);
    b.selected_tags.insert("x".to_string());
    b.selected_tags.insert("y".to_string());
    b.selected = Some(2);
    let files = vec![file("c.json", 10 * SECOND, &["x"])];
    assert_eq!(b.apply_watch_event(WatchEvent::Rescan(files), &directory()), Preview::Load(0));
    assert_eq!(b.selected, Some(0));
    assert!(b.selected_tags.contains(&"x".to_string()));
    assert!(!b.selected_tags.contains(&"y".to_string()));
    assert_eq!(b.apply_watch_event(WatchEvent::Rescan(Vec::new()), &directory()), Preview::Clear);
    assert_eq!(b.selected, None);
    let files = vec![file("p.json", SECOND, &[]), file("q.json", 2 * SECOND, &[])];
    assert_eq!(b.apply_watch_event(WatchEvent::Rescan(files), &directory()), Preview::Load(0));
    b.selected = Some(1);
    let files = vec![file("p.json", SECOND, &[]), file("q.json", 2 * SECOND, &[])];
    assert_eq!(b.apply_watch_event(WatchEvent::Rescan(files), &directory()), Preview::Load(1));
    assert_eq!(b.selected, Some(1));
}

#[test]
fn events_that_cannot_be_applied() {
    let b = browser(Viewer::Embedded);
    let far = || file("far.json", 9_000_000_000_000 * SECOND, &[]);
    let event = |f: FileFacts, known: Vec<KnownTime>| WatchEvent::Created(Arrival { file: f, known });
    assert!(b.can_accept(&event(file("n.json", 0, &[]), known()), &directory()));
    assert!(!b.can_accept(&event(file("n.json", 0, &[]), Vec::new()), &directory()));
    assert!(!b.can_accept(&event(far(), known()), &directory()));
    assert!(b.can_accept(&event(far(), known()), &b"/elsewhere".to_vec()));
    assert!(!b.can_accept(&WatchEvent::Rescan(vec![far()]), &directory()));
    assert!(b.can_accept(&WatchEvent::Removed(Vec::new()), &directory()));
}
