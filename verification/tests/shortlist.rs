use chrono::TimeZone;
use rubbish::keys::KeyPress;
use rubbish::listing::{Entry, FileFacts, FileStat};
use rubbish::metadata::Metadata;
use rubbish::preview::Reading;
use rubbish::shortlist::{can_list_short, prefer_pretty, short_line, short_listing, short_preview, short_step, ShortEffect};

const SECOND: i128 = 1_000_000_000;

fn file(name: &str, len: u64, modified: Option<i128>) -> FileFacts {
    FileFacts {
        path: name.as_bytes().to_vec(),
        is_file: true,
        name: Some(name.to_string()),
        lossy_name: name.to_string(),
        stat: Some(FileStat { len, modified }),
        metadata: Metadata::none(),
    }
}

#[test]
fn every_file_is_listed() {
    let mut folder = file("folder", 1, Some(9 * SECOND));
    folder.is_file = false;
    let mut unknown = file("unknown", 1, None);
    unknown.stat = None;
    let files = vec![
        file("a.metadata.json", 1536, Some(2 * SECOND)),
        folder,
        unknown,
        file("b.txt", 2048, Some(5 * SECOND)),
    ];
    assert!(can_list_short(&files));
    assert!(!can_list_short(&vec![file("far", 1, Some(9_000_000_000_000 * SECOND))]));
    let list = short_listing(&files);
    let names: Vec<&str> = list.entries.iter().map(|e| e.title.as_str()).collect();
    assert_eq!(names, vec!["b.txt", "a.metadata.json", "unknown"]);
    assert_eq!(list.entries[0].size, "2.0 KB");
    assert_eq!(list.entries[1].size, "1.5 KB");
    assert_eq!(list.entries[2].size, "0 B");
    assert_eq!(list.entries[2].time, "unknown");
    let time = chrono::Local.timestamp_opt(5, 0).single().unwrap();
    assert_eq!(list.entries[0].time, time.format("%Y-%m-%d %H:%M:%S").to_string());
    assert_eq!(list.paths[0], b"b.txt".to_vec());
}

#[test]
fn a_line_of_the_list() {
    let entry = Entry {
        time: "unknown".to_string(),
        title: "x.json".to_string(),
        size: "0 B".to_string(),
    };
    assert_eq!(short_line(&entry), format!("{}  —  {}  ({})", "x.json", "unknown", "0 B"));
}

#[test]
fn json_is_previewed_pretty() {
    let bytes = |b: &[u8]| Reading::Bytes(b.to_vec());
    assert_eq!(short_preview(bytes(b"[1]")), "[\n  1\n]");
    assert_eq!(short_preview(bytes(b"[1")), "[1");
    assert_eq!(short_preview(bytes(&[0xff])), "");
    assert_eq!(
        short_preview(Reading::Failed("gone".to_string())),
        "failed to read preview: gone"
    );
    assert_eq!(prefer_pretty("a".to_string(), None), "a");
    assert_eq!(prefer_pretty("a".to_string(), Some("b".to_string())), "b");
}

#[test]
fn keys_of_the_list() {
    assert_eq!(short_step(1, 3, KeyPress::Esc), ShortEffect::Quit);
    assert_eq!(short_step(1, 3, KeyPress::Char('q')), ShortEffect::Quit);
    assert_eq!(short_step(1, 3, KeyPress::Up), ShortEffect::Select(0));
    assert_eq!(short_step(0, 3, KeyPress::Up), ShortEffect::Select(2));
    assert_eq!(short_step(1, 3, KeyPress::Down), ShortEffect::Select(2));
    assert_eq!(short_step(2, 3, KeyPress::Down), ShortEffect::Select(0));
    assert_eq!(short_step(0, 1, KeyPress::Down), ShortEffect::Select(0));
    assert_eq!(short_step(2, 3, KeyPress::Enter), ShortEffect::Open(2));
    for key in [KeyPress::Left, KeyPress::Right, KeyPress::Char('k'), KeyPress::Other] {
        assert_eq!(short_step(2, 3, key), ShortEffect::Nothing);
    }
}
