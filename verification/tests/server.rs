use rubbish::browser::Viewer;
use rubbish::clock::show_second;
use rubbish::listing::{scan_dumps, FileFacts, FileStat};
use rubbish::metadata::{checked_metadata, StampUnit};
use rubbish::names::{is_dump, sidecar_for_dump};
use rubbish::preview::{read_preview, Reading};
use rubbish::server::{
    bytes_to_save, dump_bytes, files_for, new_dump_files, new_sidecar_text, next_stage, parse_tags,
    sidecar_text, Answer, Next, Stage,
};

fn strings(list: &[&str]) -> Vec<String> {
    list.iter().map(|s| s.to_string()).collect()
}

fn header(s: &str) -> Option<Vec<u8>> {
    Some(s.as_bytes().to_vec())
}

#[test]
fn tags_in_a_header() {
    assert_eq!(parse_tags("bug,urgent"), strings(&["bug", "urgent"]));
    assert_eq!(parse_tags(" bug ,, \turgent\t,"), strings(&["bug", "urgent"]));
    assert_eq!(parse_tags("two words"), strings(&["two words"]));
    assert_eq!(parse_tags(""), strings(&[]));
    assert_eq!(parse_tags(" , ,"), strings(&[]));
    assert_eq!(parse_tags("a,a"), strings(&["a", "a"]));
}

#[test]
fn trimming_agrees_with_std() {
    for c in (0..=0x10_FFFFu32).filter_map(char::from_u32) {
        if c == ',' {
            continue;
        }
        let text = format!("{}x{}", c, c);
        if c.is_whitespace() {
            assert_eq!(parse_tags(&text), strings(&["x"]));
        } else if c as u32 % 257 == 0 || (c as u32) < 0x3100 {
            assert_eq!(parse_tags(&text), vec![text.trim().to_string()]);
        }
    }
}

#[test]
fn joined_tags_are_read_back() {
    let tags = strings(&["a", "b c", "é"]);
    assert_eq!(parse_tags(&tags.join(",")), tags);
    assert_eq!(parse_tags(&tags.join(" , ")), tags);
}

#[test]
fn json_is_stored_pretty() {
    let body = b"{\"b\":[1,2],\"a\":null}".to_vec();
    let saved = String::from_utf8(dump_bytes(&body)).unwrap();
    assert_eq!(saved, "{\n  \"a\": null,\n  \"b\": [\n    1,\n    2\n  ]\n}\n");
}

#[test]
fn anything_else_is_stored_as_it_came() {
    let body = b"{\"a\": ".to_vec();
    assert_eq!(dump_bytes(&body), body);
    let body = vec![0xff, 0x00];
    assert_eq!(dump_bytes(&body), body);
    assert_eq!(dump_bytes(&Vec::new()), Vec::<u8>::new());
}

#[test]
fn saved_bytes_given_the_pretty_form() {
    let body = vec![1, 2];
    assert_eq!(bytes_to_save(&body, None), vec![1, 2]);
    assert_eq!(bytes_to_save(&body, Some("\"é\"".to_string())), "\"é\"\n".as_bytes().to_vec());
}

#[test]
fn the_sidecar_of_a_post() {
    let text = sidecar_text(&header("My Dump"), &header("bug, urgent"), 1_700_000_000_123);
    let m = checked_metadata(&text, StampUnit::Millis).unwrap();
    assert_eq!(m.title, "My Dump");
    assert_eq!(m.tags, strings(&["bug", "urgent"]));
    assert_eq!(m.timestamp, Some(1_700_000_000_123));
}

#[test]
fn headers_may_be_missing_or_unreadable() {
    for bad in [None, Some("é".as_bytes().to_vec()), Some(b"a\nb".to_vec()), Some(vec![127])] {
        let m = checked_metadata(&sidecar_text(&bad, &bad, 5), StampUnit::Seconds).unwrap();
        assert_eq!(m.title, "");
        assert!(m.tags.is_empty());
        assert_eq!(m.timestamp, Some(5));
    }
    let m = checked_metadata(&sidecar_text(&header(" a\t~"), &None, 5), StampUnit::Seconds).unwrap();
    assert_eq!(m.title, " a\t~");
}

#[test]
fn a_new_sidecar_holds_the_time_in_milliseconds() {
    let millis = || {
        let now = std::time::SystemTime::now();
        now.duration_since(std::time::UNIX_EPOCH).unwrap().as_millis() as i64
    };
    let before = millis();
    let text = new_sidecar_text(&header("t"), &None);
    let after = millis();
    let m = checked_metadata(&text, StampUnit::Millis).unwrap();
    assert_eq!(m.title, "t");
    let t = m.timestamp.unwrap();
    assert!(before <= t && t <= after);
}

#[test]
fn the_files_of_a_dump() {
    let files = files_for("01ARZ3NDEKTSV4RRFFQ69G5FAV");
    assert_eq!(files.dump, "01ARZ3NDEKTSV4RRFFQ69G5FAV.json");
    assert_eq!(files.dump_temp, "01ARZ3NDEKTSV4RRFFQ69G5FAV.json.tmp");
    assert_eq!(files.sidecar, "01ARZ3NDEKTSV4RRFFQ69G5FAV.metadata.json");
    assert_eq!(files.sidecar_temp, "01ARZ3NDEKTSV4RRFFQ69G5FAV.metadata.json.tmp");
}

#[test]
fn new_dumps_are_listed() {
    let files = new_dump_files();
    let id = files.dump.strip_suffix(".json").unwrap();
    assert_eq!(id.len(), 26);
    assert!(ulid::Ulid::from_string(id).is_ok());
    assert!(id.chars().all(|c| "0123456789ABCDEFGHJKMNPQRSTVWXYZ".contains(c)));
    assert!(id.starts_with(|c: char| c <= '7'));
    assert!(is_dump(&Some(files.dump.clone())));
    assert_eq!(sidecar_for_dump(&files.dump), Some(files.sidecar.clone()));
    assert!(!is_dump(&Some(files.sidecar)));
    assert!(!is_dump(&Some(files.dump_temp)));
    assert!(!is_dump(&Some(files.sidecar_temp)));
    assert_ne!(new_dump_files().dump, files.dump);
}

#[test]
fn the_steps_of_storing_a_dump() {
    assert_eq!(next_stage(Stage::Directory, true), Next::Go(Stage::Dump));
    assert_eq!(next_stage(Stage::Directory, false), Next::Answer(Answer::NoDirectory));
    assert_eq!(next_stage(Stage::Dump, true), Next::Go(Stage::Sidecar));
    assert_eq!(next_stage(Stage::Dump, false), Next::Answer(Answer::NotWritten));
    assert_eq!(next_stage(Stage::Sidecar, true), Next::Answer(Answer::Stored));
    assert_eq!(next_stage(Stage::Sidecar, false), Next::Answer(Answer::Stored));
}

#[test]
fn the_answers() {
    assert_eq!(Answer::Stored.status(), 200);
    assert_eq!(Answer::Stored.text(), "ok");
    assert_eq!(Answer::NoDirectory.status(), 500);
    assert_eq!(Answer::NoDirectory.text(), "failed to create dumps dir");
    assert_eq!(Answer::NotWritten.status(), 500);
    assert_eq!(Answer::NotWritten.text(), "write failed");
}

#[test]
fn a_stored_document_is_previewed() {
    let saved = dump_bytes(&b"{\"a\":[]}".to_vec());
    for viewer in [Viewer::Embedded, Viewer::Standalone] {
        assert_eq!(read_preview(viewer, Reading::Bytes(saved.clone())), "{\n  \"a\": []\n}\n");
    }
}

#[test]
fn a_posted_dump_is_listed() {
    let millis = 1_700_000_000_123;
    let text = sidecar_text(&header("My Dump"), &header("bug,urgent"), millis);
    let files = files_for("01ARZ3NDEKTSV4RRFFQ69G5FAV");
    let facts = FileFacts {
        path: files.dump.clone().into_bytes(),
        is_file: true,
        name: Some(files.dump.clone()),
        lossy_name: files.dump,
        stat: Some(FileStat { len: 2, modified: Some(0) }),
        metadata: checked_metadata(&text, StampUnit::Millis).unwrap(),
    };
    let list = scan_dumps(&vec![facts], StampUnit::Millis);
    assert_eq!(list.entries[0].title, "My Dump");
    assert_eq!(list.tags_vec[0], strings(&["bug", "urgent"]));
    assert_eq!(list.entries[0].time, show_second(1_700_000_000).unwrap());
}

#[test]
fn storing_what_was_stored_changes_nothing() {
    let bodies = [
        "not json",
        "",
        "{\"b\": [1, -2, 0], \"a\": {\"x\": null, \"y\": true}}",
        "[9223372036854775807, -9223372036854775808, 18446744073709551615, -0]",
        "\"1.5e3 \\\" \\u00e9 \\\\\"",
        "[]\n\n",
        "{\"a\": 1, \"a\": 2}",
    ];
    for body in bodies {
        let stored = dump_bytes(&body.as_bytes().to_vec());
        assert_eq!(dump_bytes(&stored), stored);
    }
    assert_eq!(dump_bytes(&b"-0".to_vec()), b"-0.0\n".to_vec());
}

#[test]
fn no_member_name_is_special() {
    let token = "$serde_json::private::RawValue";
    let body = format!("{{\"a\":1,\"{}\":\"5\"}}", token);
    let stored = dump_bytes(&body.clone().into_bytes());
    let text = String::from_utf8(stored.clone()).unwrap();
    assert_eq!(text, format!("{{\n  \"{}\": \"5\",\n  \"a\": 1\n}}\n", token));
    assert_eq!(dump_bytes(&stored), stored);
    for body in [
        format!("{{\"{}\":\"5\"}}", token),
        "{\"$serde_json::private::Number\":\"5\"}".to_string(),
    ] {
        let stored = dump_bytes(&body.clone().into_bytes());
        let text = String::from_utf8(stored.clone()).unwrap();
        assert_eq!(text.replace([' ', '\n'], ""), body);
        assert_eq!(dump_bytes(&stored), stored);
    }
}

#[test]
fn deep_documents() {
    for depth in [1, 100, 127, 128, 200] {
        let body = format!("{}{}", "[".repeat(depth), "]".repeat(depth)).into_bytes();
        let stored = dump_bytes(&body);
        assert_eq!(stored == body, depth >= 128);
        assert_eq!(dump_bytes(&stored), stored);
    }
}
