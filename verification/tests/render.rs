use rubbish::browser::{Browser, Viewer};
use rubbish::layout::{
    columns_with_tags, columns_without_tags, content_area, counts_label, marker_area, size_label,
};
use rubbish::listing::{scan_dumps, Entry, FileFacts, FileStat, Listing};
use rubbish::metadata::Metadata;
use rubbish::preview::{empty_preview, read_preview, Reading, PREVIEW_LIMIT};
use rubbish::render::{preview_lines, shorten_tag, tag_lines, Area};
use rubbish::status::{
    listing_line, no_tags_note, report, report_preview, status_line, title_can_be_cut,
};
use rubbish::tags::TagSet;
use rubbish::width::{fit_text, fit_widths};

fn area(x: u16, y: u16, width: u16, height: u16) -> Area {
    Area { x, y, width, height }
}

fn strings(list: &[&str]) -> Vec<String> {
    list.iter().map(|s| s.to_string()).collect()
}

#[test]
fn cutting_to_a_width() {
    assert_eq!(fit_text("hello", 3), ("hel".to_string(), 3));
    assert_eq!(fit_text("hello", 9), ("hello".to_string(), 5));
    // wide characters take two columns each
    assert_eq!(fit_text("日本語", 5), ("日本".to_string(), 4));
    assert_eq!(fit_text("日本語", 1), ("".to_string(), 0));
    assert_eq!(fit_widths(&vec![1, 2, 3], 4), (2, 3));
    assert_eq!(fit_widths(&vec![5, 1], 4), (0, 0));
}

#[test]
fn tags_are_cut_with_dots() {
    assert_eq!(shorten_tag("urgent", 6), "urgent");
    assert_eq!(shorten_tag("urgent", 5), "ur...");
    assert_eq!(shorten_tag("urgent", 4), "u...");
    // no room for a character and the dots
    assert_eq!(shorten_tag("urgent", 3), "urg");
    assert_eq!(shorten_tag("urgent", 0), "");
    assert_eq!(shorten_tag("日本語", 6), "日本語");
    assert_eq!(shorten_tag("日本語", 5), "日...");
    assert_eq!(shorten_tag("", 0), "");
}

#[test]
fn the_tags_box() {
    let mut picked = TagSet::new();
    picked.insert("bug".to_string());
    let tags = strings(&["bug", "a very long tag", "last"]);
    let rows =
        tag_lines(Viewer::Embedded, area(1, 5, 10, 2), &tags, &vec![12, 3], &picked, true, Some(1));
    assert_eq!(rows.len(), 2);
    assert_eq!(rows[0].y, 5);
    assert_eq!(rows[0].text, "> bug");
    assert_eq!(rows[0].count, "12");
    assert_eq!(rows[0].count_x, 9);
    assert!(!rows[0].highlighted);
    assert_eq!(rows[1].y, 6);
    assert_eq!(rows[1].text, "a ver...");
    assert_eq!(rows[1].count_x, 10);
    assert!(rows[1].highlighted);
    let rows =
        tag_lines(Viewer::Standalone, area(1, 5, 10, 9), &tags, &vec![12, 3], &picked, false, Some(1));
    assert_eq!(rows.len(), 3);
    assert_eq!(rows[1].text, "a very...");
    assert_eq!(rows[1].count_x, 10);
    assert!(!rows[1].highlighted);
    assert_eq!(rows[2].count, "0");
}

#[test]
fn the_preview_box() {
    assert_eq!(preview_lines("ab\r\n\tc d\n\nlast", 9, 20), strings(&["ab", "\u{a0}\u{a0}\u{a0}\u{a0}c\u{a0}d", "", "last"]));
    assert_eq!(preview_lines("one\ntwo\nthree\n", 2, 2), strings(&["on", "tw"]));
    assert_eq!(preview_lines("", 5, 5), strings(&[]));
    assert_eq!(preview_lines("\n", 5, 5), strings(&[""]));
    // a carriage return without a line feed stays
    assert_eq!(preview_lines("a\r", 5, 5), strings(&["a\r"]));
    assert_eq!(preview_lines("a\r\r\nb", 5, 5), strings(&["a\r", "b"]));
    assert_eq!(preview_lines("日本", 1, 3), strings(&["日"]));
}

#[test]
fn preview_lines_are_the_lines_of_the_text() {
    for text in ["", "a", "a\n", "a\nb", "\r\n", "x\r\ny\r", "\n\n", "a\r\n\r\nb\n"] {
        let lines: Vec<String> = text.lines().map(|l| l.to_string()).collect();
        assert_eq!(preview_lines(text, 100, 100), lines);
    }
}

#[test]
fn the_columns() {
    assert_eq!(content_area(area(0, 0, 80, 23)), area(0, 0, 80, 24));
    assert_eq!(content_area(area(0, 0, 80, u16::MAX)), area(0, 0, 80, u16::MAX));
    let c = columns_with_tags(area(0, 0, 32, 24), area(32, 0, 23, 24), area(55, 0, 25, 24));
    assert_eq!(c.tags, area(0, 0, 22, 24));
    assert_eq!(c.dumps, area(22, 0, 23, 24));
    assert_eq!(c.preview, area(45, 0, 35, 24));
    let c = columns_with_tags(area(0, 0, 10, 24), area(10, 0, 23, 24), area(33, 0, 5, 24));
    assert_eq!(c.tags, area(0, 0, 10, 24));
    assert_eq!(c.dumps, area(10, 0, 23, 24));
    assert_eq!(c.preview, area(33, 0, 5, 24));
    let c = columns_without_tags(area(0, 0, 23, 24), area(23, 0, 57, 24));
    assert_eq!(c.tags, area(0, 0, 0, 24));
    assert_eq!(c.dumps, area(0, 0, 23, 24));
    assert_eq!(c.preview, area(23, 0, 57, 24));
}

#[test]
fn labels_in_the_borders() {
    let (text, place) = counts_label(area(10, 2, 23, 20), 3, 12);
    assert_eq!(text, "3/12");
    assert_eq!(place, area(28, 2, 4, 1));
    let (text, place) = counts_label(area(10, 2, 3, 20), 3, 12);
    assert_eq!(text, "3/12");
    assert_eq!(place, area(10, 2, 4, 1));
    let (text, place) = size_label(area(45, 0, 35, 24), "1.5 KiB").unwrap();
    assert_eq!(text, "1.5 KiB");
    assert_eq!(place, area(72, 23, 7, 1));
    let (text, place) = size_label(area(45, 0, 5, 0), "1.5 KiB").unwrap();
    assert_eq!(text, "1.5 ");
    assert_eq!(place, area(45, 0, 4, 1));
    assert!(size_label(area(45, 0, 0, 24), "1.5 KiB").is_none());
    assert!(size_label(area(45, 0, 35, 24), "").is_none());
    let (text, place) = size_label(area(45, 0, 5, 3), "日本語").unwrap();
    assert_eq!(text, "日本");
    assert_eq!(place, area(45, 2, 4, 1));
}

#[test]
fn the_mark_of_the_selected_dump() {
    assert_eq!(marker_area(area(1, 1, 21, 5), 4), Some(area(1, 5, 21, 1)));
    assert_eq!(marker_area(area(1, 1, 21, 5), 5), None);
    assert!(area(1, 1, u16::MAX - 1, 5).fits());
    assert!(!area(1, 1, u16::MAX, 5).fits());
    assert!(!area(0, 2, 0, u16::MAX - 1).fits());
}

#[test]
fn the_status_line() {
    let gap = "\u{a0}";
    assert_eq!(status_line("Title", "10 B", 12), format!("Title{}10 B", gap.repeat(3)));
    assert_eq!(status_line("A longer title", "10 B", 12), format!("A lo...{}10 B", gap));
    assert_eq!(status_line("Title", "10 B", 8), format!("{}10 B", gap.repeat(4)));
    assert_eq!(status_line("Title", "10 B", 4), "10 B");
    assert_eq!(status_line("Title", "10 B", 2), "10");
    assert_eq!(status_line("", "", 3), gap.repeat(3));
    // wide characters count twice
    assert_eq!(status_line("日本", "1 B", 10), format!("日本{}1 B", gap.repeat(3)));
    assert_eq!(status_line("日本語日本", "1 B", 10), format!("日...{}1 B", gap.repeat(2)));
    for width in 0..30 {
        assert_eq!(status_line("some title", "123 B", width).chars().count(), width);
    }
}

fn entry(time: &str, title: &str, size: &str) -> Entry {
    Entry { time: time.to_string(), title: title.to_string(), size: size.to_string() }
}

#[test]
fn the_listing_without_a_terminal() {
    let time = "2024-01-02 03:04:05";
    assert_eq!(
        listing_line(1, &entry(time, "Title", "10 B")),
        format!("{}: {:<19}  {:<40} {:>8}", 1, time, "Title", "10 B")
    );
    assert_eq!(
        listing_line(12, &entry("unknown", "", "1023.9 KiB")),
        format!("{}: {:<19} {:>8}", 12, "unknown", "1023.9 KiB")
    );
    let long = "0123456789012345678901234567890123456789x";
    assert_eq!(
        listing_line(3, &entry(time, long, "1 B")),
        format!("{}: {:<19}  {:<40} {:>8}", 3, time, format!("{}...", &long[..37]), "1 B")
    );
    assert_eq!(
        listing_line(3, &entry(time, &long[..40], "1 B")),
        format!("{}: {:<19}  {:<40} {:>8}", 3, time, &long[..40], "1 B")
    );
    // forty bytes in fewer characters are padded by characters
    let wide = "é".repeat(20);
    assert_eq!(
        listing_line(3, &entry(time, &wide, "1 B")),
        format!("{}: {:<19}  {:<40} {:>8}", 3, time, wide, "1 B")
    );
}

#[test]
fn titles_that_cannot_be_cut() {
    assert!(title_can_be_cut("short"));
    assert!(title_can_be_cut(&"é".repeat(20)));
    // byte 37 lies within a character of two bytes
    assert!(!title_can_be_cut(&"é".repeat(21)));
    assert!(title_can_be_cut(&format!("x{}", "é".repeat(21))));
}

fn listed(name: &str, modified: i128) -> FileFacts {
    FileFacts {
        path: name.as_bytes().to_vec(),
        is_file: true,
        name: Some(name.to_string()),
        lossy_name: name.to_string(),
        stat: Some(FileStat { len: 5, modified: Some(modified) }),
        metadata: Metadata { title: name.to_string(), tags: Vec::new(), timestamp: None },
    }
}

#[test]
fn a_report_has_a_line_for_each_dump() {
    assert_eq!(report(&Listing::new()), strings(&["(no dumps found)"]));
    let list = scan_dumps(&vec![listed("a.json", 1), listed("b.json", 2)], Viewer::Standalone.unit());
    let lines = report(&list);
    assert_eq!(lines.len(), 2);
    assert_eq!(lines[0], listing_line(1, &list.entries[0]));
    assert!(lines[0].contains("b.json"));
    assert!(lines[1].starts_with("2: "));
}

#[test]
fn lines_of_the_dumps_box() {
    let list = scan_dumps(&vec![listed("a.json", 1), listed("b.json", 2)], Viewer::Embedded.unit());
    let times: Vec<String> = list.entries.iter().map(|e| e.time.clone()).collect();
    let mut b = Browser::new(Viewer::Embedded, list).0;
    assert_eq!(b.dump_lines(), vec![format!("  {}", times[0]), times[1].clone()]);
    assert_eq!(b.selected_texts(), ("b.json".to_string(), "5 B".to_string()));
    assert_eq!(b.selected_line(), Some(0));
    b.selected = None;
    assert_eq!(b.dump_lines(), times);
    assert_eq!(b.selected_texts(), (String::new(), String::new()));
    assert_eq!(b.selected_line(), None);
    b.selected = Some(1);
    b.selected_tags.insert("none".to_string());
    assert!(b.dump_lines().is_empty());
    assert_eq!(b.selected_line(), None);
}

#[test]
fn texts_of_the_preview() {
    let bytes = |b: &[u8]| Reading::Bytes(b.to_vec());
    assert_eq!(read_preview(Viewer::Embedded, bytes("{\"é\": 1}\n".as_bytes())), "{\"é\": 1}\n");
    assert_eq!(read_preview(Viewer::Embedded, bytes(&[0xff])), "");
    assert_eq!(
        read_preview(Viewer::Standalone, bytes(&[0xff])),
        "failed to read preview: stream did not contain valid UTF-8"
    );
    assert_eq!(read_preview(Viewer::Embedded, Reading::Failed("gone".to_string())), "");
    assert_eq!(
        read_preview(Viewer::Standalone, Reading::Failed("gone".to_string())),
        "failed to read preview: gone"
    );
    assert_eq!(empty_preview(Viewer::Embedded), "");
    assert_eq!(empty_preview(Viewer::Standalone), "(no preview available)");
}

#[test]
fn only_the_beginning_is_previewed() {
    let long = vec![b'x'; PREVIEW_LIMIT + 5];
    assert_eq!(read_preview(Viewer::Embedded, Reading::Bytes(long)).len(), 65536);
    // a character cut in two makes the beginning invalid
    let mut cut = vec![b'x'; PREVIEW_LIMIT - 1];
    cut.extend_from_slice("é".as_bytes());
    assert_eq!(read_preview(Viewer::Embedded, Reading::Bytes(cut)), "");
}

#[test]
fn notes_in_empty_boxes() {
    let started = |viewer: Viewer, files: Vec<FileFacts>| {
        Browser::new(viewer, scan_dumps(&files, viewer.unit())).0
    };
    assert_eq!(started(Viewer::Embedded, Vec::new()).dumps_note(), Some(""));
    let mut b = started(Viewer::Standalone, Vec::new());
    assert_eq!(b.dumps_note(), Some("(no dumps found)"));
    b = started(Viewer::Standalone, vec![listed("a.json", 1)]);
    assert_eq!(b.dumps_note(), None);
    b.selected_tags.insert("none".to_string());
    assert_eq!(b.dumps_note(), Some("(no dumps match selected tags)"));
    assert_eq!(no_tags_note(Viewer::Embedded), None);
    assert_eq!(no_tags_note(Viewer::Standalone), Some("(no tags)"));
    assert_eq!(report_preview(String::new()), "(no preview available)");
    assert_eq!(report_preview("x".to_string()), "x");
}
