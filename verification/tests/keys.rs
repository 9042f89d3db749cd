use rubbish::browser::{Browser, Focus, Preview, Viewer};
use rubbish::keys::{command_of, find_index, step_from, Command, Effect, KeyPress};
use rubbish::listing::{scan_dumps, FileFacts, FileStat};
use rubbish::metadata::Metadata;

fn file(name: &str, modified: i128, tags: &[&str]) -> FileFacts {
    FileFacts {
        path: name.as_bytes().to_vec(),
        is_file: true,
        name: Some(name.to_string()),
        lossy_name: name.to_string(),
        stat: Some(FileStat { len: 1, modified: Some(modified) }),
        metadata: Metadata {
            title: String::new(),
            tags: tags.iter().map(|t| t.to_string()).collect(),
            timestamp: None,
        },
    }
}

/// Four dumps: with the tags y and x, with none, with x, with y.
fn browser() -> Browser {
    let files = vec![
        file("3.json", 1, &["y"]),
        file("2.json", 2, &["x"]),
        file("1.json", 3, &[]),
        file("0.json", 4, &["y", "x"]),
    ];
    Browser::new(Viewer::Embedded, scan_dumps(&files, Viewer::Embedded.unit())).0
}

fn press(b: &mut Browser, key: KeyPress) -> Effect {
    let tags = b.tag_list();
    b.settle_cursor(tags.len());
    b.obey(command_of(key), &tags, true)
}

#[test]
fn what_the_keys_ask_for() {
    assert_eq!(command_of(KeyPress::Esc), Command::Quit);
    assert_eq!(command_of(KeyPress::Char('q')), Command::Quit);
    assert_eq!(command_of(KeyPress::Interrupt), Command::Quit);
    assert_eq!(command_of(KeyPress::Left), Command::Left);
    assert_eq!(command_of(KeyPress::Char('h')), Command::Left);
    assert_eq!(command_of(KeyPress::Right), Command::Right);
    assert_eq!(command_of(KeyPress::Char('l')), Command::Right);
    assert_eq!(command_of(KeyPress::Up), Command::Up);
    assert_eq!(command_of(KeyPress::Char('k')), Command::Up);
    assert_eq!(command_of(KeyPress::Down), Command::Down);
    assert_eq!(command_of(KeyPress::Char('j')), Command::Down);
    assert_eq!(command_of(KeyPress::Char(' ')), Command::Toggle);
    assert_eq!(command_of(KeyPress::Char('c')), Command::Clear);
    assert_eq!(command_of(KeyPress::Char('m')), Command::Mode);
    assert_eq!(command_of(KeyPress::Enter), Command::Open);
    assert_eq!(command_of(KeyPress::Char('Q')), Command::Nothing);
    assert_eq!(command_of(KeyPress::Other), Command::Nothing);
}

#[test]
fn quitting() {
    let mut b = browser();
    assert_eq!(press(&mut b, KeyPress::Char('q')), Effect::Quit);
    assert_eq!(press(&mut b, KeyPress::Other), Effect::Show(Preview::Keep));
}

#[test]
fn up_and_down_go_around() {
    let mut b = browser();
    assert_eq!(press(&mut b, KeyPress::Up), Effect::Show(Preview::Load(3)));
    assert_eq!(b.tags_selected, Some(0));
    assert_eq!(press(&mut b, KeyPress::Down), Effect::Show(Preview::Load(0)));
    assert_eq!(press(&mut b, KeyPress::Down), Effect::Show(Preview::Load(1)));
    assert_eq!(b.tags_selected, None);
    assert_eq!(press(&mut b, KeyPress::Up), Effect::Show(Preview::Load(0)));
}

#[test]
fn up_and_down_skip_hidden_dumps() {
    let mut b = browser();
    b.selected_tags.insert("x".to_string());
    assert_eq!(b.display_indices(), vec![0, 2]);
    assert_eq!(press(&mut b, KeyPress::Down), Effect::Show(Preview::Load(2)));
    assert_eq!(press(&mut b, KeyPress::Down), Effect::Show(Preview::Load(0)));
    b.selected = Some(1);
    assert_eq!(press(&mut b, KeyPress::Up), Effect::Show(Preview::Load(2)));
    b.selected = None;
    assert_eq!(press(&mut b, KeyPress::Down), Effect::Show(Preview::Load(0)));
    b.selected_tags.insert("z".to_string());
    assert_eq!(press(&mut b, KeyPress::Down), Effect::Show(Preview::Keep));
}

#[test]
fn to_the_tags_and_back() {
    let mut b = browser();
    assert_eq!(b.tag_list(), vec!["x".to_string(), "y".to_string()]);
    assert_eq!(press(&mut b, KeyPress::Left), Effect::Show(Preview::Keep));
    assert_eq!(b.focus, Focus::Tags);
    // the first tag of the selected dump is y
    assert_eq!(b.tags_selected, Some(1));
    press(&mut b, KeyPress::Down);
    assert_eq!(b.tags_selected, Some(0));
    press(&mut b, KeyPress::Up);
    assert_eq!(b.tags_selected, Some(1));
    press(&mut b, KeyPress::Up);
    assert_eq!(b.tags_selected, Some(0));
    press(&mut b, KeyPress::Right);
    assert_eq!(b.focus, Focus::Dumps);
    b.selected = Some(1);
    press(&mut b, KeyPress::Left);
    assert_eq!(b.tags_selected, None);
    b.selected = None;
    press(&mut b, KeyPress::Left);
    assert_eq!(b.tags_selected, None);
}

#[test]
fn picking_tags() {
    let mut b = browser();
    press(&mut b, KeyPress::Left);
    b.selected = Some(1);
    // the cursor is on y
    assert_eq!(press(&mut b, KeyPress::Char(' ')), Effect::Show(Preview::Load(0)));
    assert!(b.selected_tags.contains(&"y".to_string()));
    assert_eq!(b.selected, Some(0));
    assert_eq!(press(&mut b, KeyPress::Char(' ')), Effect::Show(Preview::Keep));
    assert!(b.selected_tags.is_empty());
    // nothing happens while the dumps have the focus
    press(&mut b, KeyPress::Right);
    press(&mut b, KeyPress::Char(' '));
    assert!(b.selected_tags.is_empty());
}

#[test]
fn picking_tags_that_no_dump_has_together() {
    let files = vec![file("1.json", 1, &["x"]), file("0.json", 2, &["y"])];
    let mut b = Browser::new(Viewer::Embedded, scan_dumps(&files, Viewer::Embedded.unit())).0;
    press(&mut b, KeyPress::Left);
    press(&mut b, KeyPress::Char(' '));
    assert_eq!(b.selected, Some(0));
    press(&mut b, KeyPress::Up);
    assert_eq!(press(&mut b, KeyPress::Char(' ')), Effect::Show(Preview::Clear));
    assert_eq!(b.selected, None);
    assert_eq!(press(&mut b, KeyPress::Char('m')), Effect::Show(Preview::Load(0)));
    assert_eq!(b.selected, Some(0));
    assert!(!b.match_all);
    assert_eq!(press(&mut b, KeyPress::Char('m')), Effect::Show(Preview::Clear));
    assert_eq!(press(&mut b, KeyPress::Char('c')), Effect::Show(Preview::Load(0)));
    assert!(b.selected_tags.is_empty());
}

#[test]
fn picking_tags_while_any_is_enough() {
    let files = vec![file("1.json", 1, &["x"]), file("0.json", 2, &["y"])];
    let mut b = Browser::new(Viewer::Embedded, scan_dumps(&files, Viewer::Embedded.unit())).0;
    press(&mut b, KeyPress::Char('m'));
    press(&mut b, KeyPress::Left);
    assert_eq!(press(&mut b, KeyPress::Char(' ')), Effect::Show(Preview::Keep));
    press(&mut b, KeyPress::Up);
    // no dump has both, and each is visible by one of them
    assert_eq!(press(&mut b, KeyPress::Char(' ')), Effect::Show(Preview::Keep));
    assert_eq!(b.selected, Some(0));
    assert_eq!(b.display_indices(), vec![0, 1]);
    press(&mut b, KeyPress::Down);
    // with y dropped only the other dump is visible
    assert_eq!(press(&mut b, KeyPress::Char(' ')), Effect::Show(Preview::Load(1)));
    assert_eq!(b.selected, Some(1));
}

#[test]
fn switching_the_mode() {
    let mut b = browser();
    b.selected_tags.insert("x".to_string());
    b.selected_tags.insert("y".to_string());
    assert_eq!(b.display_indices(), vec![0]);
    assert_eq!(press(&mut b, KeyPress::Char('m')), Effect::Show(Preview::Keep));
    assert_eq!(b.display_indices(), vec![0, 2, 3]);
    b.selected = Some(3);
    assert_eq!(press(&mut b, KeyPress::Char('m')), Effect::Show(Preview::Load(0)));
    assert_eq!(b.selected, Some(0));
}

#[test]
fn clearing_an_empty_list() {
    let mut b = Browser::new(Viewer::Embedded, scan_dumps(&Vec::new(), Viewer::Embedded.unit())).0;
    assert_eq!(press(&mut b, KeyPress::Char('c')), Effect::Show(Preview::Clear));
    assert_eq!(press(&mut b, KeyPress::Down), Effect::Show(Preview::Keep));
    assert_eq!(press(&mut b, KeyPress::Enter), Effect::Show(Preview::Keep));
}

#[test]
fn opening_a_dump() {
    let mut b = browser();
    b.selected = Some(2);
    assert_eq!(press(&mut b, KeyPress::Enter), Effect::Open(2));
    let tags = b.tag_list();
    assert_eq!(b.obey(Command::Open, &tags, false), Effect::Show(Preview::Keep));
    b.selected = None;
    assert_eq!(press(&mut b, KeyPress::Enter), Effect::Show(Preview::Keep));
}

#[test]
fn the_cursor_settles() {
    let mut b = browser();
    b.settle_cursor(2);
    assert_eq!(b.tags_selected, Some(0));
    b.tags_selected = Some(1);
    b.settle_cursor(2);
    assert_eq!(b.tags_selected, Some(1));
    b.tags_selected = Some(2);
    b.settle_cursor(2);
    assert_eq!(b.tags_selected, Some(0));
    b.settle_cursor(0);
    assert_eq!(b.tags_selected, None);
}

#[test]
fn steps_and_places() {
    assert_eq!(step_from(Some(0), 3, true), 2);
    assert_eq!(step_from(Some(2), 3, false), 0);
    assert_eq!(step_from(None, 3, true), 2);
    assert_eq!(step_from(None, 3, false), 0);
    assert_eq!(step_from(Some(1), 3, true), 0);
    assert_eq!(find_index(&vec![4, 2, 7], 7), Some(2));
    assert_eq!(find_index(&vec![4, 2, 7], 5), None);
}
