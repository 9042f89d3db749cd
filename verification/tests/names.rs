use rubbish::names::{
    data_dir, dir_to_use, dump_file_name, dumps_dir, is_dump, is_sidecar, join_path, log_file, path_components,
    path_within, same_path, sidecar_file_name, sidecar_for_dump, temp_file_name, title_from_name,
};

fn some(s: &str) -> Option<String> {
    Some(s.to_string())
}

#[test]
fn names_of_a_dump() {
    assert_eq!(dump_file_name("01ABC"), "01ABC.json");
    assert_eq!(sidecar_file_name("01ABC"), "01ABC.metadata.json");
    assert_eq!(temp_file_name("01ABC.json"), "01ABC.json.tmp");
    assert_eq!(sidecar_for_dump("01ABC.json"), some("01ABC.metadata.json"));
    assert_eq!(sidecar_for_dump("01ABC.txt"), None);
    assert_eq!(sidecar_for_dump(".json"), some(".metadata.json"));
}

#[test]
fn sidecars_and_temporary_files_are_hidden() {
    assert!(is_dump(&some("a.json")));
    assert!(!is_dump(&some("a.metadata.json")));
    assert!(!is_dump(&some("a.json.tmp")));
    assert!(!is_dump(&some("a.metadata.json.tmp")));
    assert!(!is_dump(&some("a.txt")));
    assert!(is_dump(&None));
    assert!(is_sidecar(&some("a.metadata.json")));
    assert!(!is_sidecar(&some("a.json")));
    assert!(!is_sidecar(&None));
    // a dump whose identifier ends in `.metadata` is taken for a sidecar
    assert!(!is_dump(&some(&dump_file_name("x.metadata"))));
}

#[test]
fn titles_in_file_names() {
    assert_eq!(title_from_name("my title_01ABC.json"), "my title");
    assert_eq!(title_from_name("a_b_c.json"), "a_b");
    assert_eq!(title_from_name("01ABC.json"), "");
    assert_eq!(title_from_name("_01ABC.json"), "");
    assert_eq!(title_from_name("a_b"), "a");
    assert_eq!(title_from_name(".json"), "");
    assert_eq!(title_from_name("é_x.json"), "é");
}

#[test]
fn directories() {
    let none: Option<String> = None;
    assert_eq!(dumps_dir(&some("/xdg"), &some("/home/u")), "/xdg/rubbish/dumps");
    assert_eq!(dumps_dir(&some("/xdg/"), &none), "/xdg/rubbish/dumps");
    assert_eq!(dumps_dir(&some(""), &some("/home/u")), "/home/u/.local/share/rubbish/dumps");
    assert_eq!(dumps_dir(&none, &some("")), ".local/share/rubbish/dumps");
    assert_eq!(dumps_dir(&none, &none), "./dumps");
    assert_eq!(log_file(&some("/xdg"), &none), "/xdg/rubbish/info.log");
    assert_eq!(log_file(&none, &some("/home/u")), "/home/u/.local/share/rubbish/info.log");
    assert_eq!(log_file(&none, &none), "./info.log");
    assert_eq!(data_dir(&none, &none), None);
    assert_eq!(join_path("a", "b"), "a/b");
    assert_eq!(dir_to_use("/xdg/rubbish/dumps".to_string(), true), "/xdg/rubbish/dumps");
    assert_eq!(dir_to_use("/xdg/rubbish/dumps".to_string(), false), "./dumps");
}

#[test]
fn joined_paths_agree_with_std() {
    for base in ["/", "/a", "/a/", "a/b", "", "."] {
        let path = std::path::PathBuf::from(base).join("rubbish");
        assert_eq!(join_path(base, "rubbish"), path.to_str().unwrap());
    }
}

#[test]
fn paths_agree_with_std() {
    let spellings = [
        "", ".", "./", "..", "/", "//", "/.", "/..", "a", "a/", "a//", "./a", "././a", ".//a", "a/.",
        "a/./b", "a//b", "a/b/", "a/../b", "/a", "//a", "/./a", "/a/", "/a/b", "/a//b", "/a/./b",
        "/a/.b", "/a/b.", "/ab", "/d/x.json", "/d//x.json", "/d", "/dd/x.json", "dumps/x", "dumps",
        "./dumps", "./dumps/x",
    ];
    for p in spellings {
        let path = std::path::Path::new(p);
        let list: Vec<Vec<u8>> = path
            .components()
            .map(|c| c.as_os_str().to_str().unwrap().as_bytes().to_vec())
            .collect();
        assert_eq!(path_components(&p.as_bytes().to_vec()), list);
        for q in spellings {
            let other = std::path::Path::new(q);
            let (a, b) = (p.as_bytes().to_vec(), q.as_bytes().to_vec());
            assert_eq!(same_path(&a, &b), path == other);
            assert_eq!(path_within(&a, &b), path.starts_with(other));
        }
    }
}

#[test]
fn slashes_more_or_less() {
    let same = |p: &str, q: &str| same_path(&p.as_bytes().to_vec(), &q.as_bytes().to_vec());
    assert!(same("/d//a.json", "/d/a.json"));
    assert!(same("/d/./a.json", "/d/a.json"));
    assert!(same("/d/", "/d"));
    assert!(!same("/", ""));
    assert!(!same("./d", "d"));
    assert!(!same("/d/x", "/d/y"));
}
