use pvped::files::{has_log_extension, select_journals, sort_journals, JournalFile};
use std::path::PathBuf;

fn file(name: &str) -> JournalFile {
    JournalFile { name: Some(name.as_bytes().to_vec()), path: PathBuf::from("/j").join(name) }
}

fn names(files: &[JournalFile]) -> Vec<Option<String>> {
    files.iter().map(|f| f.name.as_ref().map(|n| String::from_utf8(n.clone()).unwrap())).collect()
}

#[test]
fn log_extension_follows_path_extension() {
    for name in ["Journal.2024-01-01T000000.01.log", "a.log", "..log", "a.b.log", "x.tar.log"] {
        assert!(has_log_extension(name.as_bytes()), "{name}");
        assert_eq!(std::path::Path::new(name).extension().map(|e| e == "log"), Some(true));
    }
    for name in [".log", "log", "a.log.bak", "a.LOG", "a.logs", "alog", "", "a."] {
        assert!(!has_log_extension(name.as_bytes()), "{name}");
        assert_ne!(std::path::Path::new(name).extension().map(|e| e == "log"), Some(true));
    }
}

#[test]
fn select_keeps_journals_in_order() {
    let files = vec![
        file("b.log"),
        file("Status.json"),
        JournalFile { name: None, path: PathBuf::from("/") },
        file("a.log"),
        file(".log"),
    ];
    let selected = select_journals(files);
    assert_eq!(names(&selected), vec![Some("b.log".to_string()), Some("a.log".to_string())]);
    assert_eq!(selected[0].path, PathBuf::from("/j/b.log"));
}

#[test]
fn sort_newest_journal_first() {
    let files = vec![
        file("Journal.2024-01-02T100000.01.log"),
        file("Journal.2023-12-31T100000.01.log"),
        file("Journal.2024-05-01T100000.01.log"),
        JournalFile { name: None, path: PathBuf::from("/") },
        file("Journal.2024-01-02T100000.01.log.x"),
    ];
    let sorted = sort_journals(files);
    assert_eq!(
        names(&sorted),
        vec![
            Some("Journal.2024-05-01T100000.01.log".to_string()),
            Some("Journal.2024-01-02T100000.01.log.x".to_string()),
            Some("Journal.2024-01-02T100000.01.log".to_string()),
            Some("Journal.2023-12-31T100000.01.log".to_string()),
            None,
        ]
    );
}

#[test]
fn sort_is_stable_for_equal_names() {
    let files = vec![
        JournalFile { name: Some(b"a".to_vec()), path: PathBuf::from("/1/a") },
        JournalFile { name: Some(b"b".to_vec()), path: PathBuf::from("/2/b") },
        JournalFile { name: Some(b"a".to_vec()), path: PathBuf::from("/3/a") },
    ];
    let sorted = sort_journals(files);
    let paths: Vec<PathBuf> = sorted.into_iter().map(|f| f.path).collect();
    assert_eq!(paths, vec![PathBuf::from("/2/b"), PathBuf::from("/1/a"), PathBuf::from("/3/a")]);
}

#[test]
fn sort_matches_std_on_bytes() {
    let raw: Vec<&[u8]> = vec![b"ab", b"a", b"", b"b", b"\xff", b"a\x00", b"ab"];
    let files: Vec<JournalFile> = raw
        .iter()
        .enumerate()
        .map(|(i, n)| JournalFile { name: Some(n.to_vec()), path: PathBuf::from(i.to_string()) })
        .collect();
    let sorted = sort_journals(files);
    let mut expected: Vec<Vec<u8>> = raw.iter().map(|n| n.to_vec()).collect();
    expected.sort_by(|a, b| b.cmp(a));
    let got: Vec<Vec<u8>> = sorted.into_iter().map(|f| f.name.unwrap()).collect();
    assert_eq!(got, expected);
}

#[test]
fn sort_empty() {
    assert!(sort_journals(vec![]).is_empty());
}
