use pty_mux::{name_lt, order_entries, sorted_unique, FileEntry};

#[test]
fn name_order_is_by_code_point() {
    assert!(name_lt("a", "b"));
    assert!(name_lt("", "a"));
    assert!(name_lt("ab", "abc"));
    assert!(!name_lt("abc", "ab"));
    assert!(!name_lt("a", "a"));
    assert!(name_lt("Z", "a"));
    assert!(name_lt("z", "é"));
}

#[test]
fn font_names_are_deduplicated_and_sorted() {
    let names = vec![
        "Noto Sans".to_string(),
        "Arial".to_string(),
        "DejaVu".to_string(),
        "Arial".to_string(),
        "Noto Sans".to_string(),
    ];
    assert_eq!(sorted_unique(names), vec!["Arial", "DejaVu", "Noto Sans"]);
    assert!(sorted_unique(Vec::new()).is_empty());
}

#[test]
fn sorted_unique_agrees_with_std_order() {
    let names: Vec<String> = ["b", "B", "a", "ä", "aa", "", "b"].iter().map(|s| s.to_string()).collect();
    let mut expected = names.clone();
    expected.sort();
    expected.dedup();
    assert_eq!(sorted_unique(names), expected);
}

#[test]
fn directories_are_listed_first_then_by_name() {
    let entries = vec![
        FileEntry::new("zeta.md".into(), "/d/zeta.md".into(), false),
        FileEntry::new("src".into(), "/d/src".into(), true),
        FileEntry::new("alpha.txt".into(), "/d/alpha.txt".into(), false),
        FileEntry::new("docs".into(), "/d/docs".into(), true),
    ];
    let ordered = order_entries(entries);
    let names: Vec<&str> = ordered.iter().map(|e| e.name().as_str()).collect();
    assert_eq!(names, vec!["docs", "src", "alpha.txt", "zeta.md"]);
    assert!(ordered[0].is_dir());
    assert_eq!(ordered[2].path(), "/d/alpha.txt");
}
