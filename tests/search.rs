use pty_mux::{
    display_name, file_hit, first_hit_index, is_text_extension, is_blank_query, is_searchable_extension, occurs, SearchHits,
    SearchResult, MAX_RESULTS,
};

#[test]
fn blank_queries() {
    assert!(is_blank_query(""));
    assert!(is_blank_query("  \t\n"));
    assert!(!is_blank_query(" a "));
}

#[test]
fn searchable_extensions_ignore_case() {
    assert!(is_searchable_extension(Some("md")));
    assert!(is_searchable_extension(Some("MD")));
    assert!(is_searchable_extension(Some("Txt")));
    assert!(!is_searchable_extension(Some("rs")));
    assert!(!is_searchable_extension(Some("markdown")));
    assert!(!is_searchable_extension(None));
}

#[test]
fn occurrence_of_text() {
    assert!(occurs("hello world", "lo w"));
    assert!(occurs("abc", ""));
    assert!(!occurs("abc", "abcd"));
    assert!(!occurs("abc", "ac"));
    assert!(occurs("日本語", "本"));
}

#[test]
fn hit_gives_first_matching_line_trimmed() {
    let text = "first line\n   Second Hello there  \nhello again\n";
    assert_eq!(file_hit(text, "HELLO"), Some("Second Hello there".to_string()));
}

#[test]
fn hit_across_lines_has_empty_snippet() {
    assert_eq!(file_hit("ab\ncd", "b\nc"), Some(String::new()));
}

#[test]
fn no_hit() {
    assert_eq!(file_hit("nothing here", "absent"), None);
}

#[test]
fn names_fall_back_to_unknown() {
    assert_eq!(display_name(Some("a.md".to_string())), "a.md");
    assert_eq!(display_name(None), "Unknown");
}

#[test]
fn result_fields() {
    let r = SearchResult::new("/x/a.md".into(), "a.md".into(), false, "line".into());
    assert_eq!(r.path(), "/x/a.md");
    assert_eq!(r.name(), "a.md");
    assert!(!r.is_dir());
    assert_eq!(r.snippet(), "line");
}

#[test]
fn hits_keep_order_and_stop_at_the_limit() {
    let mut hits = SearchHits::new("needle");
    hits.offer("/a.md".into(), Some("a.md".into()), "a needle here");
    hits.offer("/b.md".into(), Some("b.md".into()), "no match");
    hits.offer("/c.txt".into(), None, "NEEDLE");
    assert!(!hits.is_full());
    let found = hits.into_results();
    assert_eq!(found.len(), 2);
    assert_eq!(found[0].path(), "/a.md");
    assert_eq!(found[0].snippet(), "a needle here");
    assert_eq!(found[1].name(), "Unknown");
    assert_eq!(found[1].snippet(), "NEEDLE");

    let mut many = SearchHits::new("x");
    for n in 0..(MAX_RESULTS + 5) {
        many.offer(format!("/{}.md", n), None, "x");
    }
    assert!(many.is_full());
    assert_eq!(many.into_results().len(), MAX_RESULTS);
}

#[test]
fn lowered_extensions() {
    assert!(is_text_extension("md"));
    assert!(is_text_extension("txt"));
    assert!(!is_text_extension("MD"));
    assert!(!is_text_extension(""));
}

#[test]
fn first_hit_among_lowered_lines() {
    let lines: Vec<String> = vec!["alpha".into(), "beta gamma".into(), "gamma".into()];
    assert_eq!(first_hit_index(&lines, "gamma"), Some(1));
    assert_eq!(first_hit_index(&lines, "alp"), Some(0));
    assert_eq!(first_hit_index(&lines, "delta"), None);
    assert_eq!(first_hit_index(&Vec::new(), "x"), None);
}

#[test]
fn each_hit_adds_exactly_one_result() {
    let mut hits = SearchHits::new("q");
    hits.offer("/1.md".into(), None, "q");
    hits.offer("/2.md".into(), None, "nothing");
    hits.offer("/3.md".into(), None, "Q here");
    assert_eq!(hits.into_results().len(), 2);
}
