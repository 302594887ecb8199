use chimera_md::cache_info::FileTime;
use std::ops::Range;
use chimera_md::full_text_index::{
    highlight, link_of, listen_for_changes, normalize_ranges, FileTimes, FullTextIndex,
    SearchHit,
};

fn at(secs: u64) -> FileTime {
    FileTime { secs, nanos: 0 }
}

#[test]
fn overlapping_ranges_are_merged() {
    assert_eq!(normalize_ranges(&vec![0..4, 1..5]), vec![0..5]);
    assert_eq!(normalize_ranges(&vec![0..2, 2..4]), vec![0..4]);
    assert_eq!(normalize_ranges(&vec![0..2, 3..4]), vec![0..2, 3..4]);
    assert_eq!(normalize_ranges(&vec![0..6, 1..3]), vec![0..6]);
    assert!(normalize_ranges(&Vec::new()).is_empty());
}

#[test]
fn empty_and_unordered_ranges() {
    assert_eq!(normalize_ranges(&vec![3..3, 1..2]), vec![1..2]);
    assert_eq!(normalize_ranges(&vec![5..7, 0..2, 1..3]), vec![0..3, 5..7]);
    assert_eq!(normalize_ranges(&vec![4..2]), Vec::<Range<usize>>::new());
    assert_eq!(normalize_ranges(&vec![0..0]), Vec::<Range<usize>>::new());
}

#[test]
fn highlight_marks_and_escapes() {
    assert_eq!(
        highlight("a<b> table", &vec![5..9, 6..10]),
        "a&lt;b&gt; <span class=\"highlight\">table</span>"
    );
    assert_eq!(highlight("plain & simple", &Vec::new()), "plain &amp; simple");
    assert_eq!(highlight("", &Vec::new()), "");
    assert_eq!(highlight("abc", &vec![0..3]), "<span class=\"highlight\">abc</span>");
    assert_eq!(
        highlight("it's \"x\"/y", &Vec::new()),
        "it&#x27;s &quot;x&quot;&#x2F;y"
    );
}

#[test]
fn highlight_with_two_spans() {
    assert_eq!(
        highlight("one two three", &vec![0..3, 8..13]),
        "<span class=\"highlight\">one</span> two <span class=\"highlight\">three</span>"
    );
}

#[test]
fn highlight_counts_bytes() {
    assert_eq!(
        highlight("\u{e9}t\u{e9} <", &vec![3..5]),
        "\u{e9}t<span class=\"highlight\">\u{e9}</span> &lt;"
    );
    assert_eq!(
        highlight("\u{e9}a", &vec![1..2]),
        "<span class=\"highlight\">\u{e9}</span>a"
    );
}

#[test]
fn highlight_beyond_the_end_is_cut() {
    assert_eq!(highlight("ab", &vec![1..10]), "a<span class=\"highlight\">b</span>");
    assert_eq!(highlight("ab", &vec![5..10]), "ab");
}

#[test]
fn hits_become_results() {
    let index = FullTextIndex::new();
    let hits = vec![
        SearchHit {
            title: Some("a.md".to_string()),
            link: Some("/home/a.md".to_string()),
            fragment: "the cat".to_string(),
            highlighted: vec![4..7],
        },
        SearchHit {
            title: None,
            link: Some("/home/b.md".to_string()),
            fragment: "x".to_string(),
            highlighted: vec![],
        },
    ];
    let results = index.search(&hits);
    assert_eq!(results.len(), 1);
    assert_eq!(results[0].title, "a.md");
    assert_eq!(results[0].link, "/home/a.md");
    assert_eq!(results[0].snippet, "the <span class=\"highlight\">cat</span>");
}

#[test]
fn at_most_ten_results() {
    let index = FullTextIndex::new();
    let mut hits = Vec::new();
    for i in 0..12 {
        hits.push(SearchHit {
            title: Some(format!("{i}.md")),
            link: Some(format!("/home/{i}.md")),
            fragment: String::new(),
            highlighted: vec![],
        });
    }
    let results = index.search(&hits);
    assert_eq!(results.len(), 10);
    assert_eq!(results[9].title, "9.md");
    assert_eq!(index.search(&Vec::new()).len(), 0);
}

#[test]
fn index_layout() {
    let index = FullTextIndex::new();
    assert_eq!(index.title_field.name, "title");
    assert!(index.title_field.stored && !index.title_field.tokenized);
    assert_eq!(index.link_field.name, "link");
    assert!(index.link_field.stored && !index.link_field.tokenized);
    assert_eq!(index.body_field.name, "body");
    assert!(index.body_field.stored && index.body_field.tokenized);
    assert!(index.body_field.with_positions);
    assert_eq!(index.tokenizer, "en_stem");
    assert_eq!(index.top_docs, 10);
    assert_eq!(index.writer_memory, 50_000_000);
}

#[test]
fn file_times_record() {
    let mut times = FileTimes::new();
    assert_eq!(times.get("/data/home/a.md"), None);
    assert!(!times.check_up_to_date("/data/home/a.md", Some(at(1))));
    assert!(times.check_up_to_date("/data/home/a.md", Some(at(1))));
    assert!(!times.check_up_to_date("/data/home/a.md", Some(at(2))));
    assert_eq!(times.get("/data/home/a.md"), Some(at(2)));
    assert!(!times.check_up_to_date("/data/home/a.md", None));
    assert_eq!(times.get("/data/home/a.md"), None);
    assert!(times.paths().is_empty());
}

#[test]
fn file_times_insert_and_remove() {
    let mut times = FileTimes::new();
    times.insert("a", at(1));
    times.insert("b", at(2));
    times.insert("a", at(3));
    assert_eq!(times.paths(), vec!["a".to_string(), "b".to_string()]);
    assert_eq!(times.get("a"), Some(at(3)));
    times.remove("a");
    times.remove("zzz");
    assert_eq!(times.paths(), vec!["b".to_string()]);
    assert_eq!(times.get("b"), Some(at(2)));
}

#[test]
fn site_links() {
    assert_eq!(link_of("/data/home/a/b.md", "/data/home"), Some("/home/a/b.md".to_string()));
    assert_eq!(link_of("/data/home/a/b.md", "/data/home/"), Some("/home/a/b.md".to_string()));
    assert_eq!(link_of("/data/home", "/data/home"), Some("/home/".to_string()));
    assert_eq!(link_of("/data/homework/a.md", "/data/home"), None);
    assert_eq!(link_of("/elsewhere/a.md", "/data/home"), None);
}

#[test]
fn scanner_skips_what_is_up_to_date() {
    let index = FullTextIndex::new();
    let mut times = FileTimes::new();
    times.insert("/data/home/a.md", at(5));
    let (mut scanner, queue) =
        index.scan_directory("/data/home", times, vec!["/data/home/a.md".to_string()]);
    assert_eq!(queue, vec!["/data/home/a.md".to_string()]);
    assert!(scanner.scan("/data/home/a.md", Some(at(5)), true).is_none());
    assert_eq!(scanner.docs_since_last_commit, 0);
}

#[test]
fn scanner_indexes_what_changed() {
    let index = FullTextIndex::new();
    let (mut scanner, _queue) = index.scan_directory("/data/home", FileTimes::new(), vec![]);
    let step = scanner.scan("/data/home/n/a.md", Some(at(5)), false).unwrap();
    assert_eq!(step.delete, Some("/home/n/a.md".to_string()));
    assert_eq!(step.add, Some(("a.md".to_string(), "/home/n/a.md".to_string())));
    assert!(!step.commit);
    assert_eq!(scanner.docs_since_last_commit, 1);
    let step = scanner.scan("/data/home/b.md", Some(at(6)), true).unwrap();
    assert!(step.commit);
    assert_eq!(scanner.docs_since_last_commit, 0);
    assert_eq!(scanner.file_times.get("/data/home/n/a.md"), Some(at(5)));
}

#[test]
fn scanner_commits_after_more_than_twenty_documents() {
    let index = FullTextIndex::new();
    let (mut scanner, _queue) = index.scan_directory("/data/home", FileTimes::new(), vec![]);
    for i in 0..20 {
        let path = format!("/data/home/{i}.md");
        let step = scanner.scan(&path, Some(at(1)), false).unwrap();
        assert!(!step.commit);
    }
    assert_eq!(scanner.docs_since_last_commit, 20);
    let step = scanner.scan("/data/home/last.md", Some(at(1)), false).unwrap();
    assert!(step.commit);
    assert_eq!(scanner.docs_since_last_commit, 0);
}

#[test]
fn scanner_passes_over_documents_outside_the_root() {
    let index = FullTextIndex::new();
    let (mut scanner, _queue) = index.scan_directory("/data/home", FileTimes::new(), vec![]);
    let step = scanner.scan("/tmp/x.md", Some(at(1)), false).unwrap();
    assert_eq!(step.delete, None);
    assert_eq!(step.add, None);
    assert!(!step.commit);
    assert_eq!(scanner.docs_since_last_commit, 0);
}

#[test]
fn scanner_forgets_a_document_that_is_gone() {
    let index = FullTextIndex::new();
    let mut times = FileTimes::new();
    times.insert("/data/home/a.md", at(5));
    let (mut scanner, _queue) = index.scan_directory("/data/home", times, vec![]);
    let step = scanner.scan("/data/home/a.md", None, true).unwrap();
    assert_eq!(step.delete, Some("/home/a.md".to_string()));
    assert_eq!(step.add, None);
    assert!(step.commit);
    assert_eq!(scanner.file_times.get("/data/home/a.md"), None);
}

#[test]
fn deleted_documents_are_pruned() {
    let index = FullTextIndex::new();
    let mut times = FileTimes::new();
    times.insert("/data/home/gone.md", at(5));
    times.insert("/data/home/kept.md", at(5));
    times.insert("/other/gone.md", at(5));
    let (mut scanner, _queue) = index.scan_directory("/data/home", times, vec![]);
    let links = scanner.prune_deleted_documents(&vec![
        "/data/home/gone.md".to_string(),
        "/other/gone.md".to_string(),
        "/data/home/never-seen.md".to_string(),
        "/data/home/gone.md".to_string(),
    ]);
    assert_eq!(links, vec!["/home/gone.md".to_string()]);
    assert_eq!(scanner.file_times.paths(), vec!["/data/home/kept.md".to_string()]);
    assert!(scanner.prune_deleted_documents(&Vec::new()).is_empty());
}

#[test]
fn only_documents_are_forwarded_to_the_scanner() {
    assert!(listen_for_changes("/data/home/a.md"));
    assert!(!listen_for_changes("/data/home/a.MD"));
    assert!(!listen_for_changes("/data/home/a.html"));
    assert!(!listen_for_changes("/data/home/md"));
    assert!(!listen_for_changes("/data/home/.md"));
}
