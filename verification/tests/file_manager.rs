use chimera_md::document_scraper::ExternalLink;
use chimera_md::file_manager::{
    directory_watcher, sort_links, ChangeKind, FileManager, FoundFile, PeerInfo, WatchEvent,
};
use chimera_md::text::{file_name, file_stem, has_exact_extension, has_extension};

fn found(parent: &str, file_name: &str) -> FoundFile {
    FoundFile { parent: parent.to_string(), file_name: file_name.to_string() }
}

fn named(name: &str) -> ExternalLink {
    ExternalLink::new(format!("{name}.md"), name.to_string())
}

fn names(links: &[ExternalLink]) -> Vec<&str> {
    links.iter().map(|l| l.name.as_str()).collect()
}

fn listing() -> Vec<FoundFile> {
    vec![
        found("", "zebra.md"),
        found("", "index.md"),
        found("", "Apple.MD"),
        found("", "banana.md"),
        found("", "picture.png"),
        found("sub b", "x.md"),
        found("sub b", "y.md"),
        found("Alpha", "z.md"),
        found("empty", "notes.txt"),
    ]
}

#[test]
fn peers_are_sorted_with_the_index_first() {
    let manager = FileManager::new("/data/home", "index.md");
    let peers = manager.find_peers_in_folder(&listing(), None).unwrap();
    assert_eq!(names(&peers.files), vec!["index", "Apple", "banana", "zebra"]);
    assert_eq!(peers.files[0].url, "index.md");
    assert_eq!(peers.files[1].url, "Apple.MD");
    assert_eq!(names(&peers.folders), vec!["Alpha", "sub b"]);
    assert_eq!(peers.folders[0].url, "Alpha/");
    assert_eq!(peers.folders[1].url, "sub%20b/");
}

#[test]
fn a_document_is_not_its_own_peer() {
    let manager = FileManager::new("/data/home", "index.md");
    let peers = manager.find_peers("notes/banana.md", &listing()).unwrap();
    assert_eq!(names(&peers.files), vec!["index", "Apple", "zebra"]);
    let peers = manager.find_peers("notes/index.md", &listing()).unwrap();
    assert_eq!(names(&peers.files), vec!["index", "Apple", "banana", "zebra"]);
}

#[test]
fn no_peers_without_markdown() {
    let manager = FileManager::new("/data/home", "index.md");
    let entries = vec![found("", "a.txt"), found("sub", "b.png")];
    assert!(manager.find_peers_in_folder(&entries, None).is_none());
    assert!(manager.find_peers_in_folder(&Vec::new(), None).is_none());
    assert!(manager.find_peers_in_folder(&vec![found("", "only.md")], Some("only.md")).is_none());
    assert!(manager.find_peers("notes/", &listing()).is_none());
}

#[test]
fn subfolders_alone_are_peers() {
    let manager = FileManager::new("/data/home", "index.md");
    let peers = manager.find_peers_in_folder(&vec![found("sub", "a.md")], None).unwrap();
    assert!(peers.files.is_empty());
    assert_eq!(names(&peers.folders), vec!["sub"]);
}

#[test]
fn links_sort_by_name_ignoring_case() {
    let links = vec![named("b"), named("C"), named("a"), named("B"), named("index")];
    let sorted = sort_links(links, Some("index.md"));
    assert_eq!(names(&sorted), vec!["index", "a", "B", "b", "C"]);
    let sorted = sort_links(vec![named("b"), named("index"), named("a")], None);
    assert_eq!(names(&sorted), vec!["a", "b", "index"]);
    assert!(sort_links(Vec::new(), None).is_empty());
}

#[test]
fn folders_sort_by_name_as_it_stands() {
    let manager = FileManager::new("/data/home", "index.md");
    let entries = vec![found("a", "x.md"), found("B", "y.md"), found("b", "z.md")];
    let peers = manager.find_peers_in_folder(&entries, None).unwrap();
    assert_eq!(names(&peers.folders), vec!["B", "a", "b"]);
    let sorted = sort_links(vec![named("a"), named("B"), named("index")], None);
    assert_eq!(names(&sorted), vec!["B", "a", "index"]);
}

#[test]
fn files_sort_by_name_ignoring_case() {
    let manager = FileManager::new("/data/home", "index.md");
    let entries = vec![found("", "b.md"), found("", "B.md"), found("", "a.md"), found("", "C.md")];
    let peers = manager.find_peers_in_folder(&entries, None).unwrap();
    assert_eq!(names(&peers.files), vec!["a", "B", "b", "C"]);
}

#[test]
fn peer_info_sorts_both_lists() {
    let mut peers = PeerInfo {
        folders: vec![named("y"), named("x")],
        files: vec![named("z"), named("index"), named("a")],
    };
    peers.sort("index.md");
    assert_eq!(names(&peers.files), vec!["index", "a", "z"]);
    assert_eq!(names(&peers.folders), vec!["x", "y"]);
}

#[test]
fn markdown_files_of_the_tree() {
    let manager = FileManager::new("/data/home", "index.md");
    let files = vec![
        "/data/home/a.md".to_string(),
        "/data/home/b.txt".to_string(),
        "/data/home/sub/c.MD".to_string(),
        "/data/home/md".to_string(),
        "/data/home/dir.md/file".to_string(),
    ];
    assert_eq!(
        manager.get_markdown_files(&files),
        vec!["/data/home/a.md".to_string(), "/data/home/sub/c.MD".to_string()]
    );
}

#[test]
fn files_by_extension() {
    let manager = FileManager::new("/data/home", "index.md");
    let entries = vec![found("", "a.html"), found("", "b.HTML"), found("x", "c.html")];
    let exact = manager.find_files(&entries, "html", false);
    assert_eq!(exact.len(), 2);
    assert_eq!(exact[1].file_name, "c.html");
    let any_case = manager.find_files(&entries, "html", true);
    assert_eq!(any_case.len(), 3);
}

#[test]
fn extensions() {
    assert!(has_extension("a/b/c.md", "md"));
    assert!(has_extension("c.MD", "md"));
    assert!(has_extension("c.tar.gz", "GZ"));
    assert!(!has_extension("c.md.bak", "md"));
    assert!(!has_extension(".md", "md"));
    assert!(!has_extension("md", "md"));
    assert!(!has_extension("a.md/b", "md"));
    assert!(!has_extension("", "md"));
    assert!(has_extension("a.", ""));
    assert!(has_exact_extension("a.md", "md"));
    assert!(!has_exact_extension("a.Md", "md"));
}

#[test]
fn file_names_and_stems() {
    assert_eq!(file_name("a/b/c.md"), "c.md");
    assert_eq!(file_name("c.md"), "c.md");
    assert_eq!(file_name("a/"), "");
    assert_eq!(file_stem("a/b/c.md"), "c");
    assert_eq!(file_stem("archive.tar.gz"), "archive.tar");
    assert_eq!(file_stem(".hidden"), ".hidden");
    assert_eq!(file_stem("plain"), "plain");
}

#[test]
fn watcher_events_are_flattened() {
    let events = vec![
        WatchEvent { kind: ChangeKind::Created, path: "a".to_string(), paths: vec![] },
        WatchEvent {
            kind: ChangeKind::Modified,
            path: "b".to_string(),
            paths: vec!["b1".to_string(), "b2".to_string()],
        },
        WatchEvent { kind: ChangeKind::Other, path: "c".to_string(), paths: vec!["c".to_string()] },
        WatchEvent { kind: ChangeKind::Removed, path: "d".to_string(), paths: vec![] },
    ];
    assert_eq!(directory_watcher(&events), vec!["a", "b1", "b2", "d"]);
    assert!(directory_watcher(&Vec::new()).is_empty());
}
