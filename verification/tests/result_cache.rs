use chimera_md::cache_info::{get_modtime, FileTime, Modtimes};
use chimera_md::result_cache::{cache_compactor, CacheAction, ResultCache};

fn at(secs: u64) -> FileTime {
    FileTime { secs, nanos: 0 }
}

#[test]
fn test_compact() {
    let mut cache = ResultCache::new(450);
    let epoch = FileTime::unix_epoch();
    assert_eq!(cache.add("a", epoch, "a".repeat(100).as_str()), None);
    assert_eq!(cache.get_size(), 100);
    assert_eq!(cache.add("a", epoch, "a".repeat(100).as_str()), None);
    assert_eq!(cache.get_size(), 100);
    assert_eq!(cache.add("b", epoch, "b".repeat(100).as_str()), None);
    assert_eq!(cache.get_size(), 200);
    assert_eq!(cache.add("c", epoch, "c".repeat(100).as_str()), None);
    assert_eq!(cache.get_size(), 300);
    assert_eq!(cache.add("d", epoch, "d".repeat(100).as_str()), None);
    assert_eq!(cache.get_size(), 400);
    let signal = cache.add("e", epoch, "e".repeat(100).as_str());
    assert_eq!(cache.get_size(), 500);
    assert_eq!(signal, Some(CacheAction::Compact));
    cache_compactor(&mut cache, CacheAction::Compact);
    assert_eq!(cache.get_size(), 400);
    assert_eq!(cache.get("a", epoch), (None, None));
    assert_eq!(cache.get("b", epoch).0, Some("b".repeat(100)));
    assert_eq!(cache.get("e", epoch).0, Some("e".repeat(100)));
}

#[test]
fn add_then_get_returns_the_html() {
    let mut cache = ResultCache::new(1000);
    cache.add("doc.md", at(5), "<p>h\u{e9}llo</p>");
    assert_eq!(cache.get("doc.md", at(5)), (Some("<p>h\u{e9}llo</p>".to_string()), None));
    assert_eq!(cache.get_size(), 13);
}

#[test]
fn stale_entry_misses_and_asks_for_a_wipe() {
    let mut cache = ResultCache::new(1000);
    cache.add("doc.md", at(5), "old");
    assert_eq!(cache.get("doc.md", at(6)), (None, Some(CacheAction::Clean)));
    cache_compactor(&mut cache, CacheAction::Clean);
    assert_eq!(cache.get("doc.md", at(5)), (None, None));
    assert_eq!(cache.get_size(), 0);
}

#[test]
fn unknown_path_misses() {
    let cache = ResultCache::new(10);
    assert_eq!(cache.get("nothing.md", at(1)), (None, None));
    assert_eq!(cache.get_size(), 0);
}

#[test]
fn replacing_keeps_the_place_in_the_order() {
    let mut cache = ResultCache::new(25);
    cache.add("a", at(1), "aaaaaaaaaa");
    cache.add("b", at(1), "bbbbbbbbbb");
    cache.add("a", at(2), "AAAAA");
    assert_eq!(cache.get_size(), 15);
    let signal = cache.add("c", at(1), "cccccccccccc");
    assert_eq!(signal, Some(CacheAction::Compact));
    assert_eq!(cache.get_size(), 27);
    cache.compact();
    assert_eq!(cache.get("a", at(2)), (None, None));
    assert_eq!(cache.get("b", at(1)).0, Some("bbbbbbbbbb".to_string()));
    assert_eq!(cache.get_size(), 22);
}

#[test]
fn compaction_drops_several_entries_if_needed() {
    let mut cache = ResultCache::new(10);
    cache.add("a", at(1), "1234");
    cache.add("b", at(1), "1234");
    cache.add("c", at(1), "1234");
    cache.add("d", at(1), "12345678");
    assert_eq!(cache.get_size(), 20);
    cache.compact();
    assert_eq!(cache.get_size(), 8);
    assert_eq!(cache.get("c", at(1)), (None, None));
    assert_eq!(cache.get("d", at(1)).0, Some("12345678".to_string()));
}

#[test]
fn compaction_with_exact_excess_drops_one_more() {
    let mut cache = ResultCache::new(8);
    cache.add("a", at(1), "1234");
    cache.add("b", at(1), "1234");
    cache.add("c", at(1), "1234");
    cache.compact();
    assert_eq!(cache.get_size(), 4);
}

#[test]
fn compaction_under_budget_changes_nothing() {
    let mut cache = ResultCache::new(100);
    cache.add("a", at(1), "1234");
    cache.compact();
    assert_eq!(cache.get_size(), 4);
    assert_eq!(cache.get("a", at(1)).0, Some("1234".to_string()));
}

#[test]
fn zero_budget_empties_the_cache() {
    let mut cache = ResultCache::new(0);
    assert_eq!(cache.add("a", at(1), "x"), Some(CacheAction::Compact));
    cache.compact();
    assert_eq!(cache.get_size(), 0);
    assert_eq!(cache.get("a", at(1)), (None, None));
}

#[test]
fn page_larger_than_the_budget_is_dropped_by_compaction() {
    let mut cache = ResultCache::new(5);
    cache.add("big", at(1), "0123456789");
    cache.compact();
    assert_eq!(cache.get_size(), 0);
}

#[test]
fn clear_drops_everything() {
    let mut cache = ResultCache::new(100);
    cache.add("a", at(1), "abc");
    cache.clear();
    assert_eq!(cache.get_size(), 0);
    assert_eq!(cache.get("a", at(1)), (None, None));
}

#[test]
fn change_of_a_document_or_template_wipes_the_cache() {
    let mut cache = ResultCache::new(100);
    cache.add("a.md", at(1), "abc");
    cache.listen_for_changes("/data/home/picture.png");
    assert_eq!(cache.get("a.md", at(1)).0, Some("abc".to_string()));
    cache.listen_for_changes("/data/home/other.md");
    assert_eq!(cache.get("a.md", at(1)), (None, None));
    cache.add("a.md", at(1), "abc");
    cache.listen_for_changes("/data/template/markdown.html");
    assert_eq!(cache.get("a.md", at(1)), (None, None));
    assert_eq!(cache.get_size(), 0);
}

#[test]
fn modtimes_fall_back_to_the_epoch() {
    let times = Modtimes::new(None, at(7), Some(at(9)));
    assert_eq!(times.md_modtime, FileTime { secs: 0, nanos: 0 });
    assert_eq!(times.hb_modtime, at(7));
    assert_eq!(times.folder_modtime, at(9));
    assert_eq!(get_modtime(None), FileTime::unix_epoch());
    assert_eq!(get_modtime(Some(at(3))), at(3));
}
