//! Bounded, insertion-ordered cache of rendered pages.

use crate::cache_info::FileTime;
use crate::text::{extension_of, has_exact_extension};
use indexmap::IndexMap;
use vstd::prelude::*;
use vstd::string::StringExecFns;

verus! {

/// One rendered page: the modification time of its source when it was
/// rendered, the HTML, and the number of the insertion that stored it.
#[derive(Debug)]
pub struct CachedPage {
    pub modtime: FileTime,
    pub html: String,
    pub inserted_at: u64,
}

/// Mathematical value of a [`CachedPage`].
pub struct CachedPageView {
    pub modtime: FileTime,
    pub html: Seq<char>,
    pub inserted_at: u64,
}

impl View for CachedPage {
    type V = CachedPageView;

    open spec fn view(&self) -> CachedPageView {
        CachedPageView { modtime: self.modtime, html: self.html@, inserted_at: self.inserted_at }
    }
}

/// One entry of the cache: request path and page.
pub struct CacheEntry {
    pub path: Seq<char>,
    pub page: CachedPageView,
}

/// What the compactor is asked to do.
#[derive(Debug, Clone, Copy, PartialEq, Eq, Structural)]
pub enum CacheAction {
    /// Drop the oldest entries until the cache fits its budget.
    Compact,
    /// Drop everything.
    Clean,
}

/// The entries of a page map, oldest insertion first.
pub uninterp spec fn cache_entries(m: IndexMap<String, CachedPage>) -> Seq<CacheEntry>;

/// Position of the first entry for `path`.
pub open spec fn entry_index(entries: Seq<CacheEntry>, path: Seq<char>) -> Option<int>
    decreases entries.len(),
{
    if entries.len() == 0 {
        None
    } else {
        match entry_index(entries.drop_last(), path) {
            Some(i) => Some(i),
            None => if entries.last().path == path {
                Some(entries.len() - 1)
            } else {
                None
            },
        }
    }
}

/// The entries after storing `page` under `path`: an entry for the path keeps
/// its place and takes the new page, a new path goes to the end.
pub open spec fn entries_with(entries: Seq<CacheEntry>, path: Seq<char>, page: CachedPageView) -> Seq<
    CacheEntry,
> {
    match entry_index(entries, path) {
        Some(i) => entries.update(i, CacheEntry { path, page }),
        None => entries.push(CacheEntry { path, page }),
    }
}

/// The page stored under `path`.
pub open spec fn entry_for(entries: Seq<CacheEntry>, path: Seq<char>) -> Option<CachedPageView> {
    match entry_index(entries, path) {
        Some(i) => Some(entries[i].page),
        None => None,
    }
}

/// The view of an optional page.
pub open spec fn opt_page_view(p: Option<CachedPage>) -> Option<CachedPageView> {
    match p {
        Some(x) => Some(x@),
        None => None,
    }
}

/// The view of an optional reference to a page.
pub open spec fn opt_page_ref_view(p: Option<&CachedPage>) -> Option<CachedPageView> {
    match p {
        Some(x) => Some(x@),
        None => None,
    }
}

/// An empty page map.
///
/// Trusted: `IndexMap::new` creates a map without entries.
#[verifier::external_body]
fn map_new() -> (r: IndexMap<String, CachedPage>)
    ensures
        cache_entries(r) == Seq::<CacheEntry>::empty(),
{
    IndexMap::new()
}

/// Stores `page` under `path` and returns the page that the path held.
///
/// Trusted: `IndexMap::insert` keeps an equivalent key in its place and
/// replaces its value, returning the older one; a new key goes last in order
/// and `None` is returned.
#[verifier::external_body]
fn map_insert(m: &mut IndexMap<String, CachedPage>, path: String, page: CachedPage) -> (r: Option<
    CachedPage,
>)
    ensures
        cache_entries(*final(m)) == entries_with(cache_entries(*old(m)), path@, page@),
        opt_page_view(r) == entry_for(cache_entries(*old(m)), path@),
{
    m.insert(path, page)
}

/// The page stored under `path`.
///
/// Trusted: `IndexMap::get` returns the value of an equivalent key, or `None`
/// when the map holds none.
#[verifier::external_body]
fn map_get<'a>(m: &'a IndexMap<String, CachedPage>, path: &str) -> (r: Option<&'a CachedPage>)
    ensures
        opt_page_ref_view(r) == entry_for(cache_entries(*m), path@),
{
    m.get(path)
}

/// Removes every entry.
///
/// Trusted: `IndexMap::clear` removes all key-value pairs.
#[verifier::external_body]
fn map_clear(m: &mut IndexMap<String, CachedPage>)
    ensures
        cache_entries(*final(m)) == Seq::<CacheEntry>::empty(),
{
    m.clear()
}

/// Number of entries.
///
/// Trusted: `IndexMap::len` returns the number of key-value pairs.
#[verifier::external_body]
fn map_len(m: &IndexMap<String, CachedPage>) -> (r: usize)
    ensures
        r == cache_entries(*m).len(),
{
    m.len()
}

/// The page at position `index` in insertion order.
///
/// Trusted: `IndexMap::get_index` returns the pair at a valid index and
/// `None` for an index at or beyond the length.
#[verifier::external_body]
fn map_get_index<'a>(m: &'a IndexMap<String, CachedPage>, index: usize) -> (r: Option<
    &'a CachedPage,
>)
    ensures
        opt_page_ref_view(r) == if index < cache_entries(*m).len() {
            Some(cache_entries(*m)[index as int].page)
        } else {
            None
        },
{
    m.get_index(index).map(|(_, page)| page)
}

/// Splits the map at `at`: the map keeps the entries before it, the result
/// holds those from it on.
///
/// Trusted: `IndexMap::split_off` returns the elements in the range
/// `[at, len)` and leaves `[0, at)`; it panics when `at` is beyond the length,
/// which the precondition rules out.
#[verifier::external_body]
fn map_split_off(m: &mut IndexMap<String, CachedPage>, at: usize) -> (r: IndexMap<String, CachedPage>)
    requires
        at <= cache_entries(*old(m)).len(),
    ensures
        cache_entries(*final(m)) == cache_entries(*old(m)).subrange(0, at as int),
        cache_entries(r) == cache_entries(*old(m)).subrange(
            at as int,
            cache_entries(*old(m)).len() as int,
        ),
{
    m.split_off(at)
}

/// Size of a page in bytes: the length of its HTML in UTF-8.
pub open spec fn html_size(html: Seq<char>) -> usize {
    vstd::utf8::encode_utf8(html).len() as usize
}

/// Summed size of the pages of `entries`.
pub open spec fn total_size(entries: Seq<CacheEntry>) -> int
    decreases entries.len(),
{
    if entries.len() == 0 {
        0
    } else {
        total_size(entries.drop_last()) + html_size(entries.last().page.html)
    }
}

/// No path occurs twice.
pub open spec fn distinct_paths(entries: Seq<CacheEntry>) -> bool {
    forall|i: int, j: int| 0 <= i < j < entries.len() ==> entries[i].path != entries[j].path
}

/// What [`entry_index`] returns: the first position of the path, if it has
/// one.
pub proof fn lemma_entry_index(entries: Seq<CacheEntry>, path: Seq<char>)
    ensures
        match entry_index(entries, path) {
            Some(i) => 0 <= i < entries.len() && entries[i].path == path && forall|j: int|
                0 <= j < i ==> entries[j].path != path,
            None => forall|j: int| 0 <= j < entries.len() ==> entries[j].path != path,
        },
    decreases entries.len(),
{
    if entries.len() > 0 {
        lemma_entry_index(entries.drop_last(), path);
        match entry_index(entries.drop_last(), path) {
            Some(i) => {
                assert(entries.drop_last()[i] == entries[i]);
                assert forall|j: int| 0 <= j < i implies entries[j].path != path by {
                    assert(entries.drop_last()[j] == entries[j]);
                }
            },
            None => {
                assert forall|j: int| 0 <= j < entries.len() - 1 implies entries[j].path
                    != path by {
                    assert(entries.drop_last()[j] == entries[j]);
                }
            },
        }
    }
}

/// The size of a concatenation is the sum of the sizes.
pub proof fn lemma_total_size_concat(a: Seq<CacheEntry>, b: Seq<CacheEntry>)
    ensures
        total_size(a + b) == total_size(a) + total_size(b),
    decreases b.len(),
{
    if b.len() == 0 {
        assert(a + b =~= a);
    } else {
        lemma_total_size_concat(a, b.drop_last());
        assert((a + b).drop_last() =~= a + b.drop_last());
        assert((a + b).last() == b.last());
    }
}

/// The size of a single entry is the size of its page.
pub proof fn lemma_total_size_single(e: CacheEntry)
    ensures
        total_size(seq![e]) == html_size(e.page.html),
{
    assert(seq![e].drop_last() =~= Seq::<CacheEntry>::empty());
    assert(total_size(Seq::<CacheEntry>::empty()) == 0);
    assert(seq![e].last() == e);
}

/// Sizes are never negative.
pub proof fn lemma_total_size_nonnegative(a: Seq<CacheEntry>)
    ensures
        total_size(a) >= 0,
    decreases a.len(),
{
    if a.len() > 0 {
        lemma_total_size_nonnegative(a.drop_last());
    }
}

/// Splitting the entries at `n` splits the size.
pub proof fn lemma_total_size_split(a: Seq<CacheEntry>, n: int)
    requires
        0 <= n <= a.len(),
    ensures
        total_size(a) == total_size(a.subrange(0, n)) + total_size(a.subrange(n, a.len() as int)),
        total_size(a.subrange(0, n)) >= 0,
        total_size(a.subrange(n, a.len() as int)) >= 0,
{
    assert(a =~= a.subrange(0, n) + a.subrange(n, a.len() as int));
    lemma_total_size_concat(a.subrange(0, n), a.subrange(n, a.len() as int));
    lemma_total_size_nonnegative(a.subrange(0, n));
    lemma_total_size_nonnegative(a.subrange(n, a.len() as int));
}

/// Storing a page changes the size by the difference between the new page
/// and the one it replaces, and keeps the paths distinct.
pub proof fn lemma_entries_with(entries: Seq<CacheEntry>, path: Seq<char>, page: CachedPageView)
    requires
        distinct_paths(entries),
    ensures
        distinct_paths(entries_with(entries, path, page)),
        total_size(entries_with(entries, path, page)) == total_size(entries) + html_size(page.html)
            - match entry_for(entries, path) {
            Some(p) => html_size(p.html) as int,
            None => 0,
        },
        entry_for(entries_with(entries, path, page), path) == Some(page),
        forall|other: Seq<char>|
            other != path ==> entry_for(entries_with(entries, path, page), other) == entry_for(
                entries,
                other,
            ),
{
    lemma_entry_index(entries, path);
    let after = entries_with(entries, path, page);
    let e = CacheEntry { path, page };
    match entry_index(entries, path) {
        Some(i) => {
            assert(after =~= entries.subrange(0, i) + seq![e] + entries.subrange(
                i + 1,
                entries.len() as int,
            ));
            assert(entries =~= entries.subrange(0, i) + seq![entries[i]] + entries.subrange(
                i + 1,
                entries.len() as int,
            ));
            lemma_total_size_concat(entries.subrange(0, i), seq![e]);
            lemma_total_size_concat(
                entries.subrange(0, i) + seq![e],
                entries.subrange(i + 1, entries.len() as int),
            );
            lemma_total_size_concat(entries.subrange(0, i), seq![entries[i]]);
            lemma_total_size_concat(
                entries.subrange(0, i) + seq![entries[i]],
                entries.subrange(i + 1, entries.len() as int),
            );
            lemma_total_size_single(e);
            lemma_total_size_single(entries[i]);
            assert forall|a: int, b: int| 0 <= a < b < after.len() implies after[a].path
                != after[b].path by {
                assert(entries[a].path != entries[b].path);
            }
        },
        None => {
            assert(after.drop_last() =~= entries);
            assert forall|a: int, b: int| 0 <= a < b < after.len() implies after[a].path
                != after[b].path by {
                if b < entries.len() {
                    assert(entries[a].path != entries[b].path);
                }
            }
        },
    }
    lemma_entry_index(after, path);
    match entry_index(after, path) {
        Some(k) => {
            match entry_index(entries, path) {
                Some(i) => {
                    if k != i {
                        if k < i {
                            assert(after[k].path == entries[k].path);
                        } else {
                            assert(after[i].path == path);
                        }
                    }
                },
                None => {
                    if k < entries.len() {
                        assert(after[k].path == entries[k].path);
                    }
                },
            }
        },
        None => {
            match entry_index(entries, path) {
                Some(i) => {
                    assert(after[i].path == path);
                },
                None => {
                    assert(after[after.len() - 1].path == path);
                },
            }
        },
    }
    assert forall|other: Seq<char>| other != path implies entry_for(after, other) == entry_for(
        entries,
        other,
    ) by {
        lemma_entry_index(entries, other);
        lemma_entry_index(after, other);
        match entry_index(entries, other) {
            Some(i) => {
                assert(after[i].path == other);
                match entry_index(after, other) {
                    Some(k) => {
                        if k < i {
                            assert(after[k].path == entries[k].path || after[k].path == path);
                        } else if k > i {
                        }
                    },
                    None => {},
                }
            },
            None => {
                match entry_index(after, other) {
                    Some(k) => {
                        if k < entries.len() {
                            assert(after[k].path == entries[k].path || after[k].path == path);
                        }
                    },
                    None => {},
                }
            },
        }
    }
}

/// Where compaction cuts, scanning on from `n`: behind the first entry with
/// which the summed size of the entries so far exceeds `target`, or at the end
/// when it never does.
pub open spec fn cut_index(entries: Seq<CacheEntry>, target: int, n: int) -> int
    decreases entries.len() - n,
{
    if n < 0 || n >= entries.len() {
        entries.len() as int
    } else if total_size(entries.subrange(0, n + 1)) > target {
        n + 1
    } else {
        cut_index(entries, target, n + 1)
    }
}

/// The entries that compaction keeps under a budget of `max_size` bytes: all
/// of them when they fit, else those behind the cut for the excess.
pub open spec fn compacted(entries: Seq<CacheEntry>, max_size: usize) -> Seq<CacheEntry> {
    if total_size(entries) <= max_size {
        entries
    } else {
        entries.subrange(
            cut_index(entries, total_size(entries) - max_size, 0),
            entries.len() as int,
        )
    }
}

/// The cut lies in range; what is cut off exceeds the target unless
/// everything is cut off; and no shorter cut exceeds the target.
pub proof fn lemma_cut_index(entries: Seq<CacheEntry>, target: int, n: int)
    requires
        0 <= n <= entries.len(),
        total_size(entries.subrange(0, n)) <= target,
    ensures
        n <= cut_index(entries, target, n) <= entries.len(),
        total_size(entries.subrange(0, cut_index(entries, target, n))) > target || cut_index(
            entries,
            target,
            n,
        ) == entries.len(),
        forall|m: int|
            0 <= m < cut_index(entries, target, n) ==> total_size(#[trigger] entries.subrange(0, m))
                <= target,
    decreases entries.len() - n,
{
    assert forall|m: int| 0 <= m <= n implies total_size(#[trigger] entries.subrange(0, m))
        <= target by {
        assert(entries.subrange(0, n).subrange(0, m) =~= entries.subrange(0, m));
        lemma_total_size_split(entries.subrange(0, n), m);
    }
    if n < entries.len() {
        if total_size(entries.subrange(0, n + 1)) <= target {
            lemma_cut_index(entries, target, n + 1);
        }
    }
}

/// After compaction the cache fits its budget.
pub proof fn lemma_compacted_fits(entries: Seq<CacheEntry>, max_size: usize)
    ensures
        0 <= total_size(compacted(entries, max_size)) <= max_size,
{
    lemma_total_size_nonnegative(compacted(entries, max_size));
    if total_size(entries) > max_size {
        let target = total_size(entries) - max_size;
        assert(total_size(entries.subrange(0, 0)) == 0) by {
            assert(entries.subrange(0, 0) =~= Seq::<CacheEntry>::empty());
        }
        lemma_cut_index(entries, target, 0);
        let cut = cut_index(entries, target, 0);
        lemma_total_size_split(entries, cut);
        if cut == entries.len() {
            assert(entries.subrange(cut, entries.len() as int) =~= Seq::<CacheEntry>::empty());
        }
    }
}

/// Compaction drops no more than it must: dropping fewer of the oldest
/// entries would leave the cache at or above its budget.
pub proof fn lemma_compacted_minimal(entries: Seq<CacheEntry>, max_size: usize, m: int)
    requires
        total_size(entries) > max_size,
        0 <= m < entries.len() - compacted(entries, max_size).len(),
    ensures
        total_size(entries.subrange(m, entries.len() as int)) >= max_size,
{
    let target = total_size(entries) - max_size;
    assert(total_size(entries.subrange(0, 0)) == 0) by {
        assert(entries.subrange(0, 0) =~= Seq::<CacheEntry>::empty());
    }
    lemma_cut_index(entries, target, 0);
    lemma_total_size_split(entries, m);
}

/// Compaction keeps the paths distinct.
proof fn lemma_compacted_distinct(entries: Seq<CacheEntry>, max_size: usize)
    requires
        distinct_paths(entries),
    ensures
        distinct_paths(compacted(entries, max_size)),
{
    let after = compacted(entries, max_size);
    if total_size(entries) > max_size {
        let target = total_size(entries) - max_size;
        assert(total_size(entries.subrange(0, 0)) == 0) by {
            assert(entries.subrange(0, 0) =~= Seq::<CacheEntry>::empty());
        }
        lemma_cut_index(entries, target, 0);
        let cut = cut_index(entries, target, 0);
        assert forall|a: int, b: int| 0 <= a < b < after.len() implies after[a].path
            != after[b].path by {
            assert(entries[cut + a].path != entries[cut + b].path);
        }
    }
}

/// What a lookup finds.
pub enum Lookup {
    /// A page rendered from the source as it is now.
    Hit(Seq<char>),
    /// A page rendered from an older state of the source.
    Stale,
    /// No page.
    Miss,
}

/// What a lookup of `path` finds when its source was last modified at
/// `modtime`.
pub open spec fn lookup(entries: Seq<CacheEntry>, path: Seq<char>, modtime: FileTime) -> Lookup {
    match entry_for(entries, path) {
        Some(p) => if p.modtime == modtime {
            Lookup::Hit(p.html)
        } else {
            Lookup::Stale
        },
        None => Lookup::Miss,
    }
}

/// Whether a change of `path` invalidates the cache: documents and templates
/// do.
pub open spec fn invalidates(path: Seq<char>) -> bool {
    extension_of(path) == Some("md"@) || extension_of(path) == Some("html"@)
}

/// The entries after a change event for `path`.
pub open spec fn entries_after_change(entries: Seq<CacheEntry>, path: Seq<char>) -> Seq<CacheEntry> {
    if invalidates(path) {
        Seq::empty()
    } else {
        entries
    }
}

/// What is stored under a path is what a lookup of that path finds.
pub proof fn lemma_stored_is_found(entries: Seq<CacheEntry>, path: Seq<char>, page: CachedPageView)
    ensures
        entry_for(entries_with(entries, path, page), path) == Some(page),
{
    lemma_entry_index(entries, path);
    let after = entries_with(entries, path, page);
    lemma_entry_index(after, path);
    match entry_index(entries, path) {
        Some(i) => {
            assert(after[i].path == path);
            match entry_index(after, path) {
                Some(k) => {
                    if k < i {
                        assert(after[k] == entries[k]);
                    }
                },
                None => {},
            }
        },
        None => {
            assert(after[after.len() - 1].path == path);
            match entry_index(after, path) {
                Some(k) => {
                    if k < entries.len() {
                        assert(after[k] == entries[k]);
                    }
                },
                None => {},
            }
        },
    }
}

/// A page that was added is found again, byte for byte, as long as the
/// modification time of its source is unchanged.
pub proof fn lemma_add_then_get(
    entries: Seq<CacheEntry>,
    path: Seq<char>,
    modtime: FileTime,
    html: Seq<char>,
    inserted_at: u64,
)
    ensures
        lookup(
            entries_with(entries, path, CachedPageView { modtime, html, inserted_at }),
            path,
            modtime,
        ) == Lookup::Hit(html),
{
    lemma_stored_is_found(entries, path, CachedPageView { modtime, html, inserted_at });
}

/// A page whose source has changed since it was added is not handed out.
pub proof fn lemma_add_then_get_stale(
    entries: Seq<CacheEntry>,
    path: Seq<char>,
    modtime: FileTime,
    html: Seq<char>,
    inserted_at: u64,
    now: FileTime,
)
    requires
        now != modtime,
    ensures
        lookup(
            entries_with(entries, path, CachedPageView { modtime, html, inserted_at }),
            path,
            now,
        ) == Lookup::Stale,
{
    lemma_stored_is_found(entries, path, CachedPageView { modtime, html, inserted_at });
}

/// After a change event for a document or a template, every lookup misses.
pub proof fn lemma_change_then_get(
    entries: Seq<CacheEntry>,
    changed: Seq<char>,
    path: Seq<char>,
    modtime: FileTime,
)
    requires
        invalidates(changed),
    ensures
        lookup(entries_after_change(entries, changed), path, modtime) == Lookup::Miss,
{
}

/// Mathematical value of a [`ResultCache`].
pub struct CacheView {
    pub entries: Seq<CacheEntry>,
    pub max_size: usize,
    pub next_seq: u64,
}

/// Rendered pages by request path, oldest insertion first, with the summed
/// size of their HTML and the budget it is held against.
pub struct ResultCache {
    cache: IndexMap<String, CachedPage>,
    current_size: usize,
    max_size: usize,
    next_seq: u64,
}

impl View for ResultCache {
    type V = CacheView;

    closed spec fn view(&self) -> CacheView {
        CacheView {
            entries: cache_entries(self.cache),
            max_size: self.max_size,
            next_seq: self.next_seq,
        }
    }
}

impl ResultCache {
    /// Representation invariant: no path is stored twice, and the size
    /// counter is the summed size of the stored pages.
    pub closed spec fn wf(&self) -> bool {
        &&& distinct_paths(cache_entries(self.cache))
        &&& self.current_size == total_size(cache_entries(self.cache))
    }

    /// What the representation invariant says of the view: no path is stored
    /// twice.
    pub proof fn lemma_wf(&self)
        requires
            self.wf(),
        ensures
            distinct_paths(self@.entries),
            0 <= total_size(self@.entries) <= usize::MAX,
    {
    }

    /// The page that `add` stores for the given source time and HTML.
    pub open spec fn new_page(&self, modtime: FileTime, html: Seq<char>) -> CachedPageView {
        CachedPageView { modtime, html, inserted_at: self@.next_seq }
    }

    /// Whether the size counter can take the page without overflowing.
    pub open spec fn has_room(&self, path: Seq<char>, html: Seq<char>) -> bool {
        total_size(
            entries_with(self@.entries, path, self.new_page(FileTime::epoch(), html)),
        ) <= usize::MAX
    }

    /// An empty cache with a budget of `max_size` bytes.
    pub fn new(max_size: usize) -> (r: Self)
        ensures
            r.wf(),
            r@ == (CacheView { entries: Seq::empty(), max_size, next_seq: 0 }),
    {
        ResultCache { cache: map_new(), current_size: 0, max_size, next_seq: 0 }
    }

    /// Stores the page rendered for `path`, replacing an earlier one, and
    /// asks for compaction when the cache has outgrown its budget.
    pub fn add(&mut self, path: &str, modtime: FileTime, html: &str) -> (r: Option<CacheAction>)
        requires
            old(self).wf(),
            old(self).has_room(path@, html@),
        ensures
            final(self).wf(),
            final(self)@.entries == entries_with(
                old(self)@.entries,
                path@,
                old(self).new_page(modtime, html@),
            ),
            final(self)@.max_size == old(self)@.max_size,
            final(self)@.next_seq == if old(self)@.next_seq < u64::MAX {
                (old(self)@.next_seq + 1) as u64
            } else {
                old(self)@.next_seq
            },
            r == if total_size(final(self)@.entries) > final(self)@.max_size {
                Some(CacheAction::Compact)
            } else {
                None
            },
    {
        let ghost before = cache_entries(self.cache);
        let ghost room_page = self.new_page(FileTime::epoch(), html@);
        let page = CachedPage {
            modtime,
            html: String::from_str(html),
            inserted_at: self.next_seq,
        };
        proof {
            lemma_entries_with(before, path@, page@);
            lemma_entries_with(before, path@, room_page);
            lemma_total_size_nonnegative(before);
        }
        let size = html.len();
        let prev = map_insert(&mut self.cache, String::from_str(path), page);
        match prev {
            Some(p) => {
                proof {
                    lemma_entry_index(before, path@);
                    let i = entry_index(before, path@)->0;
                    lemma_total_size_split(before, i);
                    lemma_total_size_split(before.subrange(i, before.len() as int), 1);
                    assert(before.subrange(i, before.len() as int).subrange(0, 1) =~= seq![
                        before[i],
                    ]);
                    lemma_total_size_single(before[i]);
                }
                self.current_size = self.current_size - p.html.as_str().len();
            },
            None => {},
        }
        self.current_size = self.current_size + size;
        if self.next_seq < u64::MAX {
            self.next_seq = self.next_seq + 1;
        }
        if self.current_size > self.max_size {
            Some(CacheAction::Compact)
        } else {
            None
        }
    }

    /// Stores the page like [`ResultCache::add`] if the size counter can take
    /// it, and leaves the cache as it is, returning `None`, if it cannot.
    pub fn try_add(&mut self, path: &str, modtime: FileTime, html: &str) -> (r: Option<
        Option<CacheAction>,
    >)
        requires
            old(self).wf(),
        ensures
            final(self).wf(),
            old(self).has_room(path@, html@) ==> r is Some && final(self)@.entries == entries_with(
                old(self)@.entries,
                path@,
                old(self).new_page(modtime, html@),
            ) && final(self)@.max_size == old(self)@.max_size && r->0 == (if total_size(
                final(self)@.entries,
            ) > final(self)@.max_size {
                Some(CacheAction::Compact)
            } else {
                None
            }),
            !old(self).has_room(path@, html@) ==> r is None && final(self)@ == old(self)@,
    {
        let ghost before = cache_entries(self.cache);
        let ghost room_page = self.new_page(FileTime::epoch(), html@);
        proof {
            lemma_entries_with(before, path@, room_page);
            lemma_total_size_nonnegative(before);
        }
        let prev_size = match map_get(&self.cache, path) {
            Some(p) => {
                proof {
                    lemma_entry_index(before, path@);
                    let i = entry_index(before, path@)->0;
                    lemma_total_size_split(before, i);
                    lemma_total_size_split(before.subrange(i, before.len() as int), 1);
                    assert(before.subrange(i, before.len() as int).subrange(0, 1) =~= seq![
                        before[i],
                    ]);
                    lemma_total_size_single(before[i]);
                }
                p.html.as_str().len()
            },
            None => 0,
        };
        if html.len() <= usize::MAX - (self.current_size - prev_size) {
            Some(self.add(path, modtime, html))
        } else {
            None
        }
    }

    /// Looks `path` up. A page is handed out only if its source still has
    /// the modification time it was rendered from; a stale page gives a miss
    /// and asks for the cache to be wiped.
    pub fn get(&self, path: &str, modtime: FileTime) -> (r: (Option<String>, Option<CacheAction>))
        ensures
            match lookup(self@.entries, path@, modtime) {
                Lookup::Hit(html) => r.0 is Some && r.0->0@ == html && r.1 is None,
                Lookup::Stale => r.0 is None && r.1 == Some(CacheAction::Clean),
                Lookup::Miss => r.0 is None && r.1 is None,
            },
    {
        match map_get(&self.cache, path) {
            Some(page) => {
                if page.modtime == modtime {
                    (Some(page.html.clone()), None)
                } else {
                    (None, Some(CacheAction::Clean))
                }
            },
            None => (None, None),
        }
    }

    /// The summed size of the stored pages, in bytes.
    pub fn get_size(&self) -> (r: usize)
        requires
            self.wf(),
        ensures
            r == total_size(self@.entries),
    {
        self.current_size
    }

    /// Drops all entries.
    pub fn clear(&mut self)
        ensures
            final(self).wf(),
            final(self)@ == (CacheView { entries: Seq::empty(), ..old(self)@ }),
    {
        map_clear(&mut self.cache);
        self.current_size = 0;
    }

    /// Drops the oldest entries until the cache fits its budget: see
    /// [`compacted`].
    pub fn compact(&mut self)
        requires
            old(self).wf(),
        ensures
            final(self).wf(),
            final(self)@ == (CacheView {
                entries: compacted(old(self)@.entries, old(self)@.max_size),
                ..old(self)@
            }),
            total_size(final(self)@.entries) <= final(self)@.max_size,
    {
        let ghost entries = cache_entries(self.cache);
        proof {
            lemma_compacted_fits(entries, self.max_size);
            lemma_compacted_distinct(entries, self.max_size);
        }
        if self.current_size <= self.max_size {
            return;
        }
        let target_trim_size = self.current_size - self.max_size;
        let len = map_len(&self.cache);
        let mut prune_size: usize = 0;
        let mut split_index: usize = 0;
        proof {
            assert(entries.subrange(0, 0) =~= Seq::<CacheEntry>::empty());
        }
        while split_index < len && prune_size <= target_trim_size
            invariant
                self.wf(),
                entries == cache_entries(self.cache),
                len == entries.len(),
                split_index <= len,
                target_trim_size == total_size(entries) - self.max_size,
                prune_size == total_size(entries.subrange(0, split_index as int)),
                prune_size <= target_trim_size ==> cut_index(entries, target_trim_size as int, 0)
                    == cut_index(entries, target_trim_size as int, split_index as int),
                prune_size > target_trim_size ==> split_index == cut_index(
                    entries,
                    target_trim_size as int,
                    0,
                ),
            decreases len - split_index,
        {
            let page = map_get_index(&self.cache, split_index);
            proof {
                assert(entries.subrange(0, split_index + 1).drop_last() =~= entries.subrange(
                    0,
                    split_index as int,
                ));
                assert(entries.subrange(0, split_index + 1).last() == entries[split_index as int]);
                lemma_total_size_split(entries, split_index + 1);
            }
            match page {
                Some(p) => {
                    prune_size = prune_size + p.html.as_str().len();
                },
                None => {},
            }
            split_index = split_index + 1;
        }
        proof {
            lemma_total_size_split(entries, split_index as int);
        }
        let rest = map_split_off(&mut self.cache, split_index);
        self.cache = rest;
        self.current_size = self.current_size - prune_size;
    }

    /// Takes a change of the file at `path` into account: a changed document
    /// or template wipes the cache, since any page may depend on it.
    pub fn listen_for_changes(&mut self, path: &str)
        requires
            old(self).wf(),
        ensures
            final(self).wf(),
            final(self)@ == (CacheView {
                entries: entries_after_change(old(self)@.entries, path@),
                ..old(self)@
            }),
    {
        if has_exact_extension(path, "md") || has_exact_extension(path, "html") {
            self.clear();
        }
    }
}

/// Carries out one request to the compactor.
pub fn cache_compactor(cache: &mut ResultCache, signal: CacheAction)
    requires
        old(cache).wf(),
    ensures
        final(cache).wf(),
        final(cache)@ == (CacheView {
            entries: match signal {
                CacheAction::Compact => compacted(old(cache)@.entries, old(cache)@.max_size),
                CacheAction::Clean => Seq::empty(),
            },
            ..old(cache)@
        }),
        total_size(final(cache)@.entries) <= final(cache)@.max_size,
{
    match signal {
        CacheAction::Compact => {
            cache.compact();
        },
        CacheAction::Clean => {
            cache.clear();
            assert(total_size(Seq::<CacheEntry>::empty()) == 0);
        },
    }
}

} // verus!
