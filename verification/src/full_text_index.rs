//! What the search index needs decided: how highlight ranges are merged and
//! applied to a snippet, what a hit becomes, and which documents the scanner
//! has to index again.

use crate::cache_info::FileTime;
use crate::text::{
    file_name_of, has_exact_extension, matches_at, push_all, push_str_chars, slice_chars,
    starts_with_at, str_chars, str_eq, string_from_chars, string_views,
};
use core::ops::Range;
use vstd::prelude::*;
use vstd::string::StringExecFns;

verus! {

/// Opening of the marker around a highlighted stretch.
pub const HIGHLIGHT_PREFIX: &'static str = "<span class=\"highlight\">";

/// Closing of the marker around a highlighted stretch.
pub const HIGHLIGHT_SUFFIX: &'static str = "</span>";

/// Whether byte position `p` lies in one of the ranges.
pub open spec fn covered(ranges: Seq<Range<usize>>, p: int) -> bool {
    exists|k: int| 0 <= k < ranges.len() && (#[trigger] ranges[k]).start <= p < ranges[k].end
}

/// Whether the ranges are non-empty, in ascending order, and apart: each ends
/// before the next begins.
pub open spec fn disjoint_spans(spans: Seq<Range<usize>>) -> bool {
    &&& forall|k: int| 0 <= k < spans.len() ==> (#[trigger] spans[k]).start < spans[k].end
    &&& forall|j: int, k: int|
        0 <= j < k < spans.len() ==> (#[trigger] spans[j]).end < (#[trigger] spans[k]).start
}

/// Whether the ranges stand in ascending order of their starts.
pub open spec fn sorted_by_start(ranges: Seq<Range<usize>>) -> bool {
    forall|j: int, k: int|
        0 <= j < k < ranges.len() ==> (#[trigger] ranges[j]).start <= (#[trigger] ranges[k]).start
}

/// Orders ranges by their starts.
fn sort_ranges(ranges: &Vec<Range<usize>>) -> (r: Vec<Range<usize>>)
    ensures
        sorted_by_start(r@),
        forall|p: int| covered(r@, p) <==> covered(ranges@, p),
{
    let mut sorted: Vec<Range<usize>> = Vec::new();
    let mut i: usize = 0;
    while i < ranges.len()
        invariant
            i <= ranges.len(),
            sorted_by_start(sorted@),
            forall|p: int| covered(sorted@, p) <==> covered(ranges@.subrange(0, i as int), p),
        decreases ranges.len() - i,
    {
        let start = ranges[i].start;
        let end = ranges[i].end;
        let mut pos: usize = 0;
        while pos < sorted.len() && sorted[pos].start <= start
            invariant
                pos <= sorted@.len(),
                forall|t: int| 0 <= t < pos ==> (#[trigger] sorted@[t]).start <= start,
            decreases sorted@.len() - pos,
        {
            pos += 1;
        }
        let ghost before = sorted@;
        sorted.insert(pos, Range { start, end });
        proof {
            let after = sorted@;
            assert forall|j: int, k: int| 0 <= j < k < after.len() implies (#[trigger] after[j]).start
                <= (#[trigger] after[k]).start by {
                let j0 = if j < pos {
                    j
                } else {
                    j - 1
                };
                let k0 = if k < pos {
                    k
                } else {
                    k - 1
                };
                if j != pos && k != pos {
                    assert(after[j] == before[j0]);
                    assert(after[k] == before[k0]);
                } else if j == pos {
                    assert(after[k] == before[k0]);
                    if k0 > pos {
                        assert(before[pos as int].start <= before[k0].start);
                    }
                } else {
                    assert(after[j] == before[j0]);
                }
            }
            let prefix = ranges@.subrange(0, i as int);
            let prefix1 = ranges@.subrange(0, i + 1);
            assert forall|p: int| covered(after, p) <==> covered(prefix1, p) by {
                if covered(after, p) {
                    let k = choose|k: int|
                        0 <= k < after.len() && (#[trigger] after[k]).start <= p < after[k].end;
                    if k == pos {
                        assert(prefix1[i as int].start <= p < prefix1[i as int].end);
                    } else {
                        let k0 = if k < pos {
                            k
                        } else {
                            k - 1
                        };
                        assert(before[k0] == after[k]);
                        assert(covered(before, p));
                        let m = choose|m: int|
                            0 <= m < prefix.len() && (#[trigger] prefix[m]).start <= p
                                < prefix[m].end;
                        assert(prefix1[m] == prefix[m]);
                    }
                }
                if covered(prefix1, p) {
                    let m = choose|m: int|
                        0 <= m < prefix1.len() && (#[trigger] prefix1[m]).start <= p
                            < prefix1[m].end;
                    if m == i {
                        assert(after[pos as int].start <= p < after[pos as int].end);
                    } else {
                        assert(prefix[m] == prefix1[m]);
                        assert(covered(prefix, p));
                        assert(covered(before, p));
                        let k0 = choose|k0: int|
                            0 <= k0 < before.len() && (#[trigger] before[k0]).start <= p
                                < before[k0].end;
                        let k = if k0 < pos {
                            k0
                        } else {
                            k0 + 1
                        };
                        assert(after[k] == before[k0]);
                    }
                }
            }
        }
        i += 1;
    }
    assert(ranges@.subrange(0, i as int) =~= ranges@);
    sorted
}

/// Merges overlapping and adjacent ranges: the result covers exactly the
/// positions that the given ranges cover, as non-empty spans in ascending
/// order that are apart from each other.
pub fn normalize_ranges(ranges: &Vec<Range<usize>>) -> (r: Vec<Range<usize>>)
    ensures
        disjoint_spans(r@),
        forall|p: int| covered(r@, p) <==> covered(ranges@, p),
{
    let sorted = sort_ranges(ranges);
    let mut results: Vec<Range<usize>> = Vec::new();
    let mut start: usize = 0;
    let mut end: usize = 0;
    let mut i: usize = 0;
    while i < sorted.len()
        invariant
            i <= sorted.len(),
            sorted_by_start(sorted@),
            start <= end,
            disjoint_spans(results@),
            start == end ==> results@.len() == 0,
            forall|k: int| 0 <= k < results@.len() ==> (#[trigger] results@[k]).end < start,
            start < end ==> forall|k: int| i <= k < sorted@.len() ==> start <= (#[trigger] sorted@[k]).start,
            forall|p: int|
                #![trigger covered(results@, p)]
                #![trigger covered(sorted@.subrange(0, i as int), p)]
                (covered(results@, p) || start <= p < end) <==> covered(
                    sorted@.subrange(0, i as int),
                    p,
                ),
        decreases sorted.len() - i,
    {
        let r_start = sorted[i].start;
        let r_end = sorted[i].end;
        let ghost before = results@;
        let ghost old_start = start;
        let ghost old_end = end;
        if r_start < r_end {
            if start == end {
                start = r_start;
                end = r_end;
            } else if r_start > end {
                results.push(Range { start, end });
                start = r_start;
                end = r_end;
            } else if r_end > end {
                end = r_end;
            }
        }
        proof {
            let prefix = sorted@.subrange(0, i as int);
            let prefix1 = sorted@.subrange(0, i + 1);
            assert forall|p: int| (covered(results@, p) || start <= p < end) <==> covered(
                prefix1,
                p,
            ) by {
                if covered(results@, p) {
                    let k = choose|k: int|
                        0 <= k < results@.len() && (#[trigger] results@[k]).start <= p
                            < results@[k].end;
                    if k < before.len() {
                        assert(before[k] == results@[k]);
                        assert(covered(before, p));
                    }
                }
                if covered(before, p) || old_start <= p < old_end {
                    assert(covered(prefix, p));
                    let m = choose|m: int|
                        0 <= m < prefix.len() && (#[trigger] prefix[m]).start <= p < prefix[m].end;
                    assert(prefix1[m] == prefix[m]);
                    assert(covered(prefix1, p));
                    if covered(before, p) {
                        let k = choose|k: int|
                            0 <= k < before.len() && (#[trigger] before[k]).start <= p
                                < before[k].end;
                        assert(results@[k] == before[k]);
                    } else if !(start <= p < end) {
                        assert(results@[results@.len() - 1].start <= p < results@[results@.len()
                            - 1].end);
                    }
                }
                if r_start <= p < r_end {
                    assert(prefix1[i as int].start <= p < prefix1[i as int].end);
                }
                if covered(prefix1, p) {
                    let m = choose|m: int|
                        0 <= m < prefix1.len() && (#[trigger] prefix1[m]).start <= p
                            < prefix1[m].end;
                    if m < i {
                        assert(prefix[m] == prefix1[m]);
                        assert(covered(prefix, p));
                    }
                }
            }
            assert(disjoint_spans(results@)) by {
                assert forall|k: int| 0 <= k < results@.len() implies (#[trigger] results@[k]).start
                    < results@[k].end by {
                    if k < before.len() {
                        assert(results@[k] == before[k]);
                    }
                }
                assert forall|j: int, k: int| 0 <= j < k < results@.len() implies (
                #[trigger] results@[j]).end < (#[trigger] results@[k]).start by {
                    assert(results@[j] == before[j]);
                    if k < before.len() {
                        assert(results@[k] == before[k]);
                    }
                }
            }
            assert forall|k: int| 0 <= k < results@.len() implies (#[trigger] results@[k]).end
                < start by {
                if k < before.len() {
                    assert(results@[k] == before[k]);
                }
            }
        }
        i += 1;
    }
    assert(sorted@.subrange(0, i as int) =~= sorted@);
    assert forall|p: int| (covered(results@, p) || start <= p < end) <==> covered(ranges@, p) by {
        assert((covered(results@, p) || start <= p < end) <==> covered(
            sorted@.subrange(0, i as int),
            p,
        ));
        assert(covered(sorted@, p) <==> covered(ranges@, p));
    }
    if start != end {
        let ghost before = results@;
        results.push(Range { start, end });
        proof {
            assert forall|p: int| covered(results@, p) <==> (covered(before, p) || start <= p
                < end) by {
                if covered(results@, p) {
                    let k = choose|k: int|
                        0 <= k < results@.len() && (#[trigger] results@[k]).start <= p
                            < results@[k].end;
                    if k < before.len() {
                        assert(before[k] == results@[k]);
                    }
                }
                if covered(before, p) {
                    let k = choose|k: int|
                        0 <= k < before.len() && (#[trigger] before[k]).start <= p < before[k].end;
                    assert(results@[k] == before[k]);
                }
                if start <= p < end {
                    assert(results@[results@.len() - 1].start <= p < results@[results@.len()
                        - 1].end);
                }
            }
            assert forall|k: int| 0 <= k < results@.len() implies (#[trigger] results@[k]).start
                < results@[k].end by {
                if k < before.len() {
                    assert(results@[k] == before[k]);
                }
            }
            assert forall|j: int, k: int| 0 <= j < k < results@.len() implies (
            #[trigger] results@[j]).end < (#[trigger] results@[k]).start by {
                assert(results@[j] == before[j]);
                if k < before.len() {
                    assert(results@[k] == before[k]);
                }
            }
        }
    }
    results
}

/// What a character becomes when it is escaped for HTML.
pub open spec fn escaped_char(c: char) -> Seq<char> {
    if c == '&' {
        "&amp;"@
    } else if c == '<' {
        "&lt;"@
    } else if c == '>' {
        "&gt;"@
    } else if c == '"' {
        "&quot;"@
    } else if c == '\'' {
        "&#x27;"@
    } else if c == '/' {
        "&#x2F;"@
    } else {
        seq![c]
    }
}

/// A text escaped for HTML, character by character.
pub open spec fn escaped(s: Seq<char>) -> Seq<char>
    decreases s.len(),
{
    if s.len() == 0 {
        Seq::empty()
    } else {
        escaped(s.drop_last()) + escaped_char(s.last())
    }
}

/// Escapes `s` for HTML.
///
/// Trusted: calls `tera::escape_html`, which replaces `&`, `<`, `>`, `"`,
/// `'` and `/` by their entities and copies every other character.
#[verifier::external_body]
pub(crate) fn escape_html(s: &str) -> (r: String)
    ensures
        r@ == escaped(s@),
{
    tera::escape_html(s)
}

/// Number of bytes that a character takes in UTF-8.
pub open spec fn utf8_len(c: char) -> int {
    let u = c as u32;
    if u < 0x80 {
        1
    } else if u < 0x800 {
        2
    } else if u < 0x10000 {
        3
    } else {
        4
    }
}

/// Byte offset at which character `i` of a text begins in UTF-8.
pub open spec fn byte_offset(chars: Seq<char>, i: int) -> int
    decreases i,
{
    if i <= 0 {
        0
    } else {
        byte_offset(chars, i - 1) + utf8_len(chars[i - 1])
    }
}

/// Whether one of the byte positions `lo..hi` lies in one of the ranges.
pub open spec fn marked(ranges: Seq<Range<usize>>, lo: int, hi: int) -> bool {
    exists|p: int| lo <= p < hi && covered(ranges, p)
}

/// Whether character `i` is highlighted: whether a range covers one of its
/// bytes.
pub open spec fn char_marked(chars: Seq<char>, ranges: Seq<Range<usize>>, i: int) -> bool {
    marked(ranges, byte_offset(chars, i), byte_offset(chars, i + 1))
}

/// The snippet from character `i` on: every maximal stretch of highlighted
/// characters stands as it is between the markers, everything else is
/// escaped. `open` tells whether a marker is open at `i`.
pub open spec fn highlighted_from(
    chars: Seq<char>,
    ranges: Seq<Range<usize>>,
    i: int,
    open: bool,
) -> Seq<char>
    decreases chars.len() - i,
{
    if i < 0 || i >= chars.len() {
        if open {
            HIGHLIGHT_SUFFIX@
        } else {
            Seq::empty()
        }
    } else if char_marked(chars, ranges, i) {
        (if open {
            Seq::empty()
        } else {
            HIGHLIGHT_PREFIX@
        }) + seq![chars[i]] + highlighted_from(chars, ranges, i + 1, true)
    } else {
        (if open {
            HIGHLIGHT_SUFFIX@
        } else {
            Seq::empty()
        }) + escaped_char(chars[i]) + highlighted_from(chars, ranges, i + 1, false)
    }
}

/// The snippet with its highlights marked up.
pub open spec fn highlighted(chars: Seq<char>, ranges: Seq<Range<usize>>) -> Seq<char> {
    highlighted_from(chars, ranges, 0, false)
}

/// Where a text occurs behind a prefix, it occurs in what follows the prefix.
proof fn lemma_match_behind(a: Seq<char>, b: Seq<char>, q: int, pat: Seq<char>)
    requires
        matches_at(b, q, pat),
    ensures
        matches_at(a + b, a.len() + q, pat),
{
    assert((a + b).subrange(a.len() + q, a.len() + q + pat.len()) =~= b.subrange(q, q + pat.len()));
}

/// A snippet from a place where a marker is open holds the closing marker.
pub proof fn lemma_marker_closed(chars: Seq<char>, ranges: Seq<Range<usize>>, i: int)
    requires
        0 <= i,
    ensures
        exists|pos: int| matches_at(highlighted_from(chars, ranges, i, true), pos, HIGHLIGHT_SUFFIX@),
    decreases chars.len() - i,
{
    let out = highlighted_from(chars, ranges, i, true);
    if i >= chars.len() {
        assert(out.subrange(0, HIGHLIGHT_SUFFIX@.len() as int) =~= HIGHLIGHT_SUFFIX@);
        assert(matches_at(out, 0, HIGHLIGHT_SUFFIX@));
    } else if char_marked(chars, ranges, i) {
        lemma_marker_closed(chars, ranges, i + 1);
        let rest = highlighted_from(chars, ranges, i + 1, true);
        let pos = choose|pos: int| matches_at(rest, pos, HIGHLIGHT_SUFFIX@);
        let head = Seq::<char>::empty() + seq![chars[i]];
        assert(out =~= head + rest);
        lemma_match_behind(head, rest, pos, HIGHLIGHT_SUFFIX@);
        assert(matches_at(out, head.len() + pos, HIGHLIGHT_SUFFIX@));
    } else {
        let rest = escaped_char(chars[i]) + highlighted_from(chars, ranges, i + 1, false);
        assert(out =~= HIGHLIGHT_SUFFIX@ + rest);
        assert(out.subrange(0, HIGHLIGHT_SUFFIX@.len() as int) =~= HIGHLIGHT_SUFFIX@);
        assert(matches_at(out, 0, HIGHLIGHT_SUFFIX@));
    }
}

/// A snippet with a highlighted character holds a pair of markers: an
/// opening marker, and behind it, with that character between them, a
/// closing one.
pub proof fn lemma_marker_pair(chars: Seq<char>, ranges: Seq<Range<usize>>, i: int, at: int)
    requires
        0 <= i <= at < chars.len(),
        char_marked(chars, ranges, at),
    ensures
        exists|open: int, close: int|
            matches_at(highlighted_from(chars, ranges, i, false), open, HIGHLIGHT_PREFIX@)
                && matches_at(highlighted_from(chars, ranges, i, false), close, HIGHLIGHT_SUFFIX@)
                && open + HIGHLIGHT_PREFIX@.len() < close,
    decreases at - i,
{
    let out = highlighted_from(chars, ranges, i, false);
    if char_marked(chars, ranges, i) {
        lemma_marker_closed(chars, ranges, i + 1);
        let tail = highlighted_from(chars, ranges, i + 1, true);
        let pos = choose|pos: int| matches_at(tail, pos, HIGHLIGHT_SUFFIX@);
        let head = HIGHLIGHT_PREFIX@ + seq![chars[i]];
        assert(out =~= head + tail);
        assert(out.subrange(0, HIGHLIGHT_PREFIX@.len() as int) =~= HIGHLIGHT_PREFIX@);
        lemma_match_behind(head, tail, pos, HIGHLIGHT_SUFFIX@);
        assert(matches_at(out, 0, HIGHLIGHT_PREFIX@));
        assert(matches_at(out, head.len() + pos, HIGHLIGHT_SUFFIX@));
    } else {
        lemma_marker_pair(chars, ranges, i + 1, at);
        let rest = highlighted_from(chars, ranges, i + 1, false);
        let (open, close) = choose|open: int, close: int|
            matches_at(rest, open, HIGHLIGHT_PREFIX@) && matches_at(rest, close, HIGHLIGHT_SUFFIX@)
                && open + HIGHLIGHT_PREFIX@.len() < close;
        let head = Seq::<char>::empty() + escaped_char(chars[i]);
        assert(out =~= head + rest);
        lemma_match_behind(head, rest, open, HIGHLIGHT_PREFIX@);
        lemma_match_behind(head, rest, close, HIGHLIGHT_SUFFIX@);
        assert(matches_at(out, head.len() + open, HIGHLIGHT_PREFIX@) && matches_at(
            out,
            head.len() + close,
            HIGHLIGHT_SUFFIX@,
        ) && head.len() + open + HIGHLIGHT_PREFIX@.len() < head.len() + close);
    }
}

/// Ranges that cover the same positions mark the same characters.
proof fn lemma_marked_same(a: Seq<Range<usize>>, b: Seq<Range<usize>>, lo: int, hi: int)
    requires
        forall|p: int| covered(a, p) <==> covered(b, p),
    ensures
        marked(a, lo, hi) == marked(b, lo, hi),
{
    if marked(a, lo, hi) {
        let p = choose|p: int| lo <= p < hi && covered(a, p);
        assert(covered(b, p));
    }
    if marked(b, lo, hi) {
        let p = choose|p: int| lo <= p < hi && covered(b, p);
        assert(covered(a, p));
    }
}

fn is_marked(spans: &Vec<Range<usize>>, lo: u128, hi: u128) -> (r: bool)
    requires
        lo < hi,
    ensures
        r == marked(spans@, lo as int, hi as int),
{
    let mut k: usize = 0;
    while k < spans.len()
        invariant
            k <= spans.len(),
            lo < hi,
            forall|j: int|
                0 <= j < k ==> !((#[trigger] spans@[j]).start < hi && lo < spans@[j].end
                    && spans@[j].start < spans@[j].end),
        decreases spans.len() - k,
    {
        let start = spans[k].start as u128;
        let end = spans[k].end as u128;
        if start < hi && lo < end && start < end {
            proof {
                let p: int = if start < lo {
                    lo as int
                } else {
                    start as int
                };
                assert(spans@[k as int].start <= p < spans@[k as int].end);
                assert(covered(spans@, p));
            }
            return true;
        }
        k += 1;
    }
    proof {
        if marked(spans@, lo as int, hi as int) {
            let p = choose|p: int| lo <= p < hi && covered(spans@, p);
            let j = choose|j: int|
                0 <= j < spans@.len() && (#[trigger] spans@[j]).start <= p < spans@[j].end;
            assert(false);
        }
    }
    false
}

fn char_len_utf8(c: char) -> (r: u128)
    ensures
        r == utf8_len(c),
        1 <= r <= 4,
{
    let u = c as u32;
    if u < 0x80 {
        1
    } else if u < 0x800 {
        2
    } else if u < 0x10000 {
        3
    } else {
        4
    }
}

/// Marks up the highlights of a snippet: the text covered by `highlights`
/// goes between [`HIGHLIGHT_PREFIX`] and [`HIGHLIGHT_SUFFIX`], the text around
/// it is escaped for HTML. The ranges count bytes; a character counts as
/// highlighted when a range covers any of its bytes.
pub fn highlight(snippet: &str, highlights: &Vec<Range<usize>>) -> (r: String)
    ensures
        r@ == highlighted(snippet@, highlights@),
{
    let spans = normalize_ranges(highlights);
    let chars = str_chars(snippet);
    let mut out: Vec<char> = Vec::new();
    let mut plain: Vec<char> = Vec::new();
    let mut open = false;
    let mut offset: u128 = 0;
    let mut i: usize = 0;
    proof {
        assert(escaped(plain@) =~= Seq::<char>::empty());
        assert(out@ + escaped(plain@) + highlighted_from(chars@, highlights@, 0, false)
            =~= highlighted(chars@, highlights@));
    }
    while i < chars.len()
        invariant
            i <= chars.len(),
            offset == byte_offset(chars@, i as int),
            offset <= 4 * i,
            open ==> plain@.len() == 0,
            forall|p: int| covered(spans@, p) <==> covered(highlights@, p),
            out@ + escaped(plain@) + highlighted_from(chars@, highlights@, i as int, open)
                == highlighted(chars@, highlights@),
        decreases chars.len() - i,
    {
        let c = chars[i];
        let len = char_len_utf8(c);
        let next = offset + len;
        let hit = is_marked(&spans, offset, next);
        let ghost out_before = out@;
        let ghost plain_before = plain@;
        let ghost was_open = open;
        proof {
            lemma_marked_same(spans@, highlights@, offset as int, next as int);
            assert(byte_offset(chars@, i + 1) == next);
            assert(hit == char_marked(chars@, highlights@, i as int));
            assert(escaped(Seq::<char>::empty()) =~= Seq::<char>::empty());
        }
        if hit {
            if !open {
                let text = string_from_chars(&plain);
                let esc = escape_html(text.as_str());
                push_str_chars(&mut out, esc.as_str());
                plain = Vec::new();
                push_str_chars(&mut out, HIGHLIGHT_PREFIX);
                open = true;
            }
            out.push(c);
            assert(out@ + escaped(plain@) + highlighted_from(chars@, highlights@, i + 1, true)
                =~= out_before + escaped(plain_before) + highlighted_from(
                chars@,
                highlights@,
                i as int,
                was_open,
            ));
        } else {
            if open {
                push_str_chars(&mut out, HIGHLIGHT_SUFFIX);
                open = false;
            }
            plain.push(c);
            proof {
                assert(plain@.drop_last() =~= plain_before);
                assert(escaped(plain@) =~= escaped(plain_before) + escaped_char(c));
            }
            assert(out@ + escaped(plain@) + highlighted_from(chars@, highlights@, i + 1, false)
                =~= out_before + escaped(plain_before) + highlighted_from(
                chars@,
                highlights@,
                i as int,
                was_open,
            ));
        }
        offset = next;
        i += 1;
    }
    let ghost out_before = out@;
    if open {
        push_str_chars(&mut out, HIGHLIGHT_SUFFIX);
    } else {
        let text = string_from_chars(&plain);
        let esc = escape_html(text.as_str());
        push_str_chars(&mut out, esc.as_str());
    }
    proof {
        assert(escaped(Seq::<char>::empty()) =~= Seq::<char>::empty());
        assert(out@ =~= out_before + escaped(plain@) + highlighted_from(
            chars@,
            highlights@,
            i as int,
            open,
        ));
    }
    string_from_chars(&out)
}

/// One entry of a search results page.
#[derive(Debug)]
pub struct SearchResult {
    pub title: String,
    pub link: String,
    pub snippet: String,
}

/// Mathematical value of a [`SearchResult`].
pub struct SearchResultView {
    pub title: Seq<char>,
    pub link: Seq<char>,
    pub snippet: Seq<char>,
}

impl View for SearchResult {
    type V = SearchResultView;

    open spec fn view(&self) -> SearchResultView {
        SearchResultView { title: self.title@, link: self.link@, snippet: self.snippet@ }
    }
}

impl Clone for SearchResult {
    fn clone(&self) -> (r: Self)
        ensures
            r@ == self@,
    {
        SearchResult {
            title: self.title.clone(),
            link: self.link.clone(),
            snippet: self.snippet.clone(),
        }
    }
}

/// The views of a list of results.
pub open spec fn result_views(s: Seq<SearchResult>) -> Seq<SearchResultView> {
    s.map_values(|r: SearchResult| r@)
}

/// One document that the index found for a query: its stored title and link,
/// where they are stored as text, and the best-matching fragment of its body
/// with the byte ranges of the matches.
#[derive(Debug)]
pub struct SearchHit {
    pub title: Option<String>,
    pub link: Option<String>,
    pub fragment: String,
    pub highlighted: Vec<Range<usize>>,
}

/// Mathematical value of a [`SearchHit`].
pub struct SearchHitView {
    pub title: Option<Seq<char>>,
    pub link: Option<Seq<char>>,
    pub fragment: Seq<char>,
    pub highlighted: Seq<Range<usize>>,
}

impl View for SearchHit {
    type V = SearchHitView;

    open spec fn view(&self) -> SearchHitView {
        SearchHitView {
            title: crate::document_scraper::opt_view(self.title),
            link: crate::document_scraper::opt_view(self.link),
            fragment: self.fragment@,
            highlighted: self.highlighted@,
        }
    }
}

/// The views of a list of hits.
pub open spec fn hit_views(s: Seq<SearchHit>) -> Seq<SearchHitView> {
    s.map_values(|h: SearchHit| h@)
}

/// The results of a list of hits, in order: a hit with title and link
/// becomes a result whose snippet is its fragment with the matches marked
/// up; a hit that lacks either is passed over.
pub open spec fn results_of(hits: Seq<SearchHitView>) -> Seq<SearchResultView>
    decreases hits.len(),
{
    if hits.len() == 0 {
        Seq::empty()
    } else {
        let h = hits.last();
        if h.title is Some && h.link is Some {
            results_of(hits.drop_last()).push(
                SearchResultView {
                    title: h.title->0,
                    link: h.link->0,
                    snippet: highlighted(h.fragment, h.highlighted),
                },
            )
        } else {
            results_of(hits.drop_last())
        }
    }
}

/// How one field of the index is kept.
#[derive(Debug)]
pub struct FieldOptions {
    pub name: String,
    /// Whether the text is split into terms; an untokenized field is indexed
    /// as one term.
    pub tokenized: bool,
    pub stored: bool,
    /// Whether term frequencies and positions are recorded.
    pub with_positions: bool,
}

/// Mathematical value of a [`FieldOptions`].
pub struct FieldOptionsView {
    pub name: Seq<char>,
    pub tokenized: bool,
    pub stored: bool,
    pub with_positions: bool,
}

impl View for FieldOptions {
    type V = FieldOptionsView;

    open spec fn view(&self) -> FieldOptionsView {
        FieldOptionsView {
            name: self.name@,
            tokenized: self.tokenized,
            stored: self.stored,
            with_positions: self.with_positions,
        }
    }
}

/// Most hits that a query returns.
pub const TOP_DOCS: usize = 10;

/// Memory budget of the index writer, in bytes.
pub const WRITER_MEMORY: usize = 50_000_000;

/// Most documents that the scanner adds before it commits.
pub const MAX_UNSYNCED_DOCS: usize = 20;

/// The layout of the search index and the limits it is queried with.
#[derive(Debug)]
pub struct FullTextIndex {
    pub title_field: FieldOptions,
    pub link_field: FieldOptions,
    pub body_field: FieldOptions,
    /// Name of the analyzer of the body field.
    pub tokenizer: String,
    pub top_docs: usize,
    pub writer_memory: usize,
}

impl FullTextIndex {
    /// The fixed layout: title and link stored as single terms, the body
    /// stored and tokenized with positions by the English stemmer; ten hits
    /// per query.
    pub fn new() -> (r: Self)
        ensures
            r.title_field@ == (FieldOptionsView {
                name: "title"@,
                tokenized: false,
                stored: true,
                with_positions: false,
            }),
            r.link_field@ == (FieldOptionsView {
                name: "link"@,
                tokenized: false,
                stored: true,
                with_positions: false,
            }),
            r.body_field@ == (FieldOptionsView {
                name: "body"@,
                tokenized: true,
                stored: true,
                with_positions: true,
            }),
            r.tokenizer@ == "en_stem"@,
            r.top_docs == TOP_DOCS,
            r.writer_memory == WRITER_MEMORY,
    {
        FullTextIndex {
            title_field: FieldOptions {
                name: "title".to_string(),
                tokenized: false,
                stored: true,
                with_positions: false,
            },
            link_field: FieldOptions {
                name: "link".to_string(),
                tokenized: false,
                stored: true,
                with_positions: false,
            },
            body_field: FieldOptions {
                name: "body".to_string(),
                tokenized: true,
                stored: true,
                with_positions: true,
            },
            tokenizer: "en_stem".to_string(),
            top_docs: TOP_DOCS,
            writer_memory: WRITER_MEMORY,
        }
    }

    /// Turns the hits of a query into results: those of the first
    /// `top_docs` hits.
    pub fn search(&self, hits: &Vec<SearchHit>) -> (r: Vec<SearchResult>)
        ensures
            result_views(r@) == results_of(
                hit_views(hits@).take(
                    if hits@.len() <= self.top_docs {
                        hits@.len() as int
                    } else {
                        self.top_docs as int
                    },
                ),
            ),
    {
        let limit = if hits.len() <= self.top_docs {
            hits.len()
        } else {
            self.top_docs
        };
        let ghost views = hit_views(hits@).take(limit as int);
        let mut results: Vec<SearchResult> = Vec::new();
        let mut i: usize = 0;
        assert(views.take(0) =~= Seq::<SearchHitView>::empty());
        assert(result_views(results@) =~= Seq::<SearchResultView>::empty());
        while i < limit
            invariant
                i <= limit <= hits.len(),
                views == hit_views(hits@).take(limit as int),
                result_views(results@) == results_of(views.take(i as int)),
            decreases limit - i,
        {
            let hit = &hits[i];
            proof {
                assert(views.take(i + 1).drop_last() =~= views.take(i as int));
                assert(views.take(i + 1).last() == hit@);
            }
            if let Some(title) = &hit.title {
                if let Some(link) = &hit.link {
                    let snippet = highlight(hit.fragment.as_str(), &hit.highlighted);
                    let ghost before = result_views(results@);
                    let result = SearchResult { title: title.clone(), link: link.clone(), snippet };
                    results.push(result);
                    assert(result_views(results@) =~= before.push(result@));
                }
            }
            i += 1;
        }
        assert(views.take(i as int) =~= views);
        results
    }

    /// Sets the scanner up for a document tree and hands it the documents to
    /// look at first: every Markdown file there is.
    pub fn scan_directory(&self, root_directory: &str, file_times: FileTimes, md_files: Vec<String>) -> (r:
        (DocumentScanner, Vec<String>))
        requires
            file_times.wf(),
        ensures
            r.0.wf(),
            r.0.file_times@ == file_times@,
            r.0.document_root@ == root_directory@,
            r.0.docs_since_last_commit == 0,
            r.1 == md_files,
    {
        let scanner = DocumentScanner {
            file_times,
            document_root: String::from_str(root_directory),
            docs_since_last_commit: 0,
        };
        (scanner, md_files)
    }
}

/// Whether a change of `path` concerns the index: whether it is a Markdown
/// document.
pub fn listen_for_changes(path: &str) -> (r: bool)
    ensures
        r == (crate::text::extension_of(path@) == Some("md"@)),
{
    has_exact_extension(path, "md")
}

/// Whether `key` is among the paths of `entries`.
pub open spec fn has_path(entries: Seq<(String, FileTime)>, key: Seq<char>) -> bool {
    exists|i: int| 0 <= i < entries.len() && (#[trigger] entries[i]).0@ == key
}

/// A position of `key` among `entries`.
pub open spec fn path_index(entries: Seq<(String, FileTime)>, key: Seq<char>) -> int {
    choose|i: int| 0 <= i < entries.len() && (#[trigger] entries[i]).0@ == key
}

/// The map that a list of entries with distinct paths stands for.
pub open spec fn times_map(entries: Seq<(String, FileTime)>) -> Map<Seq<char>, FileTime> {
    Map::new(
        |k: Seq<char>| has_path(entries, k),
        |k: Seq<char>| entries[path_index(entries, k)].1,
    )
}

/// No path occurs twice.
pub open spec fn distinct_times(entries: Seq<(String, FileTime)>) -> bool {
    forall|i: int, j: int|
        0 <= i < j < entries.len() ==> (#[trigger] entries[i]).0@ != (#[trigger] entries[j]).0@
}

/// The modification time that each document had when it was last indexed.
#[derive(Debug)]
pub struct FileTimes {
    pub(crate) files: Vec<(String, FileTime)>,
}

impl View for FileTimes {
    type V = Map<Seq<char>, FileTime>;

    closed spec fn view(&self) -> Map<Seq<char>, FileTime> {
        times_map(self.files@)
    }
}

impl FileTimes {
    /// Representation invariant: no path is recorded twice.
    pub closed spec fn wf(&self) -> bool {
        distinct_times(self.files@)
    }

    /// The recorded paths, in the order in which they were first recorded.
    pub closed spec fn path_seq(&self) -> Seq<Seq<char>> {
        self.files@.map_values(|e: (String, FileTime)| e.0@)
    }

    /// The recorded paths are exactly the keys of the map.
    pub proof fn lemma_path_seq(&self)
        ensures
            forall|k: Seq<char>| self@.contains_key(k) <==> self.path_seq().contains(k),
    {
        assert forall|k: Seq<char>| self@.contains_key(k) <==> self.path_seq().contains(k) by {
            if self@.contains_key(k) {
                let i = path_index(self.files@, k);
                assert(self.path_seq()[i] == k);
            }
            if self.path_seq().contains(k) {
                let i = choose|i: int| 0 <= i < self.path_seq().len() && self.path_seq()[i] == k;
                assert(self.files@[i].0@ == k);
            }
        }
    }

    /// No recorded times.
    pub fn new() -> (r: Self)
        ensures
            r.wf(),
            r@ == Map::<Seq<char>, FileTime>::empty(),
    {
        let r = FileTimes { files: Vec::new() };
        assert(r@ =~= Map::<Seq<char>, FileTime>::empty());
        r
    }

    fn position(&self, path: &str) -> (r: Option<usize>)
        ensures
            match r {
                Some(i) => i < self.files@.len() && self.files@[i as int].0@ == path@,
                None => !has_path(self.files@, path@),
            },
    {
        let mut i: usize = 0;
        while i < self.files.len()
            invariant
                i <= self.files.len(),
                forall|j: int| 0 <= j < i ==> (#[trigger] self.files@[j]).0@ != path@,
            decreases self.files.len() - i,
        {
            if str_eq(self.files[i].0.as_str(), path) {
                return Some(i);
            }
            i += 1;
        }
        None
    }

    /// The time recorded for `path`.
    pub fn get(&self, path: &str) -> (r: Option<FileTime>)
        requires
            self.wf(),
        ensures
            r == if self@.contains_key(path@) {
                Some(self@[path@])
            } else {
                None
            },
    {
        match self.position(path) {
            Some(i) => {
                assert(self.files@[i as int].0@ == path@);
                assert(has_path(self.files@, path@));
                Some(self.files[i].1)
            },
            None => None,
        }
    }

    /// Records `time` for `path`.
    pub fn insert(&mut self, path: &str, time: FileTime)
        requires
            old(self).wf(),
        ensures
            final(self).wf(),
            final(self)@ == old(self)@.insert(path@, time),
    {
        let ghost before = self.files@;
        match self.position(path) {
            Some(i) => {
                self.files.set(i, (String::from_str(path), time));
            },
            None => {
                self.files.push((String::from_str(path), time));
            },
        }
        proof {
            let after = self.files@;
            assert forall|a: int, b: int| 0 <= a < b < after.len() implies (#[trigger] after[a]).0@
                != (#[trigger] after[b]).0@ by {
                if b < before.len() {
                    assert(before[a].0@ != before[b].0@);
                } else {
                    assert(before[a].0@ != path@);
                }
            }
            assert forall|k: Seq<char>| has_path(after, k) <==> (k == path@ || has_path(
                before,
                k,
            )) by {
                if has_path(after, k) {
                    let i = path_index(after, k);
                    if k != path@ {
                        assert(before[i].0@ == k);
                    }
                }
                if has_path(before, k) {
                    let i = path_index(before, k);
                    assert(after[i].0@ == k);
                }
                if k == path@ {
                    if after.len() > before.len() {
                        assert(after[after.len() - 1].0@ == k);
                    } else {
                        let i = choose|i: int| 0 <= i < before.len() && before[i].0@ == path@;
                        assert(after[i].0@ == k);
                    }
                }
            }
            assert forall|k: Seq<char>| has_path(after, k) implies #[trigger] times_map(after)[k]
                == old(self)@.insert(path@, time)[k] by {
                let i = path_index(after, k);
                if k == path@ {
                    assert(after[i].1 == time) by {
                        if after.len() > before.len() {
                            if i < before.len() {
                                assert(before[i].0@ != path@);
                            }
                        } else {
                            let j = choose|j: int| 0 <= j < before.len() && before[j].0@ == path@;
                            if i != j {
                                if i < j {
                                    assert(after[i].0@ != after[j].0@);
                                } else {
                                    assert(after[j].0@ != after[i].0@);
                                }
                            }
                        }
                    }
                } else {
                    assert(before[i] == after[i]);
                    let j = path_index(before, k);
                    if i != j {
                        if i < j {
                            assert(before[i].0@ != before[j].0@);
                        } else {
                            assert(before[j].0@ != before[i].0@);
                        }
                    }
                }
            }
            assert(self@ =~= old(self)@.insert(path@, time));
        }
    }

    /// Forgets `path`.
    pub fn remove(&mut self, path: &str)
        requires
            old(self).wf(),
        ensures
            final(self).wf(),
            final(self)@ == old(self)@.remove(path@),
    {
        let ghost before = self.files@;
        match self.position(path) {
            Some(i) => {
                let _ = self.files.remove(i);
                proof {
                    let after = self.files@;
                    assert forall|a: int, b: int| 0 <= a < b < after.len() implies (
                    #[trigger] after[a]).0@ != (#[trigger] after[b]).0@ by {
                        let a0 = if a < i {
                            a
                        } else {
                            a + 1
                        };
                        let b0 = if b < i {
                            b
                        } else {
                            b + 1
                        };
                        assert(after[a] == before[a0]);
                        assert(after[b] == before[b0]);
                        assert(before[a0].0@ != before[b0].0@);
                    }
                    assert forall|k: Seq<char>| has_path(after, k) <==> (k != path@ && has_path(
                        before,
                        k,
                    )) by {
                        if has_path(after, k) {
                            let a = path_index(after, k);
                            let a0 = if a < i {
                                a
                            } else {
                                a + 1
                            };
                            assert(after[a] == before[a0]);
                            assert(before[a0].0@ == k);
                            if a0 < i {
                                assert(before[a0].0@ != before[i as int].0@);
                            } else {
                                assert(before[i as int].0@ != before[a0].0@);
                            }
                        }
                        if k != path@ && has_path(before, k) {
                            let b = path_index(before, k);
                            let a = if b < i {
                                b
                            } else {
                                b - 1
                            };
                            assert(after[a] == before[b]);
                        }
                    }
                    assert forall|k: Seq<char>| has_path(after, k) implies #[trigger] times_map(
                        after,
                    )[k] == old(self)@.remove(path@)[k] by {
                        let a = path_index(after, k);
                        let a0 = if a < i {
                            a
                        } else {
                            a + 1
                        };
                        assert(after[a] == before[a0]);
                        let b = path_index(before, k);
                        if a0 != b {
                            if a0 < b {
                                assert(before[a0].0@ != before[b].0@);
                            } else {
                                assert(before[b].0@ != before[a0].0@);
                            }
                        }
                    }
                    assert(self@ =~= old(self)@.remove(path@));
                }
            },
            None => {
                assert(self@ =~= old(self)@.remove(path@));
            },
        }
    }

    /// The recorded paths.
    pub fn paths(&self) -> (r: Vec<String>)
        ensures
            string_views(r@) == self.path_seq(),
    {
        let mut out: Vec<String> = Vec::new();
        let mut i: usize = 0;
        while i < self.files.len()
            invariant
                i <= self.files.len(),
                string_views(out@) == self.path_seq().take(i as int),
            decreases self.files.len() - i,
        {
            let ghost prev = string_views(out@);
            out.push(self.files[i].0.clone());
            assert(string_views(out@) =~= prev.push(self.files@[i as int].0@));
            assert(self.path_seq().take(i + 1) =~= self.path_seq().take(i as int).push(
                self.files@[i as int].0@,
            ));
            i += 1;
        }
        assert(self.path_seq().take(i as int) =~= self.path_seq());
        out
    }

    /// Brings the record for `path` up to date and tells whether it already
    /// was: a document that is gone is forgotten, one whose time differs from
    /// the recorded one, or that has none recorded, gets the current time.
    pub fn check_up_to_date(&mut self, path: &str, current_modtime: Option<FileTime>) -> (r: bool)
        requires
            old(self).wf(),
        ensures
            final(self).wf(),
            final(self)@ == match current_modtime {
                Some(t) => old(self)@.insert(path@, t),
                None => old(self)@.remove(path@),
            },
            r == (current_modtime is Some && old(self)@.contains_key(path@) && old(self)@[path@]
                == current_modtime->0),
    {
        match current_modtime {
            None => {
                self.remove(path);
                false
            },
            Some(current) => {
                let last_modtime = self.get(path);
                match last_modtime {
                    Some(last) => {
                        if last == current {
                            assert(self@ =~= old(self)@.insert(path@, current));
                            return true;
                        }
                    },
                    None => {},
                }
                self.insert(path, current);
                false
            },
        }
    }
}

/// The part of `path` below the directory `root`, when the path lies in it.
pub open spec fn strip_root(path: Seq<char>, root: Seq<char>) -> Option<Seq<char>> {
    if !matches_at(path, 0, root) {
        None
    } else if path.len() == root.len() {
        Some(Seq::empty())
    } else if root.len() > 0 && root.last() == '/' {
        Some(path.subrange(root.len() as int, path.len() as int))
    } else if path[root.len() as int] == '/' {
        Some(path.subrange(root.len() as int + 1, path.len() as int))
    } else {
        None
    }
}

/// The site link of the document at `path`: `/home/` and its path below the
/// document root.
pub open spec fn document_link(path: Seq<char>, root: Seq<char>) -> Option<Seq<char>> {
    match strip_root(path, root) {
        Some(rel) => Some("/home/"@ + rel),
        None => None,
    }
}

/// Works out the site link of a document.
pub fn link_of(path: &str, root: &str) -> (r: Option<String>)
    ensures
        crate::document_scraper::opt_view(r) == document_link(path@, root@),
{
    let p = str_chars(path);
    let r = str_chars(root);
    if !starts_with_at(&p, 0, &r) {
        return None;
    }
    let from = if p.len() == r.len() {
        p.len()
    } else if r.len() > 0 && r[r.len() - 1] == '/' {
        r.len()
    } else if p[r.len()] == '/' {
        r.len() + 1
    } else {
        return None;
    };
    let rel = slice_chars(&p, from, p.len());
    let mut link = str_chars("/home/");
    push_all(&mut link, &rel);
    proof {
        if p.len() == r.len() {
            assert(rel@ =~= Seq::<char>::empty());
        }
    }
    Some(string_from_chars(&link))
}

/// What the scanner wants done about one document.
#[derive(Debug)]
pub struct ScanStep {
    /// The link whose earlier document is to be deleted from the index.
    pub delete: Option<String>,
    /// Title and link of the document to read and add.
    pub add: Option<(String, String)>,
    /// Whether to persist the recorded times and commit the index.
    pub commit: bool,
}

/// Mathematical value of a [`ScanStep`].
pub struct ScanStepView {
    pub delete: Option<Seq<char>>,
    pub add: Option<(Seq<char>, Seq<char>)>,
    pub commit: bool,
}

impl View for ScanStep {
    type V = ScanStepView;

    open spec fn view(&self) -> ScanStepView {
        ScanStepView {
            delete: crate::document_scraper::opt_view(self.delete),
            add: match self.add {
                Some(a) => Some((a.0@, a.1@)),
                None => None,
            },
            commit: self.commit,
        }
    }
}

/// The changes made since the last commit, after one more document with the
/// given path has been handled.
pub open spec fn unsynced_after(before: usize, path: Seq<char>, root: Seq<char>) -> int {
    if document_link(path, root) is Some && file_name_of(path).len() > 0 {
        before + 1
    } else {
        before as int
    }
}

/// What is to be done about a document that is not up to date: its earlier
/// entry goes; the document is added under its file name as title if it is
/// there to be read, and only deleted if it is gone; and the index is
/// committed when the queue is drained or more than [`MAX_UNSYNCED_DOCS`]
/// changes wait for it.
pub open spec fn scan_step(
    before: usize,
    path: Seq<char>,
    root: Seq<char>,
    readable: bool,
    queue_empty: bool,
) -> ScanStepView {
    ScanStepView {
        delete: document_link(path, root),
        add: if readable && document_link(path, root) is Some && file_name_of(path).len() > 0 {
            Some((file_name_of(path), document_link(path, root)->0))
        } else {
            None
        },
        commit: queue_empty || unsynced_after(before, path, root) > MAX_UNSYNCED_DOCS,
    }
}

/// The state of the background scanner: the recorded times, the document
/// root and the number of documents added since the last commit.
#[derive(Debug)]
pub struct DocumentScanner {
    pub file_times: FileTimes,
    pub document_root: String,
    pub docs_since_last_commit: usize,
}

/// The links of the documents among `missing` that are on record and lie
/// below the root, in order.
pub open spec fn pruned_links(
    recorded: Map<Seq<char>, FileTime>,
    missing: Seq<Seq<char>>,
    root: Seq<char>,
) -> Seq<Seq<char>>
    decreases missing.len(),
{
    if missing.len() == 0 {
        Seq::empty()
    } else {
        let before = pruned_links(recorded, missing.drop_last(), root);
        let path = missing.last();
        if recorded.remove_keys(missing.drop_last().to_set()).contains_key(path) && document_link(
            path,
            root,
        ) is Some {
            before.push(document_link(path, root)->0)
        } else {
            before
        }
    }
}

/// The links to prune only grow as more missing documents are looked at.
proof fn lemma_pruned_links_grow(
    recorded: Map<Seq<char>, FileTime>,
    missing: Seq<Seq<char>>,
    root: Seq<char>,
    n: int,
    link: Seq<char>,
)
    requires
        0 <= n <= missing.len(),
        pruned_links(recorded, missing.take(n), root).contains(link),
    ensures
        pruned_links(recorded, missing, root).contains(link),
    decreases missing.len() - n,
{
    if n < missing.len() {
        let shorter = pruned_links(recorded, missing.take(n), root);
        let longer = pruned_links(recorded, missing.take(n + 1), root);
        assert(missing.take(n + 1).drop_last() =~= missing.take(n));
        let at = choose|at: int| 0 <= at < shorter.len() && shorter[at] == link;
        assert(longer[at] == link);
        lemma_pruned_links_grow(recorded, missing, root, n + 1, link);
    } else {
        assert(missing.take(n) =~= missing);
    }
}

/// A document that is on record, lies below the root and is reported
/// missing has its link among those to delete from the index, and is on
/// record no longer.
pub proof fn lemma_missing_document_pruned(
    recorded: Map<Seq<char>, FileTime>,
    missing: Seq<Seq<char>>,
    root: Seq<char>,
    i: int,
)
    requires
        0 <= i < missing.len(),
        recorded.contains_key(missing[i]),
        document_link(missing[i], root) is Some,
    ensures
        pruned_links(recorded, missing, root).contains(document_link(missing[i], root)->0),
        !recorded.remove_keys(missing.to_set()).contains_key(missing[i]),
    decreases i,
{
    let path = missing[i];
    let link = document_link(path, root)->0;
    assert(missing.to_set().contains(path));
    if exists|j: int| 0 <= j < i && missing[j] == path {
        let j = choose|j: int| 0 <= j < i && missing[j] == path;
        lemma_missing_document_pruned(recorded, missing, root, j);
    } else {
        let upto = missing.take(i + 1);
        assert(upto.drop_last() =~= missing.take(i));
        assert(upto.last() == path);
        assert(!missing.take(i).to_set().contains(path)) by {
            if missing.take(i).contains(path) {
                let j = choose|j: int| 0 <= j < missing.take(i).len() && missing.take(i)[j] == path;
                assert(missing[j] == path);
            }
        }
        let grown = pruned_links(recorded, upto, root);
        assert(grown[grown.len() - 1] == link);
        lemma_pruned_links_grow(recorded, missing, root, i + 1, link);
    }
}

impl DocumentScanner {
    /// Representation invariant: that of the recorded times, and no more
    /// documents waiting for a commit than the limit.
    pub open spec fn wf(&self) -> bool {
        self.file_times.wf() && self.docs_since_last_commit <= MAX_UNSYNCED_DOCS
    }

    /// Forgets the documents that are gone, and returns the links to delete
    /// from the index. The index is to be committed afterwards if any link is
    /// returned.
    pub fn prune_deleted_documents(&mut self, missing: &Vec<String>) -> (r: Vec<String>)
        requires
            old(self).wf(),
        ensures
            final(self).wf(),
            final(self).file_times@ == old(self).file_times@.remove_keys(
                string_views(missing@).to_set(),
            ),
            string_views(r@) == pruned_links(
                old(self).file_times@,
                string_views(missing@),
                old(self).document_root@,
            ),
            final(self).document_root == old(self).document_root,
            final(self).docs_since_last_commit == old(self).docs_since_last_commit,
    {
        let ghost views = string_views(missing@);
        let ghost recorded = self.file_times@;
        let mut links: Vec<String> = Vec::new();
        let mut i: usize = 0;
        proof {
            assert(views.take(0) =~= Seq::<Seq<char>>::empty());
            assert(string_views(links@) =~= Seq::<Seq<char>>::empty());
            assert(recorded.remove_keys(views.take(0).to_set()) =~= recorded);
        }
        while i < missing.len()
            invariant
                i <= missing.len(),
                views == string_views(missing@),
                self.wf(),
                self.document_root == old(self).document_root,
                self.docs_since_last_commit == old(self).docs_since_last_commit,
                self.file_times@ == recorded.remove_keys(views.take(i as int).to_set()),
                string_views(links@) == pruned_links(
                    recorded,
                    views.take(i as int),
                    self.document_root@,
                ),
            decreases missing.len() - i,
        {
            let path = missing[i].as_str();
            proof {
                assert(views.take(i + 1).drop_last() =~= views.take(i as int));
                assert(views.take(i + 1).last() == path@);
                assert(views.take(i + 1).to_set() =~= views.take(i as int).to_set().insert(path@)) by {
                    assert forall|k: Seq<char>| #[trigger]
                        views.take(i + 1).to_set().contains(k) <==> views.take(
                        i as int,
                    ).to_set().insert(path@).contains(k) by {
                        if views.take(i + 1).contains(k) {
                            let t1 = views.take(i + 1);
                            let j = choose|j: int| 0 <= j < t1.len() && #[trigger] t1[j] == k;
                            if j < i {
                                assert(views.take(i as int)[j] == k);
                            }
                        }
                        if views.take(i as int).contains(k) {
                            let t0 = views.take(i as int);
                            let j = choose|j: int| 0 <= j < t0.len() && #[trigger] t0[j] == k;
                            assert(views.take(i + 1)[j] == k);
                        }
                        if k == path@ {
                            assert(views.take(i + 1)[i as int] == k);
                        }
                    }
                }
            }
            let known = self.file_times.get(path);
            if known.is_some() {
                let ghost before = string_views(links@);
                match link_of(path, self.document_root.as_str()) {
                    Some(link) => {
                        links.push(link);
                        assert(string_views(links@) =~= before.push(link@));
                    },
                    None => {},
                }
            }
            self.file_times.remove(path);
            assert(self.file_times@ =~= recorded.remove_keys(views.take(i + 1).to_set()));
            i += 1;
        }
        assert(views.take(i as int) =~= views);
        links
    }

    /// Takes the next document off the queue: `modtime` is its current
    /// modification time, if it can be read, and `queue_empty` tells whether
    /// the queue is drained now. A document that is up to date needs
    /// nothing; for any other see [`scan_step`].
    pub fn scan(&mut self, path: &str, modtime: Option<FileTime>, queue_empty: bool) -> (r: Option<
        ScanStep,
    >)
        requires
            old(self).wf(),
        ensures
            final(self).wf(),
            final(self).document_root == old(self).document_root,
            final(self).file_times@ == match modtime {
                Some(t) => old(self).file_times@.insert(path@, t),
                None => old(self).file_times@.remove(path@),
            },
            modtime is Some && old(self).file_times@.contains_key(path@) && old(
                self,
            ).file_times@[path@] == modtime->0 ==> r is None && final(self).docs_since_last_commit
                == old(self).docs_since_last_commit,
            !(modtime is Some && old(self).file_times@.contains_key(path@) && old(
                self,
            ).file_times@[path@] == modtime->0) ==> r is Some && r->0@ == scan_step(
                old(self).docs_since_last_commit,
                path@,
                old(self).document_root@,
                modtime is Some,
                queue_empty,
            ) && final(self).docs_since_last_commit == if r->0.commit {
                0
            } else {
                unsynced_after(old(self).docs_since_last_commit, path@, old(self).document_root@)
            },
    {
        if self.file_times.check_up_to_date(path, modtime) {
            return None;
        }
        let link = link_of(path, self.document_root.as_str());
        let title = crate::text::file_name(path);
        let add = match &link {
            Some(l) => {
                if title.as_str().is_empty() {
                    None
                } else {
                    self.docs_since_last_commit = self.docs_since_last_commit + 1;
                    if modtime.is_some() {
                        Some((title, l.clone()))
                    } else {
                        None
                    }
                }
            },
            None => None,
        };
        let commit = queue_empty || self.docs_since_last_commit > MAX_UNSYNCED_DOCS;
        if commit {
            self.docs_since_last_commit = 0;
        }
        Some(ScanStep { delete: link, add, commit })
    }
}

} // verus!
