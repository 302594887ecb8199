//! Composes a parsed document with the site chrome: anchors on headings,
//! breadcrumbs and the variables each template is rendered with.

use crate::chimera_error::{ChimeraError, ChimeraErrorView};
use crate::document_scraper::{
    contents_link, external_link_views, link_views, opt_view, template_of, DocumentScraper,
    ExternalLink, ExternalLinkView, InternalLink, InternalLinkView, };
use crate::file_manager::{
    entries_with_extension, found_views, opt_peer_view, url_encode, url_encoded, FileManager,
    FoundFile, FoundFileView, PeerInfo, PeerInfoView,
};
use crate::full_text_index::{result_views, SearchResult, SearchResultView};
use crate::image_size_cache::{ImageSizeCache, WidthAndHeight};
use crate::text::{
    concat2, concat3, decimal, file_name, file_name_of, find_char_from, find_from,
    lemma_decimal_digits, lemma_find_from, matches_at,
    push_all, push_decimal, push_str_chars, slice_chars, starts_with_at, str_chars, str_eq,
    string_from_chars, string_views,
};
use vstd::prelude::*;
use vstd::string::StringExecFns;

verus! {

/// Opening of an image tag up to and including the quote that opens its
/// source.
pub const IMG_OPEN: &'static str = "<img src=\"";

/// An `id` attribute up to and including its opening quote.
pub const ID_ATTR: &'static str = " id=\"";

/// Whether a character is an ASCII digit.
pub open spec fn is_digit(c: char) -> bool {
    '0' <= c && c <= '9'
}

/// Whether a heading tag opens at `i`: `<h`, a digit, then `>` or a space.
pub open spec fn heading_tag_at(s: Seq<char>, i: int) -> bool {
    &&& 0 <= i
    &&& i + 3 < s.len()
    &&& s[i] == '<'
    &&& s[i + 1] == 'h'
    &&& is_digit(s[i + 2])
    &&& (s[i + 3] == '>' || s[i + 3] == ' ')
}

/// Whether the tag text from `q` up to the closing `>` holds an `id`
/// attribute.
pub open spec fn has_id_attr(s: Seq<char>, q: int) -> bool
    decreases s.len() - q,
{
    if q < 0 || q >= s.len() || s[q] == '>' {
        false
    } else if matches_at(s, q, ID_ATTR@) {
        true
    } else {
        has_id_attr(s, q + 1)
    }
}

/// The opening of a heading tag of depth digit `d` with the anchor `a` as its
/// `id`, up to and including the closing quote.
pub open spec fn injected_tag(d: char, a: Seq<char>) -> Seq<char> {
    "<h"@.push(d) + ID_ATTR@ + a + "\""@
}

/// The link index after a heading has used one up, if one was left.
pub open spec fn next_index(k: int, n: int) -> int {
    if k < n {
        k + 1
    } else {
        k
    }
}

/// An image tag rewritten with its dimensions, and where the scan goes on.
pub struct ImageRewrite {
    pub text: Seq<char>,
    pub next: int,
}

/// The image tag that opens at `i` with a quoted source on record, rewritten
/// up to the closing quote of the source with `width` and `height` added.
pub open spec fn image_rewrite(
    s: Seq<char>,
    i: int,
    sizes: Option<Map<Seq<char>, WidthAndHeight>>,
) -> Option<ImageRewrite> {
    match sizes {
        Some(m) => {
            let from = i + IMG_OPEN@.len();
            let to = find_from(s, from, '"');
            let src = s.subrange(from, to);
            if matches_at(s, i, IMG_OPEN@) && to < s.len() && m.contains_key(src) {
                Some(
                    ImageRewrite {
                        text: IMG_OPEN@ + src + "\" width=\""@ + decimal(m[src].width as nat)
                            + "\" height = \""@ + decimal(m[src].height as nat) + "\""@,
                        next: to + 1,
                    },
                )
            } else {
                None
            }
        },
        None => None,
    }
}

/// The body from position `i` on, with anchors `k..` handed to its headings.
///
/// A heading tag without attributes, and one with attributes but no `id`,
/// gets the next anchor as its `id` while anchors are left. A heading tag
/// that carries an `id` stays and uses up one anchor. An image tag whose
/// source is on record gets its dimensions. Everything else is copied.
pub open spec fn anchored_from(
    s: Seq<char>,
    i: int,
    anchors: Seq<Seq<char>>,
    k: int,
    sizes: Option<Map<Seq<char>, WidthAndHeight>>,
) -> Seq<char>
    decreases s.len() - i,
{
    if i < 0 || i >= s.len() {
        Seq::empty()
    } else if heading_tag_at(s, i) && s[i + 3] == '>' && 0 <= k < anchors.len() {
        injected_tag(s[i + 2], anchors[k]).push('>') + anchored_from(s, i + 4, anchors, k + 1, sizes)
    } else if heading_tag_at(s, i) && s[i + 3] == ' ' && !has_id_attr(s, i + 3) && 0 <= k
        < anchors.len() {
        injected_tag(s[i + 2], anchors[k]) + anchored_from(s, i + 3, anchors, k + 1, sizes)
    } else if heading_tag_at(s, i) && s[i + 3] == ' ' && has_id_attr(s, i + 3) {
        seq![s[i]] + anchored_from(s, i + 1, anchors, next_index(k, anchors.len() as int), sizes)
    } else {
        match image_rewrite(s, i, sizes) {
            Some(rw) => if rw.next > i {
                rw.text + anchored_from(s, rw.next, anchors, k, sizes)
            } else {
                Seq::empty()
            },
            None => seq![s[i]] + anchored_from(s, i + 1, anchors, k, sizes),
        }
    }
}

/// The anchors of a list of links.
pub open spec fn anchors_of(links: Seq<InternalLinkView>) -> Seq<Seq<char>> {
    links.map_values(|l: InternalLinkView| l.anchor)
}

/// The body with anchors on its headings. The first link is passed over when
/// it is the synthesized "Top" entry; a document without any other link is
/// left as it is.
pub open spec fn with_anchors(
    s: Seq<char>,
    anchors: Seq<Seq<char>>,
    inserted_top: bool,
    sizes: Option<Map<Seq<char>, WidthAndHeight>>,
) -> Seq<char> {
    let start: int = if inserted_top {
        1
    } else {
        0
    };
    if anchors.len() == start {
        s
    } else {
        anchored_from(s, 0, anchors, start, sizes)
    }
}

/// The view of an optional table of image dimensions.
pub open spec fn sizes_view(sizes: Option<ImageSizeCache>) -> Option<Map<Seq<char>, WidthAndHeight>> {
    match sizes {
        Some(c) => Some(c@),
        None => None,
    }
}

/// A heading tag is no image tag.
proof fn lemma_heading_is_no_image(
    s: Seq<char>,
    i: int,
    sizes: Option<Map<Seq<char>, WidthAndHeight>>,
)
    requires
        heading_tag_at(s, i),
    ensures
        image_rewrite(s, i, sizes) is None,
{
    reveal_strlit("<img src=\"");
    if matches_at(s, i, IMG_OPEN@) {
        assert(s.subrange(i, i + IMG_OPEN@.len())[1] == IMG_OPEN@[1]);
        assert(IMG_OPEN@[1] == 'i');
    }
}

/// Scans the tag text from `q` for an `id` attribute.
fn has_id_attribute(v: &Vec<char>, q: usize) -> (r: bool)
    requires
        q <= v.len(),
    ensures
        r == has_id_attr(v@, q as int),
{
    let pat = str_chars(ID_ATTR);
    let mut j: usize = q;
    while j < v.len() && v[j] != '>'
        invariant
            q <= j <= v.len(),
            pat@ == ID_ATTR@,
            has_id_attr(v@, q as int) == has_id_attr(v@, j as int),
        decreases v.len() - j,
    {
        if starts_with_at(v, j, &pat) {
            return true;
        }
        j += 1;
    }
    false
}

/// Appends the opening of a heading tag with `anchor` as its `id`.
fn push_injected_tag(out: &mut Vec<char>, d: char, anchor: &str)
    ensures
        final(out)@ == old(out)@ + injected_tag(d, anchor@),
{
    push_str_chars(out, "<h");
    out.push(d);
    push_str_chars(out, ID_ATTR);
    push_str_chars(out, anchor);
    push_str_chars(out, "\"");
    assert(out@ =~= old(out)@ + injected_tag(d, anchor@));
}

/// Rewrites the image tag at `i`, if its source is on record.
fn rewrite_image(v: &Vec<char>, i: usize, sizes: &Option<ImageSizeCache>, out: &mut Vec<char>) -> (r:
    Option<usize>)
    requires
        i < v.len(),
    ensures
        match r {
            Some(next) => {
                &&& image_rewrite(v@, i as int, sizes_view(*sizes)) is Some
                &&& next == image_rewrite(v@, i as int, sizes_view(*sizes))->0.next
                &&& i < next <= v.len()
                &&& final(out)@ == old(out)@ + image_rewrite(v@, i as int, sizes_view(*sizes))->0.text
            },
            None => image_rewrite(v@, i as int, sizes_view(*sizes)) is None && final(out)@ == old(
                out,
            )@,
        },
{
    match sizes {
        Some(cache) => {
            let open = str_chars(IMG_OPEN);
            if !starts_with_at(v, i, &open) {
                return None;
            }
            let from = i + open.len();
            let to = find_char_from(v, from, '"');
            if to >= v.len() {
                return None;
            }
            let src = slice_chars(v, from, to);
            let src_string = string_from_chars(&src);
            match cache.get_dimensions(src_string.as_str()) {
                Some(dim) => {
                    push_all(out, &open);
                    push_all(out, &src);
                    push_str_chars(out, "\" width=\"");
                    push_decimal(out, dim.width as u128);
                    push_str_chars(out, "\" height = \"");
                    push_decimal(out, dim.height as u128);
                    push_str_chars(out, "\"");
                    assert(out@ =~= old(out)@ + image_rewrite(
                        v@,
                        i as int,
                        sizes_view(*sizes),
                    )->0.text);
                    Some(to + 1)
                },
                None => None,
            }
        },
        None => None,
    }
}

/// Puts anchors on the headings of `original_html`: see [`with_anchors`].
pub fn add_anchors(
    original_html: String,
    links: &Vec<InternalLink>,
    inserted_top: bool,
    sizes: &Option<ImageSizeCache>,
) -> (r: String)
    ensures
        r@ == with_anchors(
            original_html@,
            anchors_of(link_views(links@)),
            inserted_top,
            sizes_view(*sizes),
        ),
{
    let start_index: usize = if inserted_top {
        1
    } else {
        0
    };
    if links.len() == start_index {
        return original_html;
    }
    let ghost anchors = anchors_of(link_views(links@));
    let ghost sv = sizes_view(*sizes);
    let v = str_chars(original_html.as_str());
    let mut out: Vec<char> = Vec::new();
    let mut link_index: usize = start_index;
    let mut i: usize = 0;
    while i < v.len()
        invariant
            i <= v.len(),
            anchors == anchors_of(link_views(links@)),
            anchors.len() == links.len(),
            sv == sizes_view(*sizes),
            link_index <= links.len() || link_index == start_index,
            start_index <= 1,
            out@ + anchored_from(v@, i as int, anchors, link_index as int, sv) == anchored_from(
                v@,
                0,
                anchors,
                start_index as int,
                sv,
            ),
        decreases v.len() - i,
    {
        let ghost before = out@;
        let c = v[i];
        let is_heading = c == '<' && v.len() - i > 3 && v[i + 1] == 'h' && '0' <= v[i + 2] && v[i
            + 2] <= '9' && (v[i + 3] == '>' || v[i + 3] == ' ');
        assert(is_heading == heading_tag_at(v@, i as int));
        if is_heading && v[i + 3] == '>' && link_index < links.len() {
            push_injected_tag(&mut out, v[i + 2], links[link_index].anchor.as_str());
            out.push('>');
            assert(out@ =~= before + injected_tag(v@[i + 2], anchors[link_index as int]).push('>'));
            link_index += 1;
            i += 4;
        } else if is_heading && v[i + 3] == ' ' {
            if has_id_attribute(&v, i + 3) {
                out.push(c);
                assert(out@ =~= before + seq![v@[i as int]]);
                if link_index < links.len() {
                    link_index += 1;
                }
                i += 1;
            } else if link_index < links.len() {
                push_injected_tag(&mut out, v[i + 2], links[link_index].anchor.as_str());
                link_index += 1;
                i += 3;
            } else {
                proof {
                    lemma_heading_is_no_image(v@, i as int, sv);
                }
                out.push(c);
                assert(out@ =~= before + seq![v@[i as int]]);
                i += 1;
            }
        } else {
            proof {
                if is_heading {
                    lemma_heading_is_no_image(v@, i as int, sv);
                }
            }
            match rewrite_image(&v, i, sizes, &mut out) {
                Some(next) => {
                    i = next;
                },
                None => {
                    out.push(c);
                    assert(out@ =~= before + seq![v@[i as int]]);
                    i += 1;
                },
            }
        }
    }
    assert(out@ + Seq::<char>::empty() =~= out@);
    string_from_chars(&out)
}

/// Whether the anchors from `k` on are enough for the headings from
/// position `i` on: whether every heading tag that lacks an `id` finds an
/// anchor left. `n` is the number of anchors.
pub open spec fn anchors_suffice(
    s: Seq<char>,
    i: int,
    n: int,
    k: int,
    sizes: Option<Map<Seq<char>, WidthAndHeight>>,
) -> bool
    decreases s.len() - i,
{
    if i < 0 || i >= s.len() {
        true
    } else if heading_tag_at(s, i) && s[i + 3] == '>' {
        0 <= k < n && anchors_suffice(s, i + 4, n, k + 1, sizes)
    } else if heading_tag_at(s, i) && s[i + 3] == ' ' && !has_id_attr(s, i + 3) {
        0 <= k < n && anchors_suffice(s, i + 3, n, k + 1, sizes)
    } else if heading_tag_at(s, i) && s[i + 3] == ' ' {
        anchors_suffice(s, i + 1, n, next_index(k, n), sizes)
    } else {
        match image_rewrite(s, i, sizes) {
            Some(rw) => if rw.next > i {
                anchors_suffice(s, rw.next, n, k, sizes)
            } else {
                true
            },
            None => anchors_suffice(s, i + 1, n, k, sizes),
        }
    }
}

/// Whether no anchor holds a `<`.
pub open spec fn anchors_clean(anchors: Seq<Seq<char>>) -> bool {
    forall|j: int, t: int|
        0 <= j < anchors.len() && 0 <= t < anchors[j].len() ==> (#[trigger] anchors[j][t]) != '<'
}

/// Anchors that are made of characters a URL fragment takes as they are hold
/// no `<`.
pub proof fn lemma_safe_anchors_clean(anchors: Seq<Seq<char>>)
    requires
        forall|j: int| 0 <= j < anchors.len() ==> crate::anchors::is_safe_anchor(#[trigger] anchors[j]),
    ensures
        anchors_clean(anchors),
{
    assert forall|j: int, t: int| 0 <= j < anchors.len() && 0 <= t < anchors[j].len() implies (
    #[trigger] anchors[j][t]) != '<' by {
        assert(crate::anchors::is_safe_anchor(anchors[j]));
        assert(crate::anchors::is_anchor_char(anchors[j][t]));
    }
}

/// Whether no image source on record holds a `<`.
pub open spec fn sources_clean(sizes: Option<Map<Seq<char>, WidthAndHeight>>) -> bool {
    match sizes {
        Some(m) => forall|src: Seq<char>, t: int|
            m.contains_key(src) && 0 <= t < src.len() ==> (#[trigger] src[t]) != '<',
        None => true,
    }
}

/// What an image tag gets behind its source: the closing quote of the source
/// and the two dimensions.
pub open spec fn image_tail(d: WidthAndHeight) -> Seq<char> {
    "\" width=\""@ + decimal(d.width as nat) + "\" height = \""@ + decimal(d.height as nat)
        + "\""@
}

/// What stands where in an injected tag.
proof fn lemma_injected_tag(d: char, a: Seq<char>)
    ensures
        injected_tag(d, a).len() == 9 + a.len(),
        injected_tag(d, a)[0] == '<',
        injected_tag(d, a)[1] == 'h',
        injected_tag(d, a)[2] == d,
        injected_tag(d, a)[3] == ' ',
        matches_at(injected_tag(d, a), 3, ID_ATTR@),
        forall|t: int| 4 <= t < 8 ==> injected_tag(d, a)[t] != '<',
        forall|t: int| 8 <= t < 8 + a.len() ==> injected_tag(d, a)[t] == a[t - 8],
        injected_tag(d, a)[8 + a.len() as int] == '"',
{
    reveal_strlit("<h");
    reveal_strlit(" id=\"");
    reveal_strlit("\"");
    let t = injected_tag(d, a);
    assert(t.subrange(3, 3 + ID_ATTR@.len() as int) =~= ID_ATTR@);
}

/// An injected tag has no `<` but its first character, when its anchor has
/// none.
proof fn lemma_injected_tag_clean(d: char, a: Seq<char>)
    requires
        is_digit(d),
        forall|t: int| 0 <= t < a.len() ==> a[t] != '<',
    ensures
        forall|t: int| 1 <= t < injected_tag(d, a).len() ==> injected_tag(d, a)[t] != '<',
{
    lemma_injected_tag(d, a);
    let tag = injected_tag(d, a);
    assert forall|t: int| 1 <= t < tag.len() implies tag[t] != '<' by {
        if t == 1 {
            assert(tag[1] == 'h');
        } else if t == 2 {
            assert(tag[2] == d);
        } else if t == 3 {
            assert(tag[3] == ' ');
        } else if t < 8 {
            assert(tag[t] != '<');
        } else if t < 8 + a.len() {
            assert(tag[t] == a[t - 8]);
            assert(a[t - 8] != '<');
        } else {
            assert(tag[8 + a.len() as int] == '"');
        }
    }
}

/// The tail of a rewritten image tag begins with a quote and holds neither
/// `<` nor `>`.
proof fn lemma_image_tail(d: WidthAndHeight)
    ensures
        image_tail(d).len() > 0,
        image_tail(d)[0] == '"',
        forall|t: int|
            0 <= t < image_tail(d).len() ==> image_tail(d)[t] != '<' && image_tail(d)[t] != '>',
{
    reveal_strlit("\" width=\"");
    reveal_strlit("\" height = \"");
    reveal_strlit("\"");
    lemma_decimal_digits(d.width as nat);
    lemma_decimal_digits(d.height as nat);
    let a = "\" width=\""@;
    let w = decimal(d.width as nat);
    let b = "\" height = \""@;
    let h = decimal(d.height as nat);
    let c = "\""@;
    let tail = image_tail(d);
    assert(tail =~= a + w + b + h + c);
    assert forall|t: int| 0 <= t < tail.len() implies tail[t] != '<' && tail[t] != '>' by {
        if t < a.len() {
            assert(tail[t] == a[t]);
        } else if t < a.len() + w.len() {
            assert(tail[t] == w[t - a.len()]);
        } else if t < a.len() + w.len() + b.len() {
            assert(tail[t] == b[t - a.len() - w.len()]);
        } else if t < a.len() + w.len() + b.len() + h.len() {
            assert(tail[t] == h[t - a.len() - w.len() - b.len()]);
        } else {
            assert(tail[t] == c[t - a.len() - w.len() - b.len() - h.len()]);
        }
    }
    assert(tail[0] == a[0]);
}

/// How a rewritten image tag relates to the input: it copies the input from
/// the tag's opening up to the quote that closes the source, and goes on with
/// the tail in place of that quote.
proof fn lemma_image_rewrite(s: Seq<char>, i: int, m: Map<Seq<char>, WidthAndHeight>)
    requires
        image_rewrite(s, i, Some(m)) is Some,
    ensures
        ({
            let rw = image_rewrite(s, i, Some(m))->0;
            let to = rw.next - 1;
            let src = s.subrange(i + 10, to);
            &&& 0 <= i
            &&& i + 10 <= to < s.len()
            &&& s[i] == '<'
            &&& s[i + 1] == 'i'
            &&& s[to] == '"'
            &&& m.contains_key(src)
            &&& rw.text == s.subrange(i, to) + image_tail(m[src])
            &&& forall|t: int| i + 1 <= t < i + 10 ==> s[t] != '<' && s[t] != '>'
        }),
{
    reveal_strlit("<img src=\"");
    let from = i + 10;
    assert(s.subrange(i, i + 10) == IMG_OPEN@);
    lemma_find_from(s, from, '"');
    let to = find_from(s, from, '"');
    let src = s.subrange(from, to);
    let rw = image_rewrite(s, i, Some(m))->0;
    assert(IMG_OPEN@ + src =~= s.subrange(i, to)) by {
        assert(s.subrange(i, to) =~= s.subrange(i, i + 10) + s.subrange(i + 10, to));
    }
    assert(rw.text =~= s.subrange(i, to) + image_tail(m[src]));
    assert forall|t: int| i <= t < i + 10 implies s[t] == IMG_OPEN@[t - i] by {
        assert(s.subrange(i, i + 10)[t - i] == s[t]);
    }
}

/// The characters of a rewritten image tag: up to the closing quote of the
/// source they are the input's; behind its first character there is no `<`,
/// and from the closing quote on there is no `>`.
proof fn lemma_image_text(s: Seq<char>, i: int, m: Map<Seq<char>, WidthAndHeight>)
    requires
        image_rewrite(s, i, Some(m)) is Some,
        sources_clean(Some(m)),
    ensures
        ({
            let rw = image_rewrite(s, i, Some(m))->0;
            let to = rw.next - 1;
            &&& rw.text.len() > to - i
            &&& i + 10 <= to < s.len()
            &&& forall|t: int| 0 <= t <= to - i ==> rw.text[t] == s[i + t]
            &&& rw.text[1] == 'i'
            &&& forall|t: int| 1 <= t < rw.text.len() ==> rw.text[t] != '<'
            &&& forall|t: int| to - i <= t < rw.text.len() ==> rw.text[t] != '>'
        }),
{
    lemma_image_rewrite(s, i, m);
    let rw = image_rewrite(s, i, Some(m))->0;
    let to = rw.next - 1;
    let src = s.subrange(i + 10, to);
    let region = s.subrange(i, to);
    let tail = image_tail(m[src]);
    lemma_image_tail(m[src]);
    assert forall|t: int| 0 <= t <= to - i implies rw.text[t] == s[i + t] by {
        if t < to - i {
            assert(rw.text[t] == region[t]);
        } else {
            assert(rw.text[t] == tail[0]);
        }
    }
    assert forall|t: int| 1 <= t < rw.text.len() implies rw.text[t] != '<' by {
        if t < 10 {
            assert(rw.text[t] == s[i + t]);
        } else if t < to - i {
            assert(rw.text[t] == s[i + t]);
            assert(src[t - 10] == s[i + t]);
            assert(src[t - 10] != '<');
        } else {
            assert(rw.text[t] == tail[t - (to - i)]);
        }
    }
    assert forall|t: int| to - i <= t < rw.text.len() implies rw.text[t] != '>' by {
        assert(rw.text[t] == tail[t - (to - i)]);
    }
}

/// Matching, heading tags and `id` attributes behind a prefix are those of
/// what follows the prefix.
proof fn lemma_behind_prefix(a: Seq<char>, b: Seq<char>, q: int)
    requires
        0 <= q,
    ensures
        matches_at(a + b, a.len() + q, ID_ATTR@) == matches_at(b, q, ID_ATTR@),
        heading_tag_at(a + b, a.len() + q) == heading_tag_at(b, q),
        has_id_attr(a + b, a.len() + q) == has_id_attr(b, q),
    decreases b.len() - q,
{
    let n = ID_ATTR@.len() as int;
    if q + n <= b.len() {
        assert((a + b).subrange(a.len() + q, a.len() + q + n) =~= b.subrange(q, q + n));
    }
    if q < b.len() {
        assert((a + b)[a.len() + q] == b[q]);
        lemma_behind_prefix(a, b, q + 1);
    }
    if q + 3 < b.len() {
        assert((a + b)[a.len() + q + 1] == b[q + 1]);
        assert((a + b)[a.len() + q + 2] == b[q + 2]);
        assert((a + b)[a.len() + q + 3] == b[q + 3]);
    }
}

/// A stretch without `>` does not stop the search for an `id` attribute.
proof fn lemma_id_behind_stretch(o: Seq<char>, a: int, b: int)
    requires
        0 <= a <= b,
        forall|t: int| a <= t < b ==> o[t] != '>',
        has_id_attr(o, b),
    ensures
        has_id_attr(o, a),
    decreases b - a,
{
    if a < b {
        lemma_id_behind_stretch(o, a + 1, b);
    }
}

/// An `id` attribute that follows a stretch without `>` is found from the
/// start of the stretch.
proof fn lemma_id_at(o: Seq<char>, a: int, q: int)
    requires
        0 <= a <= q,
        matches_at(o, q, ID_ATTR@),
        forall|t: int| a <= t < q ==> o[t] != '>',
    ensures
        has_id_attr(o, a),
    decreases q - a,
{
    reveal_strlit(" id=\"");
    if a < q {
        lemma_id_at(o, a + 1, q);
    } else {
        assert(o.subrange(q, q + 5)[0] == ' ');
    }
}

/// Where the search for an `id` attribute from `a` succeeds, it does so
/// before `b`, behind a stretch without `>`, or it gets as far as `b` without
/// meeting a `>` and succeeds from there.
proof fn lemma_id_found(s: Seq<char>, a: int, b: int) -> (q: int)
    requires
        0 <= a <= b <= s.len(),
        has_id_attr(s, a),
    ensures
        a <= q <= b,
        forall|t: int| a <= t < q ==> s[t] != '>',
        q < b ==> matches_at(s, q, ID_ATTR@),
        q == b ==> has_id_attr(s, b),
    decreases b - a,
{
    if a == b {
        a
    } else if matches_at(s, a, ID_ATTR@) {
        a
    } else {
        let q = lemma_id_found(s, a + 1, b);
        q
    }
}

/// How the output begins: a character other than `<` is copied, and where the
/// input has a `<` the output has one.
proof fn lemma_output_head(
    s: Seq<char>,
    i: int,
    anchors: Seq<Seq<char>>,
    k: int,
    sizes: Option<Map<Seq<char>, WidthAndHeight>>,
)
    requires
        0 <= i < s.len(),
    ensures
        anchored_from(s, i, anchors, k, sizes).len() > 0,
        s[i] != '<' ==> anchored_from(s, i, anchors, k, sizes) == seq![s[i]] + anchored_from(
            s,
            i + 1,
            anchors,
            k,
            sizes,
        ),
        s[i] == '<' ==> anchored_from(s, i, anchors, k, sizes)[0] == '<',
{
    if heading_tag_at(s, i) && 0 <= k < anchors.len() {
        lemma_injected_tag(s[i + 2], anchors[k]);
    }
    match sizes {
        Some(m) => {
            if image_rewrite(s, i, sizes) is Some {
                lemma_image_rewrite(s, i, m);
                let rw = image_rewrite(s, i, sizes)->0;
                let to = rw.next - 1;
                let src = s.subrange(i + 10, to);
                lemma_image_tail(m[src]);
                assert(rw.text[0] == s.subrange(i, to)[0]);
            }
        },
        None => {},
    }
}

/// An `id` attribute that the input holds before the end of a tag is held by
/// the output too.
proof fn lemma_id_survives(
    s: Seq<char>,
    j: int,
    anchors: Seq<Seq<char>>,
    k: int,
    sizes: Option<Map<Seq<char>, WidthAndHeight>>,
)
    requires
        0 <= j,
        has_id_attr(s, j),
        sources_clean(sizes),
    ensures
        has_id_attr(anchored_from(s, j, anchors, k, sizes), 0),
    decreases s.len() - j, 1int,
{
    reveal_strlit(" id=\"");
    let out = anchored_from(s, j, anchors, k, sizes);
    lemma_output_head(s, j, anchors, k, sizes);
    if matches_at(s, j, ID_ATTR@) {
        let pat = s.subrange(j, j + 5);
        assert(pat[0] == ' ' && pat[1] == 'i' && pat[2] == 'd' && pat[3] == '=' && pat[4] == '"');
        lemma_output_head(s, j + 1, anchors, k, sizes);
        lemma_output_head(s, j + 2, anchors, k, sizes);
        lemma_output_head(s, j + 3, anchors, k, sizes);
        lemma_output_head(s, j + 4, anchors, k, sizes);
        assert(out.subrange(0, 5) =~= ID_ATTR@);
    } else {
        assert(has_id_attr(s, j + 1));
        if s[j] != '<' {
            lemma_id_survives(s, j + 1, anchors, k, sizes);
            lemma_behind_prefix(seq![s[j]], anchored_from(s, j + 1, anchors, k, sizes), 0);
        } else if heading_tag_at(s, j) {
            // The search that found the attribute went through the tag's name.
            assert(!matches_at(s, j + 1, ID_ATTR@)) by {
                if matches_at(s, j + 1, ID_ATTR@) {
                    assert(s.subrange(j + 1, j + 6)[0] == ' ');
                }
            }
            assert(has_id_attr(s, j + 2));
            assert(!matches_at(s, j + 2, ID_ATTR@)) by {
                if matches_at(s, j + 2, ID_ATTR@) {
                    assert(s.subrange(j + 2, j + 7)[0] == ' ');
                }
            }
            assert(has_id_attr(s, j + 3));
            let k1 = next_index(k, anchors.len() as int);
            lemma_id_survives(s, j + 1, anchors, k1, sizes);
            lemma_behind_prefix(seq![s[j]], anchored_from(s, j + 1, anchors, k1, sizes), 0);
        } else if image_rewrite(s, j, sizes) is Some {
            lemma_id_through_image(s, j, anchors, k, sizes->0);
        } else {
            lemma_id_survives(s, j + 1, anchors, k, sizes);
            lemma_behind_prefix(seq![s[j]], anchored_from(s, j + 1, anchors, k, sizes), 0);
        }
    }
}

/// The case of [`lemma_id_survives`] in which an image tag is rewritten at
/// `j`.
proof fn lemma_id_through_image(
    s: Seq<char>,
    j: int,
    anchors: Seq<Seq<char>>,
    k: int,
    m: Map<Seq<char>, WidthAndHeight>,
)
    requires
        0 <= j,
        has_id_attr(s, j + 1),
        !heading_tag_at(s, j),
        image_rewrite(s, j, Some(m)) is Some,
        sources_clean(Some(m)),
    ensures
        has_id_attr(anchored_from(s, j, anchors, k, Some(m)), 0),
    decreases s.len() - j, 0int,
{
    reveal_strlit(" id=\"");
    let sizes = Some(m);
    lemma_image_rewrite(s, j, m);
    lemma_image_text(s, j, m);
    let rw = image_rewrite(s, j, sizes)->0;
    let to = rw.next - 1;
    let rest = anchored_from(s, rw.next, anchors, k, sizes);
    let out = rw.text + rest;
    assert(anchored_from(s, j, anchors, k, sizes) == out);
    let q = lemma_id_found(s, j + 1, to + 1);
    if q <= to {
        // The attribute lies inside the tag that is copied: it ends where the
        // source ends at the latest, since it holds no quote before its end.
        let pat = s.subrange(q, q + 5);
        assert(pat[0] == ' ' && pat[1] == 'i' && pat[2] == 'd' && pat[3] == '=' && pat[4] == '"');
        assert(q + 5 <= to + 1) by {
            if q + 5 > to + 1 {
                assert(pat[to - q] == s[to]);
            }
        }
        assert(out.subrange(q - j, q - j + 5) =~= s.subrange(q, q + 5)) by {
            assert(out[q - j] == rw.text[q - j]);
            assert(out[q - j + 1] == rw.text[q - j + 1]);
            assert(out[q - j + 2] == rw.text[q - j + 2]);
            assert(out[q - j + 3] == rw.text[q - j + 3]);
            assert(out[q - j + 4] == rw.text[q - j + 4]);
        }
        assert forall|t: int| 0 <= t < q - j implies out[t] != '>' by {
            assert(out[t] == rw.text[t]);
            if t >= 1 {
                assert(s[j + t] != '>');
            }
        }
        lemma_id_at(out, 0, q - j);
    } else {
        lemma_id_survives(s, to + 1, anchors, k, sizes);
        lemma_behind_prefix(rw.text, rest, 0);
        assert forall|t: int| 0 <= t < rw.text.len() implies out[t] != '>' by {
            assert(out[t] == rw.text[t]);
            if 1 <= t < to - j {
                assert(s[j + t] != '>');
            }
        }
        lemma_id_behind_stretch(out, 0, rw.text.len() as int);
    }
}

/// A heading tag in an output that begins with a rewritten tag carries an
/// `id`, if those in the rest of the output do and the rewritten tag opens a
/// heading with an `id` or opens none.
proof fn lemma_tag_then_rest(tag: Seq<char>, rest: Seq<char>, p: int)
    requires
        tag.len() >= 8,
        tag[0] == '<',
        tag[1] != 'h' || (tag[3] == ' ' && matches_at(tag, 3, ID_ATTR@)),
        forall|t: int| 1 <= t < tag.len() ==> tag[t] != '<',
        heading_tag_at(tag + rest, p),
        p >= tag.len() ==> has_id_attr(rest, p - tag.len() + 3),
    ensures
        has_id_attr(tag + rest, p + 3),
{
    let out = tag + rest;
    if p == 0 {
        assert(out[1] == tag[1]);
        assert(out.subrange(3, 3 + ID_ATTR@.len() as int) =~= tag.subrange(
            3,
            3 + ID_ATTR@.len() as int,
        ));
        assert(out[3] == ' ');
    } else if p < tag.len() {
        assert(out[p] == tag[p]);
    } else {
        lemma_behind_prefix(tag, rest, p - tag.len() + 3);
    }
}

/// Where the output copies a `<` and opens a heading tag with it, the input
/// opens one too, and the tag's name is copied with it.
proof fn lemma_copied_tag(
    s: Seq<char>,
    i: int,
    anchors: Seq<Seq<char>>,
    k: int,
    sizes: Option<Map<Seq<char>, WidthAndHeight>>,
)
    requires
        0 <= i < s.len(),
        heading_tag_at(seq![s[i]] + anchored_from(s, i + 1, anchors, k, sizes), 0),
    ensures
        heading_tag_at(s, i),
        seq![s[i]] + anchored_from(s, i + 1, anchors, k, sizes) == seq![s[i], s[i + 1], s[i + 2]]
            + anchored_from(s, i + 3, anchors, k, sizes),
{
    let rest = anchored_from(s, i + 1, anchors, k, sizes);
    let out = seq![s[i]] + rest;
    assert(out[0] == s[i]);
    assert(out[1] == rest[0] && out[2] == rest[1] && out[3] == rest[2]);
    assert(i + 1 < s.len());
    lemma_output_head(s, i + 1, anchors, k, sizes);
    let rest2 = anchored_from(s, i + 2, anchors, k, sizes);
    assert(rest == seq![s[i + 1]] + rest2);
    assert(rest[1] == rest2[0] && rest[2] == rest2[1]);
    assert(i + 2 < s.len());
    lemma_output_head(s, i + 2, anchors, k, sizes);
    let rest3 = anchored_from(s, i + 3, anchors, k, sizes);
    assert(rest2 == seq![s[i + 2]] + rest3);
    assert(rest2[1] == rest3[0]);
    assert(i + 3 < s.len());
    lemma_output_head(s, i + 3, anchors, k, sizes);
    assert(rest3[0] == s[i + 3]);
    assert(out =~= seq![s[i], s[i + 1], s[i + 2]] + rest3);
}

/// Every heading tag of the body that comes out carries an `id` attribute:
/// the anchor that was handed to it, or the one it came with. This holds when
/// the anchors are enough for the headings, and neither an anchor nor an
/// image source on record holds a `<`.
pub proof fn lemma_headings_carry_ids(
    s: Seq<char>,
    i: int,
    anchors: Seq<Seq<char>>,
    k: int,
    sizes: Option<Map<Seq<char>, WidthAndHeight>>,
    p: int,
)
    requires
        0 <= i,
        0 <= k,
        anchors_clean(anchors),
        sources_clean(sizes),
        anchors_suffice(s, i, anchors.len() as int, k, sizes),
        heading_tag_at(anchored_from(s, i, anchors, k, sizes), p),
    ensures
        has_id_attr(anchored_from(s, i, anchors, k, sizes), p + 3),
    decreases s.len() - i,
{
    let n = anchors.len() as int;
    if i < s.len() {
        if heading_tag_at(s, i) && (s[i + 3] == '>' || !has_id_attr(s, i + 3)) {
            let closed = s[i + 3] == '>';
            let plain = injected_tag(s[i + 2], anchors[k]);
            let tag = if closed {
                plain.push('>')
            } else {
                plain
            };
            let next = if closed {
                i + 4
            } else {
                i + 3
            };
            let rest = anchored_from(s, next, anchors, k + 1, sizes);
            lemma_injected_tag(s[i + 2], anchors[k]);
            assert forall|t: int| 0 <= t < anchors[k].len() implies anchors[k][t] != '<' by {
                assert(anchors[k][t] != '<');
            }
            lemma_injected_tag_clean(s[i + 2], anchors[k]);
            assert(tag.subrange(3, 3 + ID_ATTR@.len() as int) =~= plain.subrange(
                3,
                3 + ID_ATTR@.len() as int,
            ));
            if p >= tag.len() {
                lemma_behind_prefix(tag, rest, p - tag.len());
                lemma_headings_carry_ids(s, next, anchors, k + 1, sizes, p - tag.len());
            }
            lemma_tag_then_rest(tag, rest, p);
        } else if !heading_tag_at(s, i) && image_rewrite(s, i, sizes) is Some {
            let m = sizes->0;
            lemma_image_rewrite(s, i, m);
            lemma_image_text(s, i, m);
            let rw = image_rewrite(s, i, sizes)->0;
            let rest = anchored_from(s, rw.next, anchors, k, sizes);
            if p >= rw.text.len() {
                lemma_behind_prefix(rw.text, rest, p - rw.text.len());
                lemma_headings_carry_ids(s, rw.next, anchors, k, sizes, p - rw.text.len());
            }
            lemma_tag_then_rest(rw.text, rest, p);
        } else {
            let k1 = if heading_tag_at(s, i) && s[i + 3] == ' ' {
                next_index(k, n)
            } else {
                k
            };
            if heading_tag_at(s, i) {
                lemma_heading_is_no_image(s, i, sizes);
            }
            let head = seq![s[i]];
            let rest = anchored_from(s, i + 1, anchors, k1, sizes);
            if p >= 1 {
                lemma_behind_prefix(head, rest, p - 1);
                lemma_headings_carry_ids(s, i + 1, anchors, k1, sizes, p - 1);
                lemma_behind_prefix(head, rest, p + 2);
            } else {
                lemma_copied_tag(s, i, anchors, k1, sizes);
                lemma_id_survives(s, i + 3, anchors, k1, sizes);
                lemma_behind_prefix(
                    seq![s[i], s[i + 1], s[i + 2]],
                    anchored_from(s, i + 3, anchors, k1, sizes),
                    0,
                );
            }
        }
    }
}

/// An anchor that is handed to a heading tag stands in that tag as its `id`.
pub proof fn lemma_injected_anchor(
    s: Seq<char>,
    i: int,
    anchors: Seq<Seq<char>>,
    k: int,
    sizes: Option<Map<Seq<char>, WidthAndHeight>>,
)
    requires
        heading_tag_at(s, i),
        0 <= k < anchors.len(),
        s[i + 3] == '>' || !has_id_attr(s, i + 3),
    ensures
        matches_at(
            anchored_from(s, i, anchors, k, sizes),
            0,
            "<h"@.push(s[i + 2]) + ID_ATTR@ + anchors[k] + "\""@,
        ),
{
    let tag = injected_tag(s[i + 2], anchors[k]);
    let out = anchored_from(s, i, anchors, k, sizes);
    assert(out.subrange(0, tag.len() as int) =~= tag);
}

/// URL prefix under which documents are served.
pub const HOME_DIR: &'static str = "/home";

/// Where a path stands while it is split at its slashes: the segments that
/// are complete and the one in progress.
pub struct SplitState {
    pub done: Seq<Seq<char>>,
    pub cur: Seq<char>,
}

/// The split of a path after its last character.
pub open spec fn split_state(path: Seq<char>) -> SplitState
    decreases path.len(),
{
    if path.len() == 0 {
        SplitState { done: Seq::empty(), cur: Seq::empty() }
    } else {
        let s = split_state(path.drop_last());
        if path.last() == '/' {
            SplitState {
                done: if s.cur.len() > 0 {
                    s.done.push(s.cur)
                } else {
                    s.done
                },
                cur: Seq::empty(),
            }
        } else {
            SplitState { done: s.done, cur: s.cur.push(path.last()) }
        }
    }
}

/// The segments of a path: the non-empty stretches between its slashes.
pub open spec fn path_segments(path: Seq<char>) -> Seq<Seq<char>> {
    let s = split_state(path);
    if s.cur.len() > 0 {
        s.done.push(s.cur)
    } else {
        s.done
    }
}

/// Splits a path into its segments.
pub fn split_path(path: &str) -> (r: Vec<String>)
    ensures
        string_views(r@) == path_segments(path@),
{
    let chars = str_chars(path);
    let mut done: Vec<String> = Vec::new();
    let mut cur: Vec<char> = Vec::new();
    let mut i: usize = 0;
    proof {
        assert(chars@.subrange(0, 0) =~= Seq::<char>::empty());
        assert(string_views(done@) =~= Seq::<Seq<char>>::empty());
    }
    while i < chars.len()
        invariant
            i <= chars.len(),
            string_views(done@) == split_state(chars@.subrange(0, i as int)).done,
            cur@ == split_state(chars@.subrange(0, i as int)).cur,
        decreases chars.len() - i,
    {
        proof {
            assert(chars@.subrange(0, i + 1).drop_last() =~= chars@.subrange(0, i as int));
            assert(chars@.subrange(0, i + 1).last() == chars@[i as int]);
        }
        if chars[i] == '/' {
            if cur.len() > 0 {
                let ghost before = string_views(done@);
                let seg = string_from_chars(&cur);
                done.push(seg);
                assert(string_views(done@) =~= before.push(cur@));
            }
            cur = Vec::new();
        } else {
            cur.push(chars[i]);
        }
        i += 1;
    }
    assert(chars@.subrange(0, i as int) =~= chars@);
    if cur.len() > 0 {
        let ghost before = string_views(done@);
        let seg = string_from_chars(&cur);
        done.push(seg);
        assert(string_views(done@) =~= before.push(cur@));
    }
    done
}

/// The crumbs of a run of segments that continues the URL `url`: each
/// segment other than `skip` extends the URL by its encoded name and a slash,
/// and is labelled with its name.
pub open spec fn crumb_trail(segments: Seq<Seq<char>>, skip: Seq<char>, url: Seq<char>) -> Seq<
    ExternalLinkView,
>
    decreases segments.len(),
{
    if segments.len() == 0 {
        Seq::empty()
    } else if segments[0] == skip {
        crumb_trail(segments.drop_first(), skip, url)
    } else {
        let next = url + url_encoded(segments[0]) + "/"@;
        seq![ExternalLinkView { url: next, name: segments[0] }] + crumb_trail(
            segments.drop_first(),
            skip,
            next,
        )
    }
}

/// The crumb of the site home.
pub open spec fn home_crumb() -> ExternalLinkView {
    ExternalLinkView { url: "/home/"@, name: "Home"@ }
}

/// Mathematical value of [`Breadcrumbs`].
pub struct BreadcrumbsView {
    pub crumbs: Seq<ExternalLinkView>,
    pub label: Option<Seq<char>>,
}

/// The breadcrumbs of a document path: the home crumb, a crumb for every
/// segment before the last, and the last segment as a label without a link.
/// Segments named `skip`, the index file, are left out of both.
pub open spec fn breadcrumbs_of(path: Seq<char>, skip: Seq<char>) -> BreadcrumbsView {
    let segments = path_segments(path);
    if segments.len() == 0 {
        BreadcrumbsView { crumbs: seq![home_crumb()], label: None }
    } else {
        BreadcrumbsView {
            crumbs: seq![home_crumb()] + crumb_trail(segments.drop_last(), skip, "/home/"@),
            label: if segments.last() == skip {
                None
            } else {
                Some(segments.last())
            },
        }
    }
}

/// A trail has at most one crumb per segment, and exactly one per segment
/// when no segment is the one to leave out.
pub proof fn lemma_crumb_trail_len(segments: Seq<Seq<char>>, skip: Seq<char>, url: Seq<char>)
    ensures
        crumb_trail(segments, skip, url).len() <= segments.len(),
        (forall|i: int| 0 <= i < segments.len() ==> segments[i] != skip) ==> crumb_trail(
            segments,
            skip,
            url,
        ).len() == segments.len(),
    decreases segments.len(),
{
    if segments.len() > 0 {
        let next = url + url_encoded(segments[0]) + "/"@;
        lemma_crumb_trail_len(segments.drop_first(), skip, url);
        lemma_crumb_trail_len(segments.drop_first(), skip, next);
        if forall|i: int| 0 <= i < segments.len() ==> segments[i] != skip {
            assert forall|i: int| 0 <= i < segments.drop_first().len() implies segments.drop_first()[i]
                != skip by {
                assert(segments.drop_first()[i] == segments[i + 1]);
            }
        }
    }
}

/// A breadcrumb trail: the crumbs that link somewhere, and the label of the
/// document itself.
#[derive(Debug)]
pub struct Breadcrumbs {
    pub crumbs: Vec<ExternalLink>,
    pub label: Option<String>,
}

impl View for Breadcrumbs {
    type V = BreadcrumbsView;

    open spec fn view(&self) -> BreadcrumbsView {
        BreadcrumbsView { crumbs: external_link_views(self.crumbs@), label: opt_view(self.label) }
    }
}

/// Builds the breadcrumbs of the document at `path`: see [`breadcrumbs_of`].
pub fn get_breadcrumbs(path: &str, skip: &str) -> (r: Breadcrumbs)
    ensures
        r@ == breadcrumbs_of(path@, skip@),
{
    let parts = split_path(path);
    let ghost segments = string_views(parts@);
    let mut crumbs: Vec<ExternalLink> = Vec::new();
    let mut url = concat2(HOME_DIR, "/");
    proof {
        reveal_strlit("/home");
        reveal_strlit("/");
        reveal_strlit("/home/");
        assert(url@ =~= "/home/"@);
    }
    crumbs.push(ExternalLink::new(url.clone(), "Home".to_string()));
    assert(external_link_views(crumbs@) =~= seq![home_crumb()]);
    if parts.len() == 0 {
        return Breadcrumbs { crumbs, label: None };
    }
    let last = parts.len() - 1;
    let ghost inter = segments.drop_last();
    let mut i: usize = 0;
    proof {
        assert(inter.skip(0) =~= inter);
    }
    while i < last
        invariant
            i <= last,
            last == parts.len() - 1,
            segments == string_views(parts@),
            inter == segments.drop_last(),
            external_link_views(crumbs@) + crumb_trail(inter.skip(i as int), skip@, url@) == seq![
                home_crumb(),
            ] + crumb_trail(inter, skip@, "/home/"@),
        decreases last - i,
    {
        let p = &parts[i];
        proof {
            assert(inter.skip(i as int)[0] == p@);
            assert(inter.skip(i as int).drop_first() =~= inter.skip(i + 1));
        }
        if !str_eq(p.as_str(), skip) {
            let ghost before = external_link_views(crumbs@);
            let encoded = url_encode(p.as_str());
            url = concat3(url.as_str(), encoded.as_str(), "/");
            let link = ExternalLink::new(url.clone(), p.clone());
            crumbs.push(link);
            assert(external_link_views(crumbs@) =~= before + seq![link@]);
            assert(before + seq![link@] + crumb_trail(inter.skip(i + 1), skip@, url@) =~= before + (
            seq![link@] + crumb_trail(inter.skip(i + 1), skip@, url@)));
        }
        i += 1;
    }
    proof {
        assert(inter.skip(i as int) =~= Seq::<Seq<char>>::empty());
        assert(external_link_views(crumbs@) + Seq::<ExternalLinkView>::empty()
            =~= external_link_views(crumbs@));
    }
    let label = if str_eq(parts[last].as_str(), skip) {
        None
    } else {
        Some(parts[last].clone())
    };
    Breadcrumbs { crumbs, label }
}

/// One entry of the site menu.
#[derive(Debug)]
pub struct MenuItem {
    pub title: String,
    pub target: String,
}

/// Mathematical value of a [`MenuItem`].
pub struct MenuItemView {
    pub title: Seq<char>,
    pub target: Seq<char>,
}

impl View for MenuItem {
    type V = MenuItemView;

    open spec fn view(&self) -> MenuItemView {
        MenuItemView { title: self.title@, target: self.target@ }
    }
}

impl Clone for MenuItem {
    fn clone(&self) -> (r: Self)
        ensures
            r@ == self@,
    {
        MenuItem { title: self.title.clone(), target: self.target.clone() }
    }
}

/// The views of a menu.
pub open spec fn menu_views(s: Seq<MenuItem>) -> Seq<MenuItemView> {
    s.map_values(|m: MenuItem| m@)
}

/// A value that a template variable is bound to.
#[derive(Debug)]
pub enum TemplateValue {
    Text(String),
    Flag(bool),
    Menu(Vec<MenuItem>),
    DocLinks(Vec<InternalLink>),
    Peers(Option<PeerInfo>),
    CodeLanguages(Vec<String>),
    Breadcrumbs(Vec<ExternalLink>),
    Results(Vec<SearchResult>),
}

/// Mathematical value of a [`TemplateValue`].
pub enum TemplateValueView {
    Text(Seq<char>),
    Flag(bool),
    Menu(Seq<MenuItemView>),
    DocLinks(Seq<InternalLinkView>),
    Peers(Option<PeerInfoView>),
    CodeLanguages(Seq<Seq<char>>),
    Breadcrumbs(Seq<ExternalLinkView>),
    Results(Seq<SearchResultView>),
}

impl View for TemplateValue {
    type V = TemplateValueView;

    open spec fn view(&self) -> TemplateValueView {
        match *self {
            TemplateValue::Text(s) => TemplateValueView::Text(s@),
            TemplateValue::Flag(b) => TemplateValueView::Flag(b),
            TemplateValue::Menu(m) => TemplateValueView::Menu(menu_views(m@)),
            TemplateValue::DocLinks(l) => TemplateValueView::DocLinks(link_views(l@)),
            TemplateValue::Peers(p) => TemplateValueView::Peers(opt_peer_view(p)),
            TemplateValue::CodeLanguages(l) => TemplateValueView::CodeLanguages(string_views(l@)),
            TemplateValue::Breadcrumbs(c) => TemplateValueView::Breadcrumbs(
                external_link_views(c@),
            ),
            TemplateValue::Results(r) => TemplateValueView::Results(result_views(r@)),
        }
    }
}

/// A template variable and what it is bound to.
#[derive(Debug)]
pub struct TemplateVar {
    pub name: String,
    pub value: TemplateValue,
}

/// Mathematical value of a [`TemplateVar`].
pub struct TemplateVarView {
    pub name: Seq<char>,
    pub value: TemplateValueView,
}

impl View for TemplateVar {
    type V = TemplateVarView;

    open spec fn view(&self) -> TemplateVarView {
        TemplateVarView { name: self.name@, value: self.value@ }
    }
}

/// The views of a list of bindings.
pub open spec fn var_views(s: Seq<TemplateVar>) -> Seq<TemplateVarView> {
    s.map_values(|v: TemplateVar| v@)
}

/// A page ready to be rendered: the template and its bindings, in the order
/// in which they are made; a later binding of a name replaces an earlier one.
#[derive(Debug)]
pub struct Page {
    pub template: String,
    pub vars: Vec<TemplateVar>,
}

/// Mathematical value of a [`Page`].
pub struct PageView {
    pub template: Seq<char>,
    pub vars: Seq<TemplateVarView>,
}

impl View for Page {
    type V = PageView;

    open spec fn view(&self) -> PageView {
        PageView { template: self.template@, vars: var_views(self.vars@) }
    }
}

/// A text binding.
pub open spec fn text_var(name: Seq<char>, value: Seq<char>) -> TemplateVarView {
    TemplateVarView { name, value: TemplateValueView::Text(value) }
}

fn push_text(vars: &mut Vec<TemplateVar>, name: &str, value: &str)
    ensures
        var_views(final(vars)@) == var_views(old(vars)@).push(text_var(name@, value@)),
{
    let v = TemplateVar {
        name: String::from_str(name),
        value: TemplateValue::Text(String::from_str(value)),
    };
    vars.push(v);
    assert(var_views(vars@) =~= var_views(old(vars)@).push(text_var(name@, value@)));
}

fn push_var(vars: &mut Vec<TemplateVar>, name: &str, value: TemplateValue)
    ensures
        var_views(final(vars)@) == var_views(old(vars)@).push(
            TemplateVarView { name: name@, value: value@ },
        ),
{
    let v = TemplateVar { name: String::from_str(name), value };
    vars.push(v);
    assert(var_views(vars@) =~= var_views(old(vars)@).push(
        TemplateVarView { name: name@, value: value@ },
    ));
}

/// A template file: the name it is registered under and where it lies.
#[derive(Debug)]
pub struct TemplateFile {
    pub name: String,
    pub path: String,
}

/// Mathematical value of a [`TemplateFile`].
pub struct TemplateFileView {
    pub name: Seq<char>,
    pub path: Seq<char>,
}

impl View for TemplateFile {
    type V = TemplateFileView;

    open spec fn view(&self) -> TemplateFileView {
        TemplateFileView { name: self.name@, path: self.path@ }
    }
}

/// The views of a list of template files.
pub open spec fn template_views(s: Seq<TemplateFile>) -> Seq<TemplateFileView> {
    s.map_values(|t: TemplateFile| t@)
}

/// The template file that a listing entry below `root` stands for.
pub open spec fn template_file(root: Seq<char>, e: FoundFileView) -> TemplateFileView {
    TemplateFileView {
        name: e.file_name,
        path: if e.parent.len() == 0 {
            root + "/"@ + e.file_name
        } else {
            root + "/"@ + e.parent + "/"@ + e.file_name
        },
    }
}

/// Whether a template named `name` is among `templates`.
pub open spec fn has_template(templates: Seq<TemplateFileView>, name: Seq<char>) -> bool {
    exists|i: int| 0 <= i < templates.len() && (#[trigger] templates[i]).name == name
}

/// The templates of `found` below `root` added to `chosen`: one whose name is
/// taken already is passed over, so the first occurrence of a name wins.
pub open spec fn with_templates(
    chosen: Seq<TemplateFileView>,
    root: Seq<char>,
    found: Seq<FoundFileView>,
) -> Seq<TemplateFileView>
    decreases found.len(),
{
    if found.len() == 0 {
        chosen
    } else {
        let before = with_templates(chosen, root, found.drop_last());
        if has_template(before, found.last().file_name) {
            before
        } else {
            before.push(template_file(root, found.last()))
        }
    }
}

/// The templates to load: the HTML files of the user's template directory,
/// then those of the built-in one whose names are still free.
pub open spec fn selected_templates(
    user_root: Seq<char>,
    user: Seq<FoundFileView>,
    internal_root: Seq<char>,
    internal: Seq<FoundFileView>,
) -> Seq<TemplateFileView> {
    with_templates(
        with_templates(Seq::empty(), user_root, entries_with_extension(user, "html"@, false)),
        internal_root,
        entries_with_extension(internal, "html"@, false),
    )
}

/// The first of the required templates that is missing from `templates`.
pub open spec fn missing_template(templates: Seq<TemplateFileView>) -> Option<Seq<char>> {
    if !has_template(templates, "markdown.html"@) {
        Some("markdown.html"@)
    } else if !has_template(templates, "index.html"@) {
        Some("index.html"@)
    } else if !has_template(templates, "search.html"@) {
        Some("search.html"@)
    } else if !has_template(templates, "error.html"@) {
        Some("error.html"@)
    } else {
        None
    }
}

fn contains_template(templates: &Vec<TemplateFile>, name: &str) -> (r: bool)
    ensures
        r == has_template(template_views(templates@), name@),
{
    let mut i: usize = 0;
    while i < templates.len()
        invariant
            i <= templates.len(),
            forall|j: int| 0 <= j < i ==> (#[trigger] template_views(templates@)[j]).name != name@,
        decreases templates.len() - i,
    {
        if str_eq(templates[i].name.as_str(), name) {
            assert(template_views(templates@)[i as int].name == name@);
            return true;
        }
        i += 1;
    }
    false
}

fn add_templates(chosen: &mut Vec<TemplateFile>, root: &str, found: &Vec<FoundFile>)
    ensures
        template_views(final(chosen)@) == with_templates(
            template_views(old(chosen)@),
            root@,
            found_views(found@),
        ),
{
    let ghost views = found_views(found@);
    let ghost start = template_views(chosen@);
    let mut i: usize = 0;
    assert(views.take(0) =~= Seq::<FoundFileView>::empty());
    while i < found.len()
        invariant
            i <= found.len(),
            views == found_views(found@),
            template_views(chosen@) == with_templates(start, root@, views.take(i as int)),
        decreases found.len() - i,
    {
        let e = &found[i];
        proof {
            assert(views.take(i + 1).drop_last() =~= views.take(i as int));
            assert(views.take(i + 1).last() == e@);
        }
        if !contains_template(chosen, e.file_name.as_str()) {
            let ghost before = template_views(chosen@);
            let path = if e.parent.as_str().is_empty() {
                concat3(root, "/", e.file_name.as_str())
            } else {
                let dir = concat3(root, "/", e.parent.as_str());
                concat3(dir.as_str(), "/", e.file_name.as_str())
            };
            let t = TemplateFile { name: e.file_name.clone(), path };
            chosen.push(t);
            assert(template_views(chosen@) =~= before.push(template_file(root@, e@)));
        }
        i += 1;
    }
    assert(views.take(i as int) =~= views);
}

/// What a generator is set up with.
pub struct HtmlGeneratorCfg<'a> {
    pub user_template_root: String,
    pub internal_template_root: String,
    /// Listing of the user's template directory.
    pub user_template_files: Vec<FoundFile>,
    /// Listing of the built-in template directory.
    pub internal_template_files: Vec<FoundFile>,
    pub site_title: &'a str,
    pub index_file: &'a str,
    pub site_lang: &'a str,
    pub highlight_style: &'a str,
    /// Menu entries, label first, in menu order.
    pub menu: Vec<(String, String)>,
    pub file_manager: &'a FileManager,
    pub image_size_cache: Option<ImageSizeCache>,
    /// Version of the server, shown by the templates.
    pub version: &'a str,
}

/// Composes pages: holds the site-wide values every template sees and the
/// templates to load.
pub struct HtmlGenerator {
    pub templates: Vec<TemplateFile>,
    pub site_title: String,
    pub site_lang: String,
    pub highlight_style: String,
    pub index_file: String,
    pub menu: Vec<MenuItem>,
    pub image_size_cache: Option<ImageSizeCache>,
    pub version: String,
}

/// The menu that a list of label and target pairs stands for.
pub open spec fn menu_of(pairs: Seq<(String, String)>) -> Seq<MenuItemView> {
    pairs.map_values(|p: (String, String)| MenuItemView { title: p.0@, target: p.1@ })
}

/// The message of the error for a missing required template.
pub open spec fn missing_template_message(name: Seq<char>) -> Seq<char> {
    "Missing template: "@ + name
}

/// The bindings every template sees.
pub open spec fn base_vars(g: &HtmlGenerator, title: Seq<char>, has_code: bool) -> Seq<
    TemplateVarView,
> {
    seq![
        text_var("title"@, title),
        text_var("site_title"@, g.site_title@),
        text_var("site_lang"@, g.site_lang@),
        text_var("highlight_style"@, g.highlight_style@),
        TemplateVarView { name: "has_code"@, value: TemplateValueView::Flag(has_code) },
        text_var("version"@, g.version@),
        TemplateVarView { name: "menu"@, value: TemplateValueView::Menu(menu_views(g.menu@)) },
    ]
}

/// The title of a search page.
pub open spec fn search_title(g: &HtmlGenerator) -> Seq<char> {
    g.site_title@ + ": Search results"@
}

/// The search page for a query and its results; the results are bound only
/// when there are any.
pub open spec fn search_page(g: &HtmlGenerator, query: Seq<char>, results: Seq<SearchResultView>) -> PageView {
    let head = base_vars(g, search_title(g), false) + seq![
        text_var("query"@, query),
        text_var("placeholder"@, query),
    ];
    PageView {
        template: "search.html"@,
        vars: if results.len() > 0 {
            head.push(
                TemplateVarView { name: "results"@, value: TemplateValueView::Results(results) },
            )
        } else {
            head
        },
    }
}

/// The search page without a query.
pub open spec fn blank_search_page(g: &HtmlGenerator) -> PageView {
    PageView {
        template: "search.html"@,
        vars: base_vars(g, search_title(g), false) + seq![
            text_var("query"@, Seq::empty()),
            text_var("placeholder"@, "Search..."@),
        ],
    }
}

/// The error page.
pub open spec fn error_page(
    g: &HtmlGenerator,
    error_code: Seq<char>,
    heading: Seq<char>,
    message: Seq<char>,
) -> PageView {
    PageView {
        template: "error.html"@,
        vars: base_vars(g, g.site_title@ + ": Error"@, false) + seq![
            text_var("error_code"@, error_code),
            text_var("heading"@, heading),
            text_var("message"@, message),
        ],
    }
}

/// The name a path is shown under: its last segment, or the path itself
/// when it has none.
pub open spec fn display_name(path: Seq<char>) -> Seq<char> {
    if path_segments(path).len() > 0 {
        path_segments(path).last()
    } else {
        path
    }
}

/// The text that the label of a trail is bound to: the label, or nothing
/// where the trail has none.
pub open spec fn label_text(label: Option<Seq<char>>) -> Seq<char> {
    match label {
        Some(l) => l,
        None => Seq::empty(),
    }
}

/// The page of a directory listing.
pub open spec fn index_page(g: &HtmlGenerator, path: Seq<char>, peers: Option<PeerInfoView>) -> PageView {
    PageView {
        template: "index.html"@,
        vars: base_vars(g, g.site_title@ + ": "@ + display_name(path), false) + seq![
            text_var("path"@, display_name(path)),
            TemplateVarView {
                name: "breadcrumbs"@,
                value: TemplateValueView::Breadcrumbs(breadcrumbs_of(path, g.index_file@).crumbs),
            },
            text_var("breadcrumb_label"@, label_text(breadcrumbs_of(path, g.index_file@).label)),
            TemplateVarView {
                name: "doclinks"@,
                value: TemplateValueView::DocLinks(seq![contents_link()]),
            },
            TemplateVarView { name: "peers"@, value: TemplateValueView::Peers(peers) },
            text_var("body"@, Seq::empty()),
        ],
    }
}

/// The bindings of the front-matter entries, in entry order.
pub open spec fn metadata_vars(entries: Seq<(String, String)>) -> Seq<TemplateVarView> {
    entries.map_values(|e: (String, String)| text_var(e.0@, e.1@))
}

/// The title of a document: the one scraped from it, or the name of the
/// file.
pub open spec fn document_title(path: Seq<char>, scraped: Option<Seq<char>>) -> Seq<char> {
    match scraped {
        Some(t) => t,
        None => if file_name_of(path).len() > 0 {
            file_name_of(path)
        } else {
            path
        },
    }
}

/// The page of a document: the template its front-matter selects, the
/// bindings every template sees, the document's own, among them the crumbs
/// of its trail and the trail's label, and one for every front-matter entry.
pub open spec fn markdown_page(
    g: &HtmlGenerator,
    path: Seq<char>,
    body: Seq<char>,
    scraper: &DocumentScraper,
    peers: Option<PeerInfoView>,
) -> PageView {
    PageView {
        template: template_of(scraper@.metadata),
        vars: base_vars(
            g,
            g.site_title@ + ": "@ + document_title(path, scraper@.title),
            scraper@.has_code_blocks,
        ) + seq![
            text_var(
                "body"@,
                with_anchors(
                    body,
                    anchors_of(scraper@.internal_links),
                    !scraper@.starts_with_heading,
                    sizes_view(g.image_size_cache),
                ),
            ),
            TemplateVarView {
                name: "doclinks"@,
                value: TemplateValueView::DocLinks(scraper@.internal_links),
            },
            TemplateVarView { name: "peers"@, value: TemplateValueView::Peers(peers) },
            TemplateVarView {
                name: "code_languages"@,
                value: TemplateValueView::CodeLanguages(scraper@.code_languages),
            },
            TemplateVarView {
                name: "breadcrumbs"@,
                value: TemplateValueView::Breadcrumbs(breadcrumbs_of(path, g.index_file@).crumbs),
            },
            text_var("breadcrumb_label"@, label_text(breadcrumbs_of(path, g.index_file@).label)),
            text_var("url"@, "/home/"@ + path),
        ] + metadata_vars(scraper.metadata.entry_seq()),
    }
}

impl HtmlGenerator {
    /// Sets a generator up: chooses the templates to load and checks that
    /// the required ones are among them.
    pub fn new(cfg: HtmlGeneratorCfg) -> (r: Result<HtmlGenerator, ChimeraError>)
        ensures
            match missing_template(
                selected_templates(
                    cfg.user_template_root@,
                    found_views(cfg.user_template_files@),
                    cfg.internal_template_root@,
                    found_views(cfg.internal_template_files@),
                ),
            ) {
                Some(name) => r is Err && r->Err_0@ == ChimeraErrorView::TemplateParsing(
                    missing_template_message(name),
                ),
                None => {
                    &&& r is Ok
                    &&& template_views(r->Ok_0.templates@) == selected_templates(
                        cfg.user_template_root@,
                        found_views(cfg.user_template_files@),
                        cfg.internal_template_root@,
                        found_views(cfg.internal_template_files@),
                    )
                    &&& r->Ok_0.site_title@ == cfg.site_title@
                    &&& r->Ok_0.site_lang@ == cfg.site_lang@
                    &&& r->Ok_0.highlight_style@ == cfg.highlight_style@
                    &&& r->Ok_0.index_file@ == cfg.index_file@
                    &&& r->Ok_0.version@ == cfg.version@
                    &&& menu_views(r->Ok_0.menu@) == menu_of(cfg.menu@)
                    &&& r->Ok_0.image_size_cache == cfg.image_size_cache
                },
            },
    {
        let user = cfg.file_manager.find_files(&cfg.user_template_files, "html", false);
        let internal = cfg.file_manager.find_files(&cfg.internal_template_files, "html", false);
        let mut templates: Vec<TemplateFile> = Vec::new();
        assert(template_views(templates@) =~= Seq::<TemplateFileView>::empty());
        add_templates(&mut templates, cfg.user_template_root.as_str(), &user);
        add_templates(&mut templates, cfg.internal_template_root.as_str(), &internal);
        if !contains_template(&templates, "markdown.html") {
            return Err(
                ChimeraError::TemplateParsing(concat2("Missing template: ", "markdown.html")),
            );
        }
        if !contains_template(&templates, "index.html") {
            return Err(ChimeraError::TemplateParsing(concat2("Missing template: ", "index.html")));
        }
        if !contains_template(&templates, "search.html") {
            return Err(ChimeraError::TemplateParsing(concat2("Missing template: ", "search.html")));
        }
        if !contains_template(&templates, "error.html") {
            return Err(ChimeraError::TemplateParsing(concat2("Missing template: ", "error.html")));
        }
        let mut menu: Vec<MenuItem> = Vec::new();
        let mut i: usize = 0;
        while i < cfg.menu.len()
            invariant
                i <= cfg.menu.len(),
                menu_views(menu@) == menu_of(cfg.menu@).take(i as int),
            decreases cfg.menu.len() - i,
        {
            let ghost before = menu_views(menu@);
            let item = MenuItem { title: cfg.menu[i].0.clone(), target: cfg.menu[i].1.clone() };
            menu.push(item);
            assert(menu_views(menu@) =~= before.push(item@));
            i += 1;
            assert(menu_of(cfg.menu@).take(i as int) =~= menu_of(cfg.menu@).take(i - 1).push(
                item@,
            ));
        }
        assert(menu_of(cfg.menu@).take(i as int) =~= menu_of(cfg.menu@));
        Ok(
            HtmlGenerator {
                templates,
                site_title: String::from_str(cfg.site_title),
                site_lang: String::from_str(cfg.site_lang),
                highlight_style: String::from_str(cfg.highlight_style),
                index_file: String::from_str(cfg.index_file),
                menu,
                image_size_cache: cfg.image_size_cache,
                version: String::from_str(cfg.version),
            },
        )
    }

    fn clone_menu(&self) -> (r: Vec<MenuItem>)
        ensures
            menu_views(r@) == menu_views(self.menu@),
    {
        let mut menu: Vec<MenuItem> = Vec::new();
        let mut i: usize = 0;
        while i < self.menu.len()
            invariant
                i <= self.menu.len(),
                menu_views(menu@) == menu_views(self.menu@).take(i as int),
            decreases self.menu.len() - i,
        {
            let ghost before = menu_views(menu@);
            menu.push(self.menu[i].clone());
            assert(menu_views(menu@) =~= before.push(self.menu@[i as int]@));
            i += 1;
            assert(menu_views(self.menu@).take(i as int) =~= menu_views(self.menu@).take(
                i - 1,
            ).push(self.menu@[i - 1]@));
        }
        assert(menu_views(self.menu@).take(i as int) =~= menu_views(self.menu@));
        menu
    }

    /// The bindings every template sees.
    pub fn get_vars(&self, title: &str, has_code: bool) -> (r: Vec<TemplateVar>)
        ensures
            var_views(r@) == base_vars(self, title@, has_code),
    {
        let mut vars: Vec<TemplateVar> = Vec::new();
        assert(var_views(vars@) =~= Seq::<TemplateVarView>::empty());
        push_text(&mut vars, "title", title);
        push_text(&mut vars, "site_title", self.site_title.as_str());
        push_text(&mut vars, "site_lang", self.site_lang.as_str());
        push_text(&mut vars, "highlight_style", self.highlight_style.as_str());
        push_var(&mut vars, "has_code", TemplateValue::Flag(has_code));
        push_text(&mut vars, "version", self.version.as_str());
        push_var(&mut vars, "menu", TemplateValue::Menu(self.clone_menu()));
        assert(var_views(vars@) =~= base_vars(self, title@, has_code));
        vars
    }

    /// The search page for `query` and its results.
    pub fn gen_search(&self, query: &str, results: Vec<SearchResult>) -> (r: Page)
        ensures
            r@ == search_page(self, query@, result_views(results@)),
    {
        let title = concat2(self.site_title.as_str(), ": Search results");
        let mut vars = self.get_vars(title.as_str(), false);
        push_text(&mut vars, "query", query);
        push_text(&mut vars, "placeholder", query);
        let ghost head = var_views(vars@);
        assert(head =~= base_vars(self, search_title(self), false) + seq![
            text_var("query"@, query@),
            text_var("placeholder"@, query@),
        ]);
        if results.len() > 0 {
            push_var(&mut vars, "results", TemplateValue::Results(results));
        }
        Page { template: "search.html".to_string(), vars }
    }

    /// The search page without a query.
    pub fn gen_search_blank(&self) -> (r: Page)
        ensures
            r@ == blank_search_page(self),
    {
        let title = concat2(self.site_title.as_str(), ": Search results");
        let mut vars = self.get_vars(title.as_str(), false);
        push_text(&mut vars, "query", "");
        push_text(&mut vars, "placeholder", "Search...");
        proof {
            reveal_strlit("");
            assert(""@ =~= Seq::<char>::empty());
            assert(var_views(vars@) =~= blank_search_page(self).vars);
        }
        Page { template: "search.html".to_string(), vars }
    }

    /// The error page.
    pub fn gen_error(&self, error_code: &str, heading: &str, message: &str) -> (r: Page)
        ensures
            r@ == error_page(self, error_code@, heading@, message@),
    {
        let title = concat2(self.site_title.as_str(), ": Error");
        let mut vars = self.get_vars(title.as_str(), false);
        push_text(&mut vars, "error_code", error_code);
        push_text(&mut vars, "heading", heading);
        push_text(&mut vars, "message", message);
        assert(var_views(vars@) =~= error_page(self, error_code@, heading@, message@).vars);
        Page { template: "error.html".to_string(), vars }
    }

    /// The page that lists a directory.
    pub fn gen_index(&self, path: &str, peers: Option<PeerInfo>) -> (r: Page)
        ensures
            r@ == index_page(self, path@, opt_peer_view(peers)),
    {
        let breadcrumbs = get_breadcrumbs(path, self.index_file.as_str());
        let parts = split_path(path);
        let path_str = if parts.len() > 0 {
            parts[parts.len() - 1].clone()
        } else {
            String::from_str(path)
        };
        let title = concat3(self.site_title.as_str(), ": ", path_str.as_str());
        let mut vars = self.get_vars(title.as_str(), false);
        push_text(&mut vars, "path", path_str.as_str());
        let label = match breadcrumbs.label {
            Some(l) => l,
            None => String::new(),
        };
        push_var(&mut vars, "breadcrumbs", TemplateValue::Breadcrumbs(breadcrumbs.crumbs));
        push_text(&mut vars, "breadcrumb_label", label.as_str());
        let mut doclinks: Vec<InternalLink> = Vec::new();
        doclinks.push(InternalLink::new("contents".to_string(), "Contents".to_string(), 2));
        assert(link_views(doclinks@) =~= seq![contents_link()]);
        push_var(&mut vars, "doclinks", TemplateValue::DocLinks(doclinks));
        push_var(&mut vars, "peers", TemplateValue::Peers(peers));
        push_text(&mut vars, "body", "");
        proof {
            reveal_strlit("");
            assert(""@ =~= Seq::<char>::empty());
            assert(var_views(vars@) =~= index_page(self, path@, opt_peer_view(peers)).vars);
        }
        Page { template: "index.html".to_string(), vars }
    }

    /// Puts anchors on the headings of a body: see [`with_anchors`].
    pub fn add_anchors_to_headings(
        &self,
        original_html: String,
        links: &Vec<InternalLink>,
        inserted_top: bool,
    ) -> (r: String)
        ensures
            r@ == with_anchors(
                original_html@,
                anchors_of(link_views(links@)),
                inserted_top,
                sizes_view(self.image_size_cache),
            ),
    {
        add_anchors(original_html, links, inserted_top, &self.image_size_cache)
    }

    /// The page of the document at `path`, from its HTML body and its scrape.
    pub fn gen_markdown(&self, path: &str, body: String, scraper: DocumentScraper, peers: Option<
        PeerInfo,
    >) -> (r: Page)
        requires
            scraper.wf(),
        ensures
            r@ == markdown_page(self, path@, body@, &scraper, opt_peer_view(peers)),
    {
        let html_content = self.add_anchors_to_headings(
            body,
            &scraper.internal_links,
            !scraper.starts_with_heading,
        );
        let template = String::from_str(scraper.get_template());
        let title = match &scraper.title {
            Some(t) => t.clone(),
            None => {
                let name = file_name(path);
                if name.as_str().is_empty() {
                    String::from_str(path)
                } else {
                    name
                }
            },
        };
        let breadcrumbs = get_breadcrumbs(path, self.index_file.as_str());
        let title = concat3(self.site_title.as_str(), ": ", title.as_str());
        let mut vars = self.get_vars(title.as_str(), scraper.has_code_blocks);
        push_text(&mut vars, "body", html_content.as_str());
        let mut languages: Vec<String> = Vec::new();
        let mut k: usize = 0;
        while k < scraper.code_languages.len()
            invariant
                k <= scraper.code_languages.len(),
                string_views(languages@) == scraper@.code_languages.take(k as int),
            decreases scraper.code_languages.len() - k,
        {
            let ghost before = string_views(languages@);
            languages.push(String::from_str(scraper.code_languages[k]));
            assert(string_views(languages@) =~= before.push(scraper.code_languages@[k as int]@));
            k += 1;
            assert(scraper@.code_languages.take(k as int) =~= scraper@.code_languages.take(
                k - 1,
            ).push(scraper.code_languages@[k - 1]@));
        }
        assert(scraper@.code_languages.take(k as int) =~= scraper@.code_languages);
        let mut meta: Vec<TemplateVar> = Vec::new();
        let mut m: usize = 0;
        proof {
            scraper.metadata.lemma_entries();
        }
        while m < scraper.metadata.entries.len()
            invariant
                m <= scraper.metadata.entries.len(),
                scraper.metadata.entries@ == scraper.metadata.entry_seq(),
                var_views(meta@) == metadata_vars(scraper.metadata.entry_seq()).take(m as int),
            decreases scraper.metadata.entries.len() - m,
        {
            let ghost before = var_views(meta@);
            let e = &scraper.metadata.entries[m];
            push_text(&mut meta, e.0.as_str(), e.1.as_str());
            m += 1;
            assert(metadata_vars(scraper.metadata.entry_seq()).take(m as int) =~= metadata_vars(
                scraper.metadata.entry_seq(),
            ).take(m - 1).push(text_var(e.0@, e.1@)));
        }
        assert(metadata_vars(scraper.metadata.entry_seq()).take(m as int) =~= metadata_vars(
            scraper.metadata.entry_seq(),
        ));
        let url = concat3(HOME_DIR, "/", path);
        proof {
            reveal_strlit("/home");
            reveal_strlit("/");
            reveal_strlit("/home/");
            assert(url@ =~= "/home/"@ + path@);
        }
        let ghost links_view = scraper@.internal_links;
        let ghost langs_view = scraper@.code_languages;
        push_var(&mut vars, "doclinks", TemplateValue::DocLinks(scraper.internal_links));
        push_var(&mut vars, "peers", TemplateValue::Peers(peers));
        push_var(&mut vars, "code_languages", TemplateValue::CodeLanguages(languages));
        let label = match breadcrumbs.label {
            Some(l) => l,
            None => String::new(),
        };
        push_var(&mut vars, "breadcrumbs", TemplateValue::Breadcrumbs(breadcrumbs.crumbs));
        push_text(&mut vars, "breadcrumb_label", label.as_str());
        push_text(&mut vars, "url", url.as_str());
        let ghost head = var_views(vars@);
        let ghost meta_views = var_views(meta@);
        vars.append(&mut meta);
        assert(var_views(vars@) =~= head + meta_views);
        proof {
            assert(head =~= base_vars(
                self,
                self.site_title@ + ": "@ + document_title(path@, scraper@.title),
                scraper@.has_code_blocks,
            ) + seq![
                text_var("body"@, html_content@),
                TemplateVarView { name: "doclinks"@, value: TemplateValueView::DocLinks(links_view) },
                TemplateVarView {
                    name: "peers"@,
                    value: TemplateValueView::Peers(opt_peer_view(peers)),
                },
                TemplateVarView {
                    name: "code_languages"@,
                    value: TemplateValueView::CodeLanguages(langs_view),
                },
                TemplateVarView {
                    name: "breadcrumbs"@,
                    value: TemplateValueView::Breadcrumbs(
                        breadcrumbs_of(path@, self.index_file@).crumbs,
                    ),
                },
                text_var(
                    "breadcrumb_label"@,
                    label_text(breadcrumbs_of(path@, self.index_file@).label),
                ),
                text_var("url"@, "/home/"@ + path@),
            ]);
        }
        Page { template, vars }
    }
}

} // verus!
