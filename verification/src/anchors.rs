//! Anchors that are unique within a document: a heading's slug, with a
//! number behind it where the slug is taken already.

use crate::document_scraper::{link_views, InternalLink, InternalLinkView};
use crate::text::{
    decimal, lemma_decimal_digits, lemma_decimal_injective, push_decimal, push_str_chars,
    str_chars, str_eq, string_from_chars,
};
use vstd::prelude::*;

verus! {

/// Anchor of the entry that leads to the top of a document.
pub const TOP_ANCHOR: &'static str = "top";

/// Anchor of the entry that leads to the list of contents.
pub const CONTENTS_ANCHOR: &'static str = "contents";

/// What stands in for the slug of a heading without letters or digits.
pub const EMPTY_SLUG_ANCHOR: &'static str = "section";

/// The anchors of a list of links.
pub open spec fn link_anchors(links: Seq<InternalLinkView>) -> Seq<Seq<char>> {
    links.map_values(|l: InternalLinkView| l.anchor)
}

/// Whether a character may stand in an anchor: ASCII letters and digits and
/// `-`, `_`, `.`, `~`, which a URL fragment takes as they are.
pub open spec fn is_anchor_char(c: char) -> bool {
    ('a' <= c && c <= 'z') || ('A' <= c && c <= 'Z') || ('0' <= c && c <= '9') || c == '-' || c
        == '_' || c == '.' || c == '~'
}

/// Whether a text can serve as an anchor: it is not empty and holds only
/// characters that may stand in an anchor.
pub open spec fn is_safe_anchor(a: Seq<char>) -> bool {
    a.len() > 0 && forall|t: int| 0 <= t < a.len() ==> is_anchor_char(#[trigger] a[t])
}

/// The characters of a slug that may stand in an anchor, in order.
pub open spec fn safe_part(slug: Seq<char>) -> Seq<char>
    decreases slug.len(),
{
    if slug.len() == 0 {
        Seq::empty()
    } else if is_anchor_char(slug.last()) {
        safe_part(slug.drop_last()).push(slug.last())
    } else {
        safe_part(slug.drop_last())
    }
}

/// What an anchor is made from: the slug without the characters that may not
/// stand in an anchor, or a stand-in where nothing is left of it.
pub open spec fn anchor_base(slug: Seq<char>) -> Seq<char> {
    if safe_part(slug).len() == 0 {
        EMPTY_SLUG_ANCHOR@
    } else {
        safe_part(slug)
    }
}

/// A slug that holds only characters that may stand in an anchor is used as
/// it is.
pub proof fn lemma_safe_slug_kept(slug: Seq<char>)
    requires
        forall|t: int| 0 <= t < slug.len() ==> is_anchor_char(#[trigger] slug[t]),
    ensures
        safe_part(slug) == slug,
        slug.len() > 0 ==> anchor_base(slug) == slug,
    decreases slug.len(),
{
    if slug.len() > 0 {
        assert forall|t: int| 0 <= t < slug.drop_last().len() implies is_anchor_char(
            #[trigger] slug.drop_last()[t],
        ) by {
            assert(slug.drop_last()[t] == slug[t]);
        }
        lemma_safe_slug_kept(slug.drop_last());
        assert(is_anchor_char(slug[slug.len() - 1]));
        assert(slug.drop_last().push(slug.last()) =~= slug);
    }
}

/// What is kept of a slug holds only characters that may stand in an anchor.
pub proof fn lemma_safe_part(slug: Seq<char>)
    ensures
        forall|t: int| 0 <= t < safe_part(slug).len() ==> is_anchor_char(#[trigger] safe_part(slug)[t]),
    decreases slug.len(),
{
    if slug.len() > 0 {
        lemma_safe_part(slug.drop_last());
        let kept = safe_part(slug);
        let before = safe_part(slug.drop_last());
        assert forall|t: int| 0 <= t < kept.len() implies is_anchor_char(#[trigger] kept[t]) by {
            if t < before.len() {
                assert(kept[t] == before[t]);
            } else {
                assert(kept[t] == slug.last());
            }
        }
    }
}

/// What an anchor is made from can serve as an anchor.
pub proof fn lemma_anchor_base_safe(slug: Seq<char>)
    ensures
        is_safe_anchor(anchor_base(slug)),
{
    reveal_strlit("section");
    lemma_safe_part(slug);
}

/// Every candidate of a base that can serve as an anchor can serve as one.
pub proof fn lemma_candidate_safe(base: Seq<char>, n: nat)
    requires
        is_safe_anchor(base),
    ensures
        is_safe_anchor(candidate(base, n)),
{
    reveal_strlit("-");
    lemma_decimal_digits(n);
    if n > 0 {
        let c = candidate(base, n);
        let d = decimal(n);
        assert forall|t: int| 0 <= t < c.len() implies is_anchor_char(#[trigger] c[t]) by {
            if t < base.len() {
                assert(c[t] == base[t]);
            } else if t == base.len() {
                assert(c[t] == '-');
            } else {
                assert(c[t] == d[t - base.len() - 1]);
            }
        }
    }
}

/// The anchor handed out can serve as an anchor: it is not empty and holds
/// only characters that a URL fragment takes as they are.
pub proof fn lemma_fresh_anchor_safe(slug: Seq<char>, taken: Seq<Seq<char>>)
    ensures
        is_safe_anchor(fresh_anchor(anchor_base(slug), taken)),
{
    lemma_anchor_base_safe(slug);
    lemma_fresh_from_safe(anchor_base(slug), taken, 0, taken.len() + 2);
}

proof fn lemma_fresh_from_safe(base: Seq<char>, taken: Seq<Seq<char>>, n: nat, fuel: nat)
    requires
        is_safe_anchor(base),
    ensures
        is_safe_anchor(fresh_from(base, taken, n, fuel)),
    decreases fuel,
{
    if fuel == 0 || !is_taken(candidate(base, n), taken) {
        lemma_candidate_safe(base, n);
    } else {
        lemma_fresh_from_safe(base, taken, n + 1, (fuel - 1) as nat);
    }
}

/// The `n`-th anchor tried for a base: the base itself, then the base with
/// `-1`, `-2` and so on behind it.
pub open spec fn candidate(base: Seq<char>, n: nat) -> Seq<char> {
    if n == 0 {
        base
    } else {
        base + "-"@ + decimal(n)
    }
}

/// Whether an anchor is not to be handed out: it is kept for the top or the
/// contents entry, or a link has it already.
pub open spec fn is_taken(anchor: Seq<char>, taken: Seq<Seq<char>>) -> bool {
    anchor == TOP_ANCHOR@ || anchor == CONTENTS_ANCHOR@ || taken.contains(anchor)
}

/// The first candidate from the `n`-th on that is not taken, looking at no
/// more than `fuel` of them before settling for the next.
pub open spec fn fresh_from(base: Seq<char>, taken: Seq<Seq<char>>, n: nat, fuel: nat) -> Seq<char>
    decreases fuel,
{
    if fuel == 0 || !is_taken(candidate(base, n), taken) {
        candidate(base, n)
    } else {
        fresh_from(base, taken, n + 1, (fuel - 1) as nat)
    }
}

/// The anchor handed out for a base: its first candidate that is not taken.
/// Among the first candidates, two more than there are anchors taken, there
/// always is one: see [`lemma_fresh_anchor`].
pub open spec fn fresh_anchor(base: Seq<char>, taken: Seq<Seq<char>>) -> Seq<char> {
    fresh_from(base, taken, 0, taken.len() + 2)
}

/// Different numbers give different candidates.
pub proof fn lemma_candidate_injective(base: Seq<char>, a: nat, b: nat)
    requires
        candidate(base, a) == candidate(base, b),
    ensures
        a == b,
{
    reveal_strlit("-");
    lemma_decimal_digits(a);
    lemma_decimal_digits(b);
    if a > 0 && b > 0 {
        let ca = base + "-"@ + decimal(a);
        let cb = base + "-"@ + decimal(b);
        assert(ca.subrange(base.len() as int + 1, ca.len() as int) =~= decimal(a));
        assert(cb.subrange(base.len() as int + 1, cb.len() as int) =~= decimal(b));
        lemma_decimal_injective(a, b);
    } else if a > 0 {
        assert(candidate(base, a).len() > base.len());
    } else if b > 0 {
        assert(candidate(base, b).len() > base.len());
    }
}

/// Not all of the first `taken.len() + 3` candidates are taken.
proof fn lemma_some_candidate_free(base: Seq<char>, taken: Seq<Seq<char>>) -> (n: nat)
    ensures
        n <= taken.len() + 2,
        !is_taken(candidate(base, n), taken),
{
    let all = taken + seq![TOP_ANCHOR@, CONTENTS_ANCHOR@];
    let limit = all.len() as int;
    if forall|m: nat| m <= limit ==> is_taken(#[trigger] candidate(base, m), taken) {
        let tried = vstd::set_lib::set_int_range(0, limit + 1);
        let f = |m: int| candidate(base, m as nat);
        vstd::set_lib::lemma_int_range(0, limit + 1);
        assert(vstd::relations::injective_on(f, tried)) by {
            assert forall|x: int, y: int|
                tried.contains(x) && tried.contains(y) && #[trigger] f(x) == #[trigger] f(
                    y,
                ) implies x == y by {
                lemma_candidate_injective(base, x as nat, y as nat);
            }
        }
        let image = tried.map(f);
        vstd::set_lib::lemma_map_size(tried, image, f);
        all.lemma_cardinality_of_set();
        assert(image.subset_of(all.to_set())) by {
            assert forall|a: Seq<char>| image.contains(a) implies all.to_set().contains(a) by {
                let m = choose|m: int| tried.contains(m) && f(m) == a;
                assert(is_taken(candidate(base, m as nat), taken));
                if taken.contains(a) {
                    let at = choose|at: int| 0 <= at < taken.len() && taken[at] == a;
                    assert(all[at] == a);
                } else if a == TOP_ANCHOR@ {
                    assert(all[taken.len() as int] == a);
                } else {
                    assert(all[taken.len() as int + 1] == a);
                }
            }
        }
        vstd::set_lib::lemma_len_subset(image, all.to_set());
        assert(false);
        0
    } else {
        choose|m: nat| m <= limit && !is_taken(#[trigger] candidate(base, m), taken)
    }
}

/// What [`fresh_from`] settles for is free, if one of the candidates it may
/// look at or settle for is.
proof fn lemma_fresh_from(base: Seq<char>, taken: Seq<Seq<char>>, n: nat, fuel: nat, free: nat)
    requires
        n <= free <= n + fuel,
        !is_taken(candidate(base, free), taken),
    ensures
        !is_taken(fresh_from(base, taken, n, fuel), taken),
    decreases fuel,
{
    if fuel > 0 && is_taken(candidate(base, n), taken) {
        lemma_fresh_from(base, taken, n + 1, (fuel - 1) as nat, free);
    }
}

/// The anchor handed out is not taken: it is neither kept for the top or the
/// contents entry nor the anchor of a link there is.
pub proof fn lemma_fresh_anchor(base: Seq<char>, taken: Seq<Seq<char>>)
    ensures
        !is_taken(fresh_anchor(base, taken), taken),
{
    let free = lemma_some_candidate_free(base, taken);
    lemma_fresh_from(base, taken, 0, taken.len() + 2, free);
}

/// The anchor handed out is the base where the base is free.
pub proof fn lemma_fresh_anchor_of_free_base(base: Seq<char>, taken: Seq<Seq<char>>)
    requires
        !is_taken(base, taken),
    ensures
        fresh_anchor(base, taken) == base,
{
}

/// The anchor handed out begins with the base and is never empty.
pub proof fn lemma_fresh_anchor_shape(slug: Seq<char>, taken: Seq<Seq<char>>)
    ensures
        fresh_anchor(anchor_base(slug), taken).len() > 0,
        fresh_anchor(anchor_base(slug), taken).subrange(0, anchor_base(slug).len() as int)
            == anchor_base(slug),
{
    lemma_anchor_base_safe(slug);
    lemma_fresh_from_shape(anchor_base(slug), taken, 0, taken.len() + 2);
}

proof fn lemma_fresh_from_shape(base: Seq<char>, taken: Seq<Seq<char>>, n: nat, fuel: nat)
    requires
        base.len() > 0,
    ensures
        fresh_from(base, taken, n, fuel).len() > 0,
        fresh_from(base, taken, n, fuel).subrange(0, base.len() as int) == base,
    decreases fuel,
{
    if fuel == 0 || !is_taken(candidate(base, n), taken) {
        assert(candidate(base, n).subrange(0, base.len() as int) =~= base);
    } else {
        lemma_fresh_from_shape(base, taken, n + 1, (fuel - 1) as nat);
    }
}

fn anchor_taken(links: &Vec<InternalLink>, anchor: &str) -> (r: bool)
    ensures
        r == is_taken(anchor@, link_anchors(link_views(links@))),
{
    if str_eq(anchor, TOP_ANCHOR) || str_eq(anchor, CONTENTS_ANCHOR) {
        return true;
    }
    let ghost taken = link_anchors(link_views(links@));
    let mut i: usize = 0;
    while i < links.len()
        invariant
            i <= links.len(),
            taken == link_anchors(link_views(links@)),
            forall|j: int| 0 <= j < i ==> taken[j] != anchor@,
        decreases links.len() - i,
    {
        if str_eq(links[i].anchor.as_str(), anchor) {
            assert(taken[i as int] == anchor@);
            return true;
        }
        i += 1;
    }
    false
}

fn keep_safe(slug: &str) -> (r: String)
    ensures
        r@ == safe_part(slug@),
{
    let chars = str_chars(slug);
    let mut kept: Vec<char> = Vec::new();
    let mut i: usize = 0;
    assert(chars@.take(0) =~= Seq::<char>::empty());
    while i < chars.len()
        invariant
            i <= chars.len(),
            kept@ == safe_part(chars@.take(i as int)),
        decreases chars.len() - i,
    {
        let c = chars[i];
        proof {
            assert(chars@.take(i + 1).drop_last() =~= chars@.take(i as int));
            assert(chars@.take(i + 1).last() == c);
        }
        if ('a' <= c && c <= 'z') || ('A' <= c && c <= 'Z') || ('0' <= c && c <= '9') || c == '-'
            || c == '_' || c == '.' || c == '~' {
            kept.push(c);
        }
        i += 1;
    }
    assert(chars@.take(i as int) =~= chars@);
    string_from_chars(&kept)
}

fn make_candidate(base: &str, n: u128) -> (r: String)
    ensures
        r@ == candidate(base@, n as nat),
{
    let mut v = str_chars(base);
    if n > 0 {
        push_str_chars(&mut v, "-");
        push_decimal(&mut v, n);
    }
    string_from_chars(&v)
}

/// The anchor for a heading with the given slug that no link in `links` has:
/// see [`fresh_anchor`].
pub fn unique_anchor(links: &Vec<InternalLink>, slug: &str) -> (r: String)
    ensures
        r@ == fresh_anchor(anchor_base(slug@), link_anchors(link_views(links@))),
{
    let kept = keep_safe(slug);
    let base = if kept.as_str().is_empty() {
        EMPTY_SLUG_ANCHOR
    } else {
        kept.as_str()
    };
    let ghost taken = link_anchors(link_views(links@));
    let limit: u128 = links.len() as u128 + 2;
    let mut n: u128 = 0;
    loop
        invariant
            n <= limit,
            limit == taken.len() + 2,
            base@ == anchor_base(slug@),
            taken == link_anchors(link_views(links@)),
            fresh_anchor(base@, taken) == fresh_from(base@, taken, n as nat, (limit - n) as nat),
        decreases limit - n,
    {
        let tried = make_candidate(base, n);
        if n == limit || !anchor_taken(links, tried.as_str()) {
            return tried;
        }
        n += 1;
    }
}

} // verus!
