//! Character-level helpers shared by the other modules.

use vstd::prelude::*;

verus! {

/// The characters of `s`, in order.
pub(crate) fn str_chars(s: &str) -> (r: Vec<char>)
    ensures
        r@ == s@,
{
    let mut v: Vec<char> = Vec::new();
    for c in it: s.chars()
        invariant
            it.seq() == s@,
            v@ == it.seq().take(it.index() as int),
    {
        v.push(c);
        assert(v@ =~= it.seq().take(it.index() + 1));
    }
    assert(v@ =~= s@);
    v
}

/// A string made of the characters of `v`, in order.
///
/// Trusted: wraps `String::from_iter` over the characters; the result holds
/// exactly the characters of the argument.
#[verifier::external_body]
pub(crate) fn string_from_chars(v: &Vec<char>) -> (r: String)
    ensures
        r@ == v@,
{
    String::from_iter(v.iter())
}

/// Whether two string slices hold the same characters.
pub(crate) fn str_eq(a: &str, b: &str) -> (r: bool)
    ensures
        r == (a@ == b@),
{
    let x = str_chars(a);
    let y = str_chars(b);
    chars_eq(&x, &y)
}

/// ASCII lower-casing of one character: `A`..`Z` move to `a`..`z`, everything
/// else stays.
pub open spec fn ascii_lower(c: char) -> char {
    if 'A' <= c && c <= 'Z' {
        ((c as u8) + 32) as char
    } else {
        c
    }
}

/// ASCII lower-casing of a whole sequence, character by character.
pub open spec fn ascii_lower_seq(s: Seq<char>) -> Seq<char> {
    Seq::new(s.len(), |i: int| ascii_lower(s[i]))
}

/// Whether two sequences are equal once both are ASCII lower-cased.
pub open spec fn eq_ignore_ascii_case(a: Seq<char>, b: Seq<char>) -> bool {
    ascii_lower_seq(a) == ascii_lower_seq(b)
}

/// Lower-cases one ASCII letter.
pub fn char_to_lower(c: char) -> (r: char)
    ensures
        r == ascii_lower(c),
{
    if 'A' <= c && c <= 'Z' {
        ((c as u8) + 32) as char
    } else {
        c
    }
}

/// Lower-cases every ASCII letter of `v`.
pub fn chars_to_lower(v: &Vec<char>) -> (r: Vec<char>)
    ensures
        r@ == ascii_lower_seq(v@),
{
    let mut out: Vec<char> = Vec::new();
    let mut i: usize = 0;
    while i < v.len()
        invariant
            i <= v.len(),
            out@ == ascii_lower_seq(v@.subrange(0, i as int)),
        decreases v.len() - i,
    {
        out.push(char_to_lower(v[i]));
        i += 1;
        assert(out@ =~= ascii_lower_seq(v@.subrange(0, i as int)));
    }
    assert(v@.subrange(0, i as int) =~= v@);
    out
}

/// Whether `a` and `b` hold the same characters.
pub fn chars_eq(a: &Vec<char>, b: &Vec<char>) -> (r: bool)
    ensures
        r == (a@ == b@),
{
    if a.len() != b.len() {
        return false;
    }
    let mut i: usize = 0;
    while i < a.len()
        invariant
            i <= a.len(),
            a.len() == b.len(),
            a@.subrange(0, i as int) == b@.subrange(0, i as int),
        decreases a.len() - i,
    {
        if a[i] != b[i] {
            return false;
        }
        i += 1;
        assert(a@.subrange(0, i as int) =~= a@.subrange(0, i - 1).push(a@[i - 1]));
        assert(b@.subrange(0, i as int) =~= b@.subrange(0, i - 1).push(b@[i - 1]));
    }
    assert(a@.subrange(0, i as int) =~= a@);
    assert(b@.subrange(0, i as int) =~= b@);
    true
}

/// Appends the characters of `tail` to `out`.
pub fn push_all(out: &mut Vec<char>, tail: &Vec<char>)
    ensures
        final(out)@ == old(out)@ + tail@,
{
    let mut i: usize = 0;
    while i < tail.len()
        invariant
            i <= tail.len(),
            out@ == old(out)@ + tail@.subrange(0, i as int),
        decreases tail.len() - i,
    {
        out.push(tail[i]);
        i += 1;
        assert(out@ =~= old(out)@ + tail@.subrange(0, i as int));
    }
    assert(tail@.subrange(0, i as int) =~= tail@);
}

/// Appends the characters of the string `tail` to `out`.
pub fn push_str_chars(out: &mut Vec<char>, tail: &str)
    ensures
        final(out)@ == old(out)@ + tail@,
{
    let t = str_chars(tail);
    push_all(out, &t);
}

/// A copy of the characters `v[from..to]`.
pub fn slice_chars(v: &Vec<char>, from: usize, to: usize) -> (r: Vec<char>)
    requires
        from <= to <= v.len(),
    ensures
        r@ == v@.subrange(from as int, to as int),
{
    let mut out: Vec<char> = Vec::new();
    let mut i: usize = from;
    while i < to
        invariant
            from <= i <= to,
            to <= v.len(),
            out@ == v@.subrange(from as int, i as int),
        decreases to - i,
    {
        out.push(v[i]);
        i += 1;
        assert(out@ =~= v@.subrange(from as int, i as int));
    }
    out
}

/// Whether `pat` occurs in `s` at position `at`.
pub open spec fn matches_at(s: Seq<char>, at: int, pat: Seq<char>) -> bool {
    0 <= at && at + pat.len() <= s.len() && s.subrange(at, at + pat.len()) == pat
}

/// Whether `pat` occurs in `v` at position `at`.
pub fn starts_with_at(v: &Vec<char>, at: usize, pat: &Vec<char>) -> (r: bool)
    ensures
        r == matches_at(v@, at as int, pat@),
{
    if at > v.len() || pat.len() > v.len() - at {
        return false;
    }
    let mut j: usize = 0;
    while j < pat.len()
        invariant
            j <= pat.len(),
            at + pat.len() <= v.len(),
            v@.subrange(at as int, at + j) == pat@.subrange(0, j as int),
        decreases pat.len() - j,
    {
        if v[at + j] != pat[j] {
            assert(v@.subrange(at as int, at + pat.len())[j as int] != pat@[j as int]);
            return false;
        }
        j += 1;
        assert(v@.subrange(at as int, at + j) =~= v@.subrange(at as int, at + j - 1).push(
            v@[at + j - 1],
        ));
        assert(pat@.subrange(0, j as int) =~= pat@.subrange(0, j - 1).push(pat@[j - 1]));
    }
    assert(pat@.subrange(0, j as int) =~= pat@);
    true
}

/// Position of the first `c` in `s` at or after `from`, or the length of `s`
/// when there is none.
pub open spec fn find_from(s: Seq<char>, from: int, c: char) -> int
    decreases s.len() - from,
{
    if from >= s.len() {
        s.len() as int
    } else if s[from] == c {
        from
    } else {
        find_from(s, from + 1, c)
    }
}

/// What [`find_from`] finds lies between its start and the end, and nothing
/// before it is the character sought.
pub proof fn lemma_find_from(s: Seq<char>, from: int, c: char)
    requires
        0 <= from <= s.len(),
    ensures
        from <= find_from(s, from, c) <= s.len(),
        find_from(s, from, c) < s.len() ==> s[find_from(s, from, c)] == c,
        forall|k: int| from <= k < find_from(s, from, c) ==> s[k] != c,
    decreases s.len() - from,
{
    if from < s.len() && s[from] != c {
        lemma_find_from(s, from + 1, c);
    }
}

/// Every character of a decimal numeral is a digit.
pub proof fn lemma_decimal_digits(n: nat)
    ensures
        decimal(n).len() > 0,
        forall|t: int| 0 <= t < decimal(n).len() ==> '0' <= #[trigger] decimal(n)[t] <= '9',
    decreases n,
{
    if n >= 10 {
        lemma_decimal_digits(n / 10);
    }
}

/// Different numbers have different numerals.
pub proof fn lemma_decimal_injective(a: nat, b: nat)
    requires
        decimal(a) == decimal(b),
    ensures
        a == b,
    decreases a,
{
    lemma_decimal_digits(a);
    lemma_decimal_digits(b);
    if a < 10 {
        if b >= 10 {
            lemma_decimal_digits(b / 10);
            assert(decimal(b).len() >= 2);
        }
        assert(decimal(a)[0] == digit_char(a as int));
        assert(decimal(b)[0] == digit_char(b as int));
    } else {
        if b < 10 {
            lemma_decimal_digits(a / 10);
            assert(decimal(a).len() >= 2);
        }
        let da = decimal(a / 10).push(digit_char((a % 10) as int));
        let db = decimal(b / 10).push(digit_char((b % 10) as int));
        assert(da.drop_last() =~= decimal(a / 10));
        assert(db.drop_last() =~= decimal(b / 10));
        assert(da.last() == db.last());
        lemma_decimal_injective(a / 10, b / 10);
    }
}

/// Finds the first `c` in `v` at or after `from`.
pub fn find_char_from(v: &Vec<char>, from: usize, c: char) -> (r: usize)
    requires
        from <= v.len(),
    ensures
        r == find_from(v@, from as int, c),
        from <= r <= v.len(),
{
    let mut i: usize = from;
    while i < v.len() && v[i] != c
        invariant
            from <= i <= v.len(),
            find_from(v@, from as int, c) == find_from(v@, i as int, c),
        decreases v.len() - i,
    {
        i += 1;
    }
    i
}

/// The character of a decimal digit.
pub open spec fn digit_char(d: int) -> char {
    ((48 + d) as u8) as char
}

/// The decimal numeral of `n`, without leading zeros.
pub open spec fn decimal(n: nat) -> Seq<char>
    decreases n,
{
    if n < 10 {
        seq![digit_char(n as int)]
    } else {
        decimal(n / 10).push(digit_char((n % 10) as int))
    }
}

/// Appends the decimal numeral of `n` to `out`.
pub fn push_decimal(out: &mut Vec<char>, n: u128)
    ensures
        final(out)@ == old(out)@ + decimal(n as nat),
    decreases n,
{
    if n < 10 {
        out.push((48 + (n as u8)) as char);
        assert(out@ =~= old(out)@ + decimal(n as nat));
    } else {
        push_decimal(out, n / 10);
        out.push((48 + ((n % 10) as u8)) as char);
        assert(out@ =~= old(out)@ + decimal(n as nat));
    }
}

/// The part of a path behind its last `/`.
pub open spec fn file_name_of(path: Seq<char>) -> Seq<char>
    decreases path.len(),
{
    if path.len() == 0 {
        path
    } else if path.last() == '/' {
        Seq::empty()
    } else {
        file_name_of(path.drop_last()).push(path.last())
    }
}

/// The part of a file name behind its last `.`; a name without a dot has
/// none, nor has one whose only dot leads.
pub open spec fn name_extension(name: Seq<char>) -> Option<Seq<char>>
    decreases name.len(),
{
    if name.len() <= 1 {
        None
    } else if name.last() == '.' {
        Some(Seq::empty())
    } else {
        match name_extension(name.drop_last()) {
            Some(e) => Some(e.push(name.last())),
            None => None,
        }
    }
}

/// The extension of a path: that of its file name.
pub open spec fn extension_of(path: Seq<char>) -> Option<Seq<char>> {
    name_extension(file_name_of(path))
}

/// Whether the path's extension is `ext`, letter case aside.
pub open spec fn path_has_extension(path: Seq<char>, ext: Seq<char>) -> bool {
    match extension_of(path) {
        Some(e) => eq_ignore_ascii_case(e, ext),
        None => false,
    }
}

/// Start of the file name inside `v`: the position behind the last `/`.
pub fn file_name_start(v: &Vec<char>) -> (r: usize)
    ensures
        r <= v.len(),
        v@.subrange(r as int, v.len() as int) == file_name_of(v@),
{
    assert(file_name_of(v@.subrange(0, 0)) =~= v@.subrange(0, 0));
    let mut start: usize = 0;
    let mut k: usize = 0;
    while k < v.len()
        invariant
            k <= v.len(),
            start <= k,
            v@.subrange(start as int, k as int) == file_name_of(v@.subrange(0, k as int)),
        decreases v.len() - k,
    {
        proof {
            assert(v@.subrange(0, k + 1).drop_last() =~= v@.subrange(0, k as int));
            assert(v@.subrange(0, k + 1).last() == v@[k as int]);
        }
        if v[k] == '/' {
            start = k + 1;
            assert(v@.subrange(start as int, k + 1) =~= Seq::<char>::empty());
        } else {
            assert(v@.subrange(start as int, k + 1) =~= v@.subrange(start as int, k as int).push(
                v@[k as int],
            ));
        }
        k += 1;
    }
    assert(v@.subrange(0, k as int) =~= v@);
    start
}

/// Start of the extension inside the file name that begins at `start`: the
/// position behind its last dot, when it has an extension.
pub fn extension_start(v: &Vec<char>, start: usize) -> (r: Option<usize>)
    requires
        start <= v.len(),
    ensures
        match r {
            Some(e) => start < e <= v.len() && name_extension(
                v@.subrange(start as int, v.len() as int),
            ) == Some(v@.subrange(e as int, v.len() as int)),
            None => name_extension(v@.subrange(start as int, v.len() as int)) is None,
        },
{
    let ghost name = v@.subrange(start as int, v.len() as int);
    let mut found: Option<usize> = None;
    let mut k: usize = start;
    assert(name.subrange(0, 0) =~= Seq::<char>::empty());
    while k < v.len()
        invariant
            start <= k <= v.len(),
            name == v@.subrange(start as int, v.len() as int),
            match found {
                Some(e) => start < e <= k && name_extension(name.subrange(0, k - start)) == Some(
                    v@.subrange(e as int, k as int),
                ),
                None => name_extension(name.subrange(0, k - start)) is None,
            },
        decreases v.len() - k,
    {
        proof {
            assert(name.subrange(0, k + 1 - start).drop_last() =~= name.subrange(0, k - start));
            assert(name.subrange(0, k + 1 - start).last() == v@[k as int]);
        }
        if k > start && v[k] == '.' {
            found = Some(k + 1);
            assert(v@.subrange(k + 1, k + 1) =~= Seq::<char>::empty());
        } else {
            match found {
                Some(e) => {
                    assert(v@.subrange(e as int, k + 1) =~= v@.subrange(e as int, k as int).push(
                        v@[k as int],
                    ));
                },
                None => {},
            }
        }
        k += 1;
    }
    assert(name.subrange(0, k - start) =~= name);
    found
}

/// Whether the extension of `path` is `match_ext`, letter case aside.
pub fn has_extension(path: &str, match_ext: &str) -> (r: bool)
    ensures
        r == path_has_extension(path@, match_ext@),
{
    let chars = str_chars(path);
    let start = file_name_start(&chars);
    match extension_start(&chars, start) {
        Some(e) => {
            let ext = slice_chars(&chars, e, chars.len());
            let want = str_chars(match_ext);
            let a = chars_to_lower(&ext);
            let b = chars_to_lower(&want);
            chars_eq(&a, &b)
        },
        None => false,
    }
}

/// Whether the extension of `path` is exactly `match_ext`.
pub fn has_exact_extension(path: &str, match_ext: &str) -> (r: bool)
    ensures
        r == (extension_of(path@) == Some(match_ext@)),
{
    let chars = str_chars(path);
    let start = file_name_start(&chars);
    match extension_start(&chars, start) {
        Some(e) => {
            let ext = slice_chars(&chars, e, chars.len());
            let want = str_chars(match_ext);
            chars_eq(&ext, &want)
        },
        None => false,
    }
}

/// The two strings joined.
pub fn concat2(a: &str, b: &str) -> (r: String)
    ensures
        r@ == a@ + b@,
{
    let mut v = str_chars(a);
    push_str_chars(&mut v, b);
    string_from_chars(&v)
}

/// The three strings joined.
pub fn concat3(a: &str, b: &str, c: &str) -> (r: String)
    ensures
        r@ == a@ + b@ + c@,
{
    let mut v = str_chars(a);
    push_str_chars(&mut v, b);
    push_str_chars(&mut v, c);
    string_from_chars(&v)
}

/// The views of a sequence of strings.
pub open spec fn string_views(s: Seq<String>) -> Seq<Seq<char>> {
    s.map_values(|x: String| x@)
}

/// A file name without its extension and the dot before it.
pub open spec fn name_stem(name: Seq<char>) -> Seq<char> {
    match name_extension(name) {
        Some(e) => name.subrange(0, name.len() - e.len() - 1),
        None => name,
    }
}

/// The file name of a path, without its extension.
pub fn file_stem(path: &str) -> (r: String)
    ensures
        r@ == name_stem(file_name_of(path@)),
{
    let chars = str_chars(path);
    let start = file_name_start(&chars);
    let stem = match extension_start(&chars, start) {
        Some(e) => slice_chars(&chars, start, e - 1),
        None => slice_chars(&chars, start, chars.len()),
    };
    proof {
        let name = chars@.subrange(start as int, chars.len() as int);
        match name_extension(name) {
            Some(e) => {
                assert(stem@ =~= name.subrange(0, name.len() - e.len() - 1));
            },
            None => {},
        }
    }
    string_from_chars(&stem)
}

/// The file name of a path: what stands behind its last `/`.
pub fn file_name(path: &str) -> (r: String)
    ensures
        r@ == file_name_of(path@),
{
    let chars = str_chars(path);
    let start = file_name_start(&chars);
    let name = slice_chars(&chars, start, chars.len());
    string_from_chars(&name)
}

} // verus!
