//! Peer discovery: the sibling documents and subfolders of a document, worked
//! out from a directory listing, and the change events worth passing on.

use crate::document_scraper::{external_link_views, ExternalLink, ExternalLinkView};
use crate::text::{
    ascii_lower_seq, chars_to_lower, file_name, file_name_of, file_stem, has_extension,
    name_stem, path_has_extension, str_chars, str_eq, string_views,
};
use vstd::prelude::*;
use vstd::string::StringExecFns;

verus! {

/// Whether a byte is written as it is in a percent-encoded string: ASCII
/// letters and digits, `-`, `.`, `_` and `~`.
pub open spec fn is_unreserved(b: u8) -> bool {
    (48 <= b <= 57) || (65 <= b <= 90) || (97 <= b <= 122) || b == 45 || b == 46 || b == 95 || b
        == 126
}

/// The upper-case hexadecimal digit of a value below 16.
pub open spec fn hex_digit(d: u8) -> char {
    if d < 10 {
        ((48 + d) as u8) as char
    } else {
        ((55 + d) as u8) as char
    }
}

/// One byte, percent-encoded.
pub open spec fn percent_encoded_byte(b: u8) -> Seq<char> {
    if is_unreserved(b) {
        seq![b as char]
    } else {
        seq!['%', hex_digit(b / 16), hex_digit(b % 16)]
    }
}

/// A byte string, percent-encoded.
pub open spec fn percent_encoded(bytes: Seq<u8>) -> Seq<char>
    decreases bytes.len(),
{
    if bytes.len() == 0 {
        Seq::empty()
    } else {
        percent_encoded(bytes.drop_last()) + percent_encoded_byte(bytes.last())
    }
}

/// The percent-encoding of the UTF-8 bytes of a string.
pub open spec fn url_encoded(s: Seq<char>) -> Seq<char> {
    percent_encoded(vstd::utf8::encode_utf8(s))
}

/// Percent-encodes `s` for use in a URL.
///
/// Trusted: calls `urlencoding::encode`, which writes every byte of the UTF-8
/// text as it is when it is an ASCII letter, a digit or one of `-._~`, and as
/// `%` with two upper-case hexadecimal digits otherwise.
#[verifier::external_body]
pub(crate) fn url_encode(s: &str) -> (r: String)
    ensures
        r@ == url_encoded(s@),
{
    urlencoding::encode(s).into_owned()
}

/// The characters of a string, each moved up by one so that 0 can close a
/// field of a sort key.
pub open spec fn shifted(s: Seq<char>) -> Seq<u64> {
    Seq::new(s.len(), |i: int| (((s[i] as u32) as u64) + 1) as u64)
}

/// The sort key of a file: first whether it is the index file, then its name
/// with ASCII letters lower-cased, then its name, then its URL.
pub open spec fn file_key(l: ExternalLinkView, index_url: Seq<char>) -> Seq<u64> {
    seq![
        if l.url == index_url {
            0u64
        } else {
            1u64
        },
    ] + shifted(ascii_lower_seq(l.name)) + seq![0u64] + shifted(l.name) + seq![0u64] + shifted(
        l.url,
    )
}

/// The sort key of a folder: its name as it stands, then its URL.
pub open spec fn folder_key(l: ExternalLinkView) -> Seq<u64> {
    shifted(l.name) + seq![0u64] + shifted(l.url)
}

/// The sort key of a link: that of a file where the URL of the index file is
/// given, that of a folder where none is.
pub open spec fn link_key(l: ExternalLinkView, index_url: Option<Seq<char>>) -> Seq<u64> {
    match index_url {
        Some(u) => file_key(l, u),
        None => folder_key(l),
    }
}

/// Lexicographic order on keys: strictly before.
pub open spec fn key_lt(a: Seq<u64>, b: Seq<u64>) -> bool
    decreases a.len(),
{
    if b.len() == 0 {
        false
    } else if a.len() == 0 {
        true
    } else if a[0] != b[0] {
        a[0] < b[0]
    } else {
        key_lt(a.drop_first(), b.drop_first())
    }
}

/// No key lies before itself.
pub proof fn lemma_key_lt_irreflexive(a: Seq<u64>)
    ensures
        !key_lt(a, a),
    decreases a.len(),
{
    if a.len() > 0 {
        lemma_key_lt_irreflexive(a.drop_first());
    }
}

/// The order on keys is transitive.
pub proof fn lemma_key_lt_transitive(a: Seq<u64>, b: Seq<u64>, c: Seq<u64>)
    requires
        key_lt(a, b),
        key_lt(b, c),
    ensures
        key_lt(a, c),
    decreases a.len(),
{
    if a.len() > 0 && b.len() > 0 && c.len() > 0 {
        if a[0] == b[0] && b[0] == c[0] {
            lemma_key_lt_transitive(a.drop_first(), b.drop_first(), c.drop_first());
        }
    }
}

/// Of two different keys one lies before the other.
pub proof fn lemma_key_lt_total(a: Seq<u64>, b: Seq<u64>)
    ensures
        key_lt(a, b) || key_lt(b, a) || a == b,
    decreases a.len(),
{
    if a.len() > 0 && b.len() > 0 {
        if a[0] == b[0] {
            lemma_key_lt_total(a.drop_first(), b.drop_first());
            if a.drop_first() == b.drop_first() {
                assert(a =~= seq![a[0]] + a.drop_first());
                assert(b =~= seq![b[0]] + b.drop_first());
            }
        }
    } else if a.len() == 0 && b.len() == 0 {
        assert(a =~= b);
    }
}

/// Two keys that agree up to a place where the first ends or holds the
/// smaller number stand in order.
pub proof fn lemma_key_lt_at_first_difference(a: Seq<u64>, b: Seq<u64>, d: int)
    requires
        0 <= d <= a.len(),
        d < b.len(),
        a.subrange(0, d) == b.subrange(0, d),
        d == a.len() || a[d] < b[d],
    ensures
        key_lt(a, b),
    decreases d,
{
    if d > 0 {
        assert(a[0] == a.subrange(0, d)[0]);
        assert(b[0] == b.subrange(0, d)[0]);
        assert(a.drop_first().subrange(0, d - 1) =~= a.subrange(0, d).drop_first());
        assert(b.drop_first().subrange(0, d - 1) =~= b.subrange(0, d).drop_first());
        lemma_key_lt_at_first_difference(a.drop_first(), b.drop_first(), d - 1);
    }
}

/// Whether the links stand in the order of their keys.
pub open spec fn links_sorted(s: Seq<ExternalLinkView>, index_url: Option<Seq<char>>) -> bool {
    forall|i: int, j: int|
        0 <= i < j < s.len() ==> !key_lt(
            #[trigger] link_key(s[j], index_url),
            #[trigger] link_key(s[i], index_url),
        )
}

fn keys_lt(a: &Vec<u64>, b: &Vec<u64>) -> (r: bool)
    ensures
        r == key_lt(a@, b@),
{
    let mut i: usize = 0;
    assert(a@.skip(0) =~= a@);
    assert(b@.skip(0) =~= b@);
    loop
        invariant
            i <= a.len(),
            i <= b.len(),
            key_lt(a@, b@) == key_lt(a@.skip(i as int), b@.skip(i as int)),
        decreases a.len() - i,
    {
        if i >= b.len() {
            return false;
        }
        if i >= a.len() {
            return true;
        }
        if a[i] != b[i] {
            return a[i] < b[i];
        }
        assert(a@.skip(i as int).drop_first() =~= a@.skip(i + 1));
        assert(b@.skip(i as int).drop_first() =~= b@.skip(i + 1));
        i += 1;
    }
}

fn push_shifted(key: &mut Vec<u64>, s: &Vec<char>)
    ensures
        final(key)@ == old(key)@ + shifted(s@),
{
    let mut i: usize = 0;
    while i < s.len()
        invariant
            i <= s.len(),
            key@ == old(key)@ + shifted(s@.subrange(0, i as int)),
        decreases s.len() - i,
    {
        key.push(((s[i] as u32) as u64) + 1);
        i += 1;
        assert(key@ =~= old(key)@ + shifted(s@.subrange(0, i as int)));
    }
    assert(s@.subrange(0, i as int) =~= s@);
}

fn sort_key(link: &ExternalLink, index_url: Option<&str>) -> (r: Vec<u64>)
    ensures
        r@ == link_key(
            link@,
            match index_url {
                Some(u) => Some(u@),
                None => None,
            },
        ),
{
    let mut key: Vec<u64> = Vec::new();
    let name = str_chars(link.name.as_str());
    let url = str_chars(link.url.as_str());
    match index_url {
        Some(u) => {
            key.push(
                if str_eq(link.url.as_str(), u) {
                    0
                } else {
                    1
                },
            );
            let lower = chars_to_lower(&name);
            push_shifted(&mut key, &lower);
            key.push(0);
            push_shifted(&mut key, &name);
            key.push(0);
            push_shifted(&mut key, &url);
            assert(key@ =~= file_key(link@, u@));
        },
        None => {
            push_shifted(&mut key, &name);
            key.push(0);
            push_shifted(&mut key, &url);
            assert(key@ =~= folder_key(link@));
        },
    }
    key
}

/// Sorts links by their keys: the result holds the same links, in key order.
/// With the URL of the index file given, the links are ordered as files: the
/// index file first, the rest by name, letter case aside. Without it they are
/// ordered as folders: by name as it stands.
pub fn sort_links(links: Vec<ExternalLink>, index_url: Option<&str>) -> (r: Vec<ExternalLink>)
    ensures
        links_sorted(
            external_link_views(r@),
            match index_url {
                Some(u) => Some(u@),
                None => None,
            },
        ),
        external_link_views(r@).to_multiset() == external_link_views(links@).to_multiset(),
        r@.len() == links@.len(),
{
    let ghost idx: Option<Seq<char>> = match index_url {
        Some(u) => Some(u@),
        None => None,
    };
    let ghost all = external_link_views(links@);
    let mut rest = links;
    let mut sorted: Vec<ExternalLink> = Vec::new();
    let mut keys: Vec<Vec<u64>> = Vec::new();
    proof {
        assert(external_link_views(sorted@) =~= Seq::<ExternalLinkView>::empty());
        assert(external_link_views(sorted@).to_multiset().add(
            external_link_views(rest@).to_multiset(),
        ) =~= all.to_multiset()) by {
            broadcast use vstd::seq_lib::group_to_multiset_ensures;

        }
    }
    while rest.len() > 0
        invariant
            idx == match index_url {
                Some(u) => Some(u@),
                None => None,
            },
            keys@.len() == sorted@.len(),
            sorted@.len() + rest@.len() == all.len(),
            forall|t: int| 0 <= t < sorted@.len() ==> (#[trigger] keys@[t])@ == link_key(sorted@[t]@, idx),
            links_sorted(external_link_views(sorted@), idx),
            external_link_views(sorted@).to_multiset().add(external_link_views(rest@).to_multiset())
                == all.to_multiset(),
        decreases rest.len(),
    {
        let ghost rest_before = external_link_views(rest@);
        let ghost sorted_before = external_link_views(sorted@);
        let link = rest.pop().unwrap();
        let key = sort_key(&link, index_url);
        let mut pos: usize = 0;
        while pos < sorted.len() && !keys_lt(&key, &keys[pos])
            invariant
                pos <= sorted@.len(),
                keys@.len() == sorted@.len(),
                key@ == link_key(link@, idx),
                forall|t: int|
                    0 <= t < sorted@.len() ==> (#[trigger] keys@[t])@ == link_key(sorted@[t]@, idx),
                forall|t: int| 0 <= t < pos ==> !key_lt(key@, link_key(sorted@[t]@, idx)),
            decreases sorted@.len() - pos,
        {
            pos += 1;
        }
        proof {
            let after = sorted_before.insert(pos as int, link@);
            assert forall|i: int, j: int| 0 <= i < j < after.len() implies !key_lt(
                #[trigger] link_key(after[j], idx),
                #[trigger] link_key(after[i], idx),
            ) by {
                if j == pos {
                    assert(after[i] == sorted@[i]@);
                } else if i == pos {
                    assert(after[j] == sorted@[j - 1]@);
                    assert(key_lt(key@, link_key(sorted@[pos as int]@, idx)));
                    if key_lt(link_key(after[j], idx), key@) {
                        lemma_key_lt_transitive(
                            link_key(after[j], idx),
                            key@,
                            link_key(sorted@[pos as int]@, idx),
                        );
                        lemma_key_lt_irreflexive(key@);
                        if j - 1 > pos {
                            assert(!key_lt(
                                link_key(sorted_before[j - 1], idx),
                                link_key(sorted_before[pos as int], idx),
                            ));
                        } else {
                            lemma_key_lt_irreflexive(link_key(sorted@[pos as int]@, idx));
                        }
                    }
                } else {
                    let i0 = if i < pos {
                        i
                    } else {
                        i - 1
                    };
                    let j0 = if j < pos {
                        j
                    } else {
                        j - 1
                    };
                    assert(after[i] == sorted_before[i0]);
                    assert(after[j] == sorted_before[j0]);
                    assert(!key_lt(
                        link_key(sorted_before[j0], idx),
                        link_key(sorted_before[i0], idx),
                    ));
                }
            }
            broadcast use vstd::seq_lib::group_to_multiset_ensures;

            assert(rest_before =~= external_link_views(rest@).push(link@));
            assert(after.to_multiset() =~= sorted_before.to_multiset().insert(link@));
            assert(rest_before.to_multiset() =~= external_link_views(rest@).to_multiset().insert(
                link@,
            ));
            assert(after.to_multiset().add(external_link_views(rest@).to_multiset())
                =~= sorted_before.to_multiset().add(rest_before.to_multiset()));
        }
        sorted.insert(pos, link);
        keys.insert(pos, key);
        assert(external_link_views(sorted@) =~= sorted_before.insert(pos as int, link@));
    }
    proof {
        assert(external_link_views(rest@) =~= Seq::<ExternalLinkView>::empty());
        assert(external_link_views(sorted@).to_multiset().add(
            external_link_views(rest@).to_multiset(),
        ) =~= external_link_views(sorted@).to_multiset()) by {
            broadcast use vstd::seq_lib::group_to_multiset_ensures;

        }
    }
    sorted
}

/// How deep below a folder its listing goes: the folder's own entries and
/// those of the folders directly inside it.
pub const LISTING_DEPTH: usize = 2;

/// Length of the window, in seconds, within which changes of one path count
/// as one.
pub const DEBOUNCE_SECONDS: u64 = 1;

/// The sorted siblings of a document: the Markdown files beside it and the
/// subfolders that hold Markdown.
#[derive(Debug)]
pub struct PeerInfo {
    pub folders: Vec<ExternalLink>,
    pub files: Vec<ExternalLink>,
}

/// Mathematical value of a [`PeerInfo`].
pub struct PeerInfoView {
    pub folders: Seq<ExternalLinkView>,
    pub files: Seq<ExternalLinkView>,
}

impl View for PeerInfo {
    type V = PeerInfoView;

    open spec fn view(&self) -> PeerInfoView {
        PeerInfoView {
            folders: external_link_views(self.folders@),
            files: external_link_views(self.files@),
        }
    }
}

impl PeerInfo {
    /// Orders both lists: the index file leads the files and the other files
    /// go by name, letter case aside; the folders go by name as it stands.
    pub fn sort(&mut self, index_file: &str)
        ensures
            links_sorted(final(self)@.files, Some(url_encoded(index_file@))),
            links_sorted(final(self)@.folders, None),
            final(self)@.files.to_multiset() == old(self)@.files.to_multiset(),
            final(self)@.folders.to_multiset() == old(self)@.folders.to_multiset(),
    {
        let index_url = url_encode(index_file);
        let mut files: Vec<ExternalLink> = Vec::new();
        let mut folders: Vec<ExternalLink> = Vec::new();
        std::mem::swap(&mut files, &mut self.files);
        std::mem::swap(&mut folders, &mut self.folders);
        self.files = sort_links(files, Some(index_url.as_str()));
        self.folders = sort_links(folders, None);
    }
}

/// One entry of a directory listing: the directory it lies in, relative to
/// the folder that was listed and empty for the folder itself, and its name.
#[derive(Debug)]
pub struct FoundFile {
    pub parent: String,
    pub file_name: String,
}

/// Mathematical value of a [`FoundFile`].
pub struct FoundFileView {
    pub parent: Seq<char>,
    pub file_name: Seq<char>,
}

impl View for FoundFile {
    type V = FoundFileView;

    open spec fn view(&self) -> FoundFileView {
        FoundFileView { parent: self.parent@, file_name: self.file_name@ }
    }
}

impl Clone for FoundFile {
    fn clone(&self) -> (r: Self)
        ensures
            r@ == self@,
    {
        FoundFile { parent: self.parent.clone(), file_name: self.file_name.clone() }
    }
}

/// The views of a listing.
pub open spec fn found_views(s: Seq<FoundFile>) -> Seq<FoundFileView> {
    s.map_values(|e: FoundFile| e@)
}

/// Whether an entry's extension is `ext`; letter case counts unless
/// `ignore_case` is set.
pub open spec fn entry_has_extension(e: FoundFileView, ext: Seq<char>, ignore_case: bool) -> bool {
    if ignore_case {
        path_has_extension(e.file_name, ext)
    } else {
        crate::text::extension_of(e.file_name) == Some(ext)
    }
}

/// The entries of a listing with the given extension, in listing order.
pub open spec fn entries_with_extension(
    entries: Seq<FoundFileView>,
    ext: Seq<char>,
    ignore_case: bool,
) -> Seq<FoundFileView>
    decreases entries.len(),
{
    if entries.len() == 0 {
        Seq::empty()
    } else if entry_has_extension(entries.last(), ext, ignore_case) {
        entries_with_extension(entries.drop_last(), ext, ignore_case).push(entries.last())
    } else {
        entries_with_extension(entries.drop_last(), ext, ignore_case)
    }
}

/// Whether an entry is a Markdown file.
pub open spec fn is_markdown(e: FoundFileView) -> bool {
    path_has_extension(e.file_name, "md"@)
}

/// Whether an entry is listed among the file peers: a Markdown file directly
/// in the folder, other than the one to pass over.
pub open spec fn is_file_peer(e: FoundFileView, skip: Option<Seq<char>>) -> bool {
    is_markdown(e) && e.parent.len() == 0 && skip != Some(e.file_name)
}

/// Whether an entry makes its directory a subfolder peer: a Markdown file
/// below the folder.
pub open spec fn is_folder_entry(e: FoundFileView) -> bool {
    is_markdown(e) && e.parent.len() > 0
}

/// The link of a file peer: its encoded file name, labelled with its stem.
pub open spec fn file_peer(e: FoundFileView) -> ExternalLinkView {
    ExternalLinkView {
        url: url_encoded(e.file_name),
        name: name_stem(file_name_of(e.file_name)),
    }
}

/// The link of a subfolder peer: its encoded path with a closing `/`,
/// labelled with the path.
pub open spec fn folder_peer(parent: Seq<char>) -> ExternalLinkView {
    ExternalLinkView { url: url_encoded(parent) + "/"@, name: parent }
}

/// The links of the file peers of a listing, in listing order.
pub open spec fn file_peers(entries: Seq<FoundFileView>, skip: Option<Seq<char>>) -> Seq<
    ExternalLinkView,
>
    decreases entries.len(),
{
    if entries.len() == 0 {
        Seq::empty()
    } else if is_file_peer(entries.last(), skip) {
        file_peers(entries.drop_last(), skip).push(file_peer(entries.last()))
    } else {
        file_peers(entries.drop_last(), skip)
    }
}

/// Whether `parent` is the directory of a Markdown file below the folder.
pub open spec fn is_subfolder(entries: Seq<FoundFileView>, parent: Seq<char>) -> bool {
    exists|t: int| 0 <= t < entries.len() && is_folder_entry(#[trigger] entries[t]) && entries[t].parent == parent
}

/// Whether `peers` is the peer information of a listing: the file peers,
/// the index file first and the rest by name, letter case aside, and one
/// link per subfolder, by name as it stands; nothing at all when there is
/// neither file nor subfolder.
pub open spec fn is_peer_info(
    peers: Option<PeerInfoView>,
    entries: Seq<FoundFileView>,
    skip: Option<Seq<char>>,
    index_file: Seq<char>,
) -> bool {
    match peers {
        Some(p) => {
            &&& p.files.len() + p.folders.len() > 0
            &&& links_sorted(p.files, Some(url_encoded(index_file)))
            &&& p.files.to_multiset() == file_peers(entries, skip).to_multiset()
            &&& links_sorted(p.folders, None)
            &&& p.folders.no_duplicates()
            &&& forall|l: ExternalLinkView|
                p.folders.contains(l) <==> is_subfolder(entries, l.name) && l == folder_peer(l.name)
        },
        None => {
            &&& file_peers(entries, skip).len() == 0
            &&& forall|t: int| 0 <= t < entries.len() ==> !is_folder_entry(#[trigger] entries[t])
        },
    }
}

/// The view of an optional string slice.
pub open spec fn opt_str_view(s: Option<&str>) -> Option<Seq<char>> {
    match s {
        Some(t) => Some(t@),
        None => None,
    }
}

/// The view of optional peer information.
pub open spec fn opt_peer_view(p: Option<PeerInfo>) -> Option<PeerInfoView> {
    match p {
        Some(x) => Some(x@),
        None => None,
    }
}

/// The paths among `paths` that name Markdown files, in order.
pub open spec fn markdown_paths(paths: Seq<Seq<char>>) -> Seq<Seq<char>>
    decreases paths.len(),
{
    if paths.len() == 0 {
        Seq::empty()
    } else if path_has_extension(paths.last(), "md"@) {
        markdown_paths(paths.drop_last()).push(paths.last())
    } else {
        markdown_paths(paths.drop_last())
    }
}

fn has_folder(folders: &Vec<ExternalLink>, parent: &str) -> (r: bool)
    ensures
        r == exists|k: int| 0 <= k < folders@.len() && (#[trigger] folders@[k]).name@ == parent@,
{
    let mut k: usize = 0;
    while k < folders.len()
        invariant
            k <= folders.len(),
            forall|j: int| 0 <= j < k ==> (#[trigger] folders@[j]).name@ != parent@,
        decreases folders.len() - k,
    {
        if str_eq(folders[k].name.as_str(), parent) {
            return true;
        }
        k += 1;
    }
    false
}

/// What the server knows of the document tree: its root and the name of the
/// index file.
#[derive(Debug)]
pub struct FileManager {
    pub document_root: String,
    pub index_file: String,
}

impl FileManager {
    pub fn new(document_root: &str, index_file: &str) -> (r: Self)
        ensures
            r.document_root@ == document_root@,
            r.index_file@ == index_file@,
    {
        FileManager {
            document_root: String::from_str(document_root),
            index_file: String::from_str(index_file),
        }
    }

    /// The Markdown files among the files of the document tree.
    pub fn get_markdown_files(&self, files: &Vec<String>) -> (r: Vec<String>)
        ensures
            string_views(r@) == markdown_paths(string_views(files@)),
    {
        let ghost views = string_views(files@);
        let mut out: Vec<String> = Vec::new();
        let mut i: usize = 0;
        assert(views.subrange(0, 0) =~= Seq::<Seq<char>>::empty());
        assert(string_views(out@) =~= Seq::<Seq<char>>::empty());
        while i < files.len()
            invariant
                i <= files.len(),
                views == string_views(files@),
                string_views(out@) == markdown_paths(views.subrange(0, i as int)),
            decreases files.len() - i,
        {
            proof {
                assert(views.subrange(0, i + 1).drop_last() =~= views.subrange(0, i as int));
                assert(views.subrange(0, i + 1).last() == files@[i as int]@);
            }
            if has_extension(files[i].as_str(), "md") {
                let ghost before = string_views(out@);
                out.push(files[i].clone());
                assert(string_views(out@) =~= before.push(files@[i as int]@));
            }
            i += 1;
        }
        assert(views.subrange(0, i as int) =~= views);
        out
    }

    /// The entries of a listing with the extension `ext`.
    pub fn find_files(&self, entries: &Vec<FoundFile>, ext: &str, ignore_case: bool) -> (r: Vec<
        FoundFile,
    >)
        ensures
            found_views(r@) == entries_with_extension(found_views(entries@), ext@, ignore_case),
    {
        let ghost views = found_views(entries@);
        let mut out: Vec<FoundFile> = Vec::new();
        let mut i: usize = 0;
        assert(views.subrange(0, 0) =~= Seq::<FoundFileView>::empty());
        assert(found_views(out@) =~= Seq::<FoundFileView>::empty());
        while i < entries.len()
            invariant
                i <= entries.len(),
                views == found_views(entries@),
                found_views(out@) == entries_with_extension(
                    views.subrange(0, i as int),
                    ext@,
                    ignore_case,
                ),
            decreases entries.len() - i,
        {
            proof {
                assert(views.subrange(0, i + 1).drop_last() =~= views.subrange(0, i as int));
                assert(views.subrange(0, i + 1).last() == entries@[i as int]@);
            }
            let hit = if ignore_case {
                has_extension(entries[i].file_name.as_str(), ext)
            } else {
                crate::text::has_exact_extension(entries[i].file_name.as_str(), ext)
            };
            if hit {
                let ghost before = found_views(out@);
                out.push(entries[i].clone());
                assert(found_views(out@) =~= before.push(entries@[i as int]@));
            }
            i += 1;
        }
        assert(views.subrange(0, i as int) =~= views);
        out
    }

    /// The peers that a listing of a folder shows, leaving out the file named
    /// `skip`.
    pub fn find_peers_in_folder(&self, entries: &Vec<FoundFile>, skip: Option<&str>) -> (r: Option<
        PeerInfo,
    >)
        ensures
            is_peer_info(
                opt_peer_view(r),
                found_views(entries@),
                opt_str_view(skip),
                self.index_file@,
            ),
    {
        let ghost views = found_views(entries@);
        let ghost skipv = opt_str_view(skip);
        let mut files: Vec<ExternalLink> = Vec::new();
        let mut folders: Vec<ExternalLink> = Vec::new();
        let mut i: usize = 0;
        assert(views.subrange(0, 0) =~= Seq::<FoundFileView>::empty());
        assert(external_link_views(files@) =~= Seq::<ExternalLinkView>::empty());
        while i < entries.len()
            invariant
                i <= entries.len(),
                views == found_views(entries@),
                skipv == opt_str_view(skip),
                external_link_views(files@) == file_peers(views.subrange(0, i as int), skipv),
                forall|a: int, b: int|
                    0 <= a < b < folders@.len() ==> (#[trigger] folders@[a]).name@ != (
                    #[trigger] folders@[b]).name@,
                forall|k: int|
                    0 <= k < folders@.len() ==> (#[trigger] folders@[k])@ == folder_peer(
                        folders@[k].name@,
                    ) && is_subfolder(views.subrange(0, i as int), folders@[k].name@),
                forall|t: int|
                    0 <= t < i && is_folder_entry(#[trigger] views[t]) ==> exists|k: int|
                        0 <= k < folders@.len() && (#[trigger] folders@[k]).name@ == views[t].parent,
            decreases entries.len() - i,
        {
            let e = &entries[i];
            let ghost folders_start = folders@;
            proof {
                assert(views.subrange(0, i + 1).drop_last() =~= views.subrange(0, i as int));
                assert(views.subrange(0, i + 1).last() == e@);
                assert forall|k: int| 0 <= k < folders@.len() implies is_subfolder(
                    views.subrange(0, i + 1),
                    (#[trigger] folders@[k]).name@,
                ) by {
                    let t = choose|t: int|
                        0 <= t < views.subrange(0, i as int).len() && is_folder_entry(
                            #[trigger] views.subrange(0, i as int)[t],
                        ) && views.subrange(0, i as int)[t].parent == folders@[k].name@;
                    assert(views.subrange(0, i + 1)[t] == views.subrange(0, i as int)[t]);
                }
            }
            if has_extension(e.file_name.as_str(), "md") {
                if e.parent.as_str().is_empty() {
                    let skipped = match skip {
                        Some(s) => str_eq(e.file_name.as_str(), s),
                        None => false,
                    };
                    if !skipped {
                        let ghost before = external_link_views(files@);
                        let link = ExternalLink::new(
                            url_encode(e.file_name.as_str()),
                            file_stem(e.file_name.as_str()),
                        );
                        files.push(link);
                        assert(external_link_views(files@) =~= before.push(file_peer(e@)));
                    }
                } else {
                    if !has_folder(&folders, e.parent.as_str()) {
                        let url = url_encode(e.parent.as_str()).concat("/");
                        let link = ExternalLink::new(url, e.parent.clone());
                        folders.push(link);
                        assert(folders@[folders@.len() - 1].name@ == e.parent@);
                    }
                    proof {
                        assert(views.subrange(0, i + 1)[i as int] == e@);
                        assert(is_subfolder(views.subrange(0, i + 1), e.parent@));
                        assert(exists|k: int|
                            0 <= k < folders@.len() && (#[trigger] folders@[k]).name@ == e.parent@);
                    }
                }
            }
            proof {
                assert forall|t: int| 0 <= t < i + 1 && is_folder_entry(
                    #[trigger] views[t],
                ) implies exists|k: int|
                    0 <= k < folders@.len() && (#[trigger] folders@[k]).name@
                        == views[t].parent by {
                    if t < i {
                        let k = choose|k: int|
                            0 <= k < folders_start.len() && (#[trigger] folders_start[k]).name@
                                == views[t].parent;
                        assert(folders@[k] == folders_start[k]);
                    } else {
                        assert(views[t] == e@);
                        let k = choose|k: int|
                            0 <= k < folders@.len() && (#[trigger] folders@[k]).name@ == e.parent@;
                        assert(folders@[k].name@ == views[t].parent);
                    }
                }
            }
            i += 1;
        }
        assert(views.subrange(0, i as int) =~= views);
        if files.len() == 0 && folders.len() == 0 {
            return None;
        }
        let ghost files_before = external_link_views(files@);
        let ghost folders_before = external_link_views(folders@);
        let mut peers = PeerInfo { files, folders };
        peers.sort(self.index_file.as_str());
        proof {
            broadcast use vstd::seq_lib::group_to_multiset_ensures;

            let after = peers@.folders;
            assert(folders_before.no_duplicates()) by {
                assert forall|a: int, b: int|
                    0 <= a < folders_before.len() && 0 <= b < folders_before.len() && a
                        != b implies folders_before[a] != folders_before[b] by {
                    if a < b {
                        assert(folders@[a].name@ != folders@[b].name@);
                    } else {
                        assert(folders@[b].name@ != folders@[a].name@);
                    }
                }
            }
            folders_before.lemma_multiset_has_no_duplicates();
            after.lemma_multiset_has_no_duplicates_conv();
            assert forall|l: ExternalLinkView| after.contains(l) <==> is_subfolder(views, l.name)
                && l == folder_peer(l.name) by {
                if after.contains(l) {
                    assert(folders_before.to_multiset().count(l) > 0);
                    assert(folders_before.contains(l));
                    let k = choose|k: int| 0 <= k < folders_before.len() && folders_before[k] == l;
                    assert(folders@[k]@ == l);
                }
                if is_subfolder(views, l.name) && l == folder_peer(l.name) {
                    let t = choose|t: int|
                        0 <= t < views.len() && is_folder_entry(#[trigger] views[t])
                            && views[t].parent == l.name;
                    let k = choose|k: int|
                        0 <= k < folders@.len() && (#[trigger] folders@[k]).name@ == views[t].parent;
                    assert(folders_before[k] == l);
                    assert(folders_before.contains(l));
                    assert(after.to_multiset().count(l) > 0);
                }
            }
            vstd::seq_lib::to_multiset_len(files_before);
            vstd::seq_lib::to_multiset_len(folders_before);
            vstd::seq_lib::to_multiset_len(peers@.files);
            vstd::seq_lib::to_multiset_len(peers@.folders);
        }
        Some(peers)
    }

    /// The peers of the document at `relative_path`, given a listing of the
    /// folder it lies in. The document itself is left out, unless it is the
    /// index file; a path without a file name has no peers.
    pub fn find_peers(&self, relative_path: &str, entries: &Vec<FoundFile>) -> (r: Option<PeerInfo>)
        ensures
            file_name_of(relative_path@).len() == 0 ==> r is None,
            file_name_of(relative_path@).len() > 0 ==> is_peer_info(
                opt_peer_view(r),
                found_views(entries@),
                if file_name_of(relative_path@) == self.index_file@ {
                    None
                } else {
                    Some(file_name_of(relative_path@))
                },
                self.index_file@,
            ),
    {
        let original_file_name = file_name(relative_path);
        if original_file_name.as_str().is_empty() {
            return None;
        }
        if str_eq(original_file_name.as_str(), self.index_file.as_str()) {
            self.find_peers_in_folder(entries, None)
        } else {
            self.find_peers_in_folder(entries, Some(original_file_name.as_str()))
        }
    }
}

/// What happened to a watched path.
#[derive(Debug, Clone, Copy, PartialEq, Eq, Structural)]
pub enum ChangeKind {
    Created,
    Modified,
    Removed,
    /// Reads and anything else that changes nothing.
    Other,
}

/// One debounced event of the directory watcher: its kind, the path it was
/// recorded for and the paths the underlying notification names.
#[derive(Debug)]
pub struct WatchEvent {
    pub kind: ChangeKind,
    pub path: String,
    pub paths: Vec<String>,
}

/// Mathematical value of a [`WatchEvent`].
pub struct WatchEventView {
    pub kind: ChangeKind,
    pub path: Seq<char>,
    pub paths: Seq<Seq<char>>,
}

impl View for WatchEvent {
    type V = WatchEventView;

    open spec fn view(&self) -> WatchEventView {
        WatchEventView { kind: self.kind, path: self.path@, paths: string_views(self.paths@) }
    }
}

/// The paths that one event publishes: its own path when something was
/// created or removed, every named path when something was modified, none
/// otherwise.
pub open spec fn published_paths(e: WatchEventView) -> Seq<Seq<char>> {
    match e.kind {
        ChangeKind::Created => seq![e.path],
        ChangeKind::Modified => e.paths,
        ChangeKind::Removed => seq![e.path],
        ChangeKind::Other => Seq::empty(),
    }
}

/// The paths that a batch of events publishes, in order.
pub open spec fn all_published_paths(events: Seq<WatchEventView>) -> Seq<Seq<char>>
    decreases events.len(),
{
    if events.len() == 0 {
        Seq::empty()
    } else {
        all_published_paths(events.drop_last()) + published_paths(events.last())
    }
}

/// The views of a batch of events.
pub open spec fn watch_event_views(s: Seq<WatchEvent>) -> Seq<WatchEventView> {
    s.map_values(|e: WatchEvent| e@)
}

/// Flattens a batch of watcher events into the paths to broadcast.
pub fn directory_watcher(events: &Vec<WatchEvent>) -> (r: Vec<String>)
    ensures
        string_views(r@) == all_published_paths(watch_event_views(events@)),
{
    let ghost views = watch_event_views(events@);
    let mut out: Vec<String> = Vec::new();
    let mut i: usize = 0;
    assert(views.subrange(0, 0) =~= Seq::<WatchEventView>::empty());
    assert(string_views(out@) =~= Seq::<Seq<char>>::empty());
    while i < events.len()
        invariant
            i <= events.len(),
            views == watch_event_views(events@),
            string_views(out@) == all_published_paths(views.subrange(0, i as int)),
        decreases events.len() - i,
    {
        let e = &events[i];
        let ghost before = string_views(out@);
        proof {
            assert(views.subrange(0, i + 1).drop_last() =~= views.subrange(0, i as int));
            assert(views.subrange(0, i + 1).last() == e@);
        }
        match e.kind {
            ChangeKind::Created => {
                out.push(e.path.clone());
                assert(string_views(out@) =~= before + seq![e.path@]);
            },
            ChangeKind::Removed => {
                out.push(e.path.clone());
                assert(string_views(out@) =~= before + seq![e.path@]);
            },
            ChangeKind::Modified => {
                let mut j: usize = 0;
                assert(string_views(e.paths@).subrange(0, 0) =~= Seq::<Seq<char>>::empty());
                assert(before + Seq::<Seq<char>>::empty() =~= before);
                while j < e.paths.len()
                    invariant
                        j <= e.paths.len(),
                        string_views(out@) == before + string_views(e.paths@).subrange(0, j as int),
                    decreases e.paths.len() - j,
                {
                    let ghost prev = string_views(out@);
                    out.push(e.paths[j].clone());
                    assert(string_views(out@) =~= prev.push(e.paths@[j as int]@));
                    j += 1;
                    assert(string_views(out@) =~= before + string_views(e.paths@).subrange(
                        0,
                        j as int,
                    ));
                }
                assert(string_views(e.paths@).subrange(0, j as int) =~= string_views(e.paths@));
            },
            ChangeKind::Other => {
                assert(before + Seq::<Seq<char>>::empty() =~= before);
            },
        }
        i += 1;
    }
    assert(views.subrange(0, i as int) =~= views);
    out
}

} // verus!
