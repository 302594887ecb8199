//! Scrapes headings, code languages, front-matter and the title out of a
//! document's Markdown events.

use crate::markdown::{
    event_views, markdown_event_seq, markdown_html, parse_events, render_html, MdEvent,
    MdEventView, DOCUMENT_OPTIONS,
};
use crate::anchors::{
    anchor_base, fresh_anchor, is_safe_anchor, lemma_fresh_anchor, lemma_fresh_anchor_safe,
    link_anchors, unique_anchor, CONTENTS_ANCHOR, TOP_ANCHOR,
};
use crate::metadata::Metadata;
use crate::text::{ascii_lower_seq, chars_eq, chars_to_lower, str_chars, str_eq};
use regex::Regex;
use vstd::prelude::*;
use vstd::std_specs::cmp::PartialEqSpecImpl;
use yaml_rust2::YamlLoader;

verus! {

/// One heading inside a document.
#[derive(Debug)]
pub struct InternalLink {
    pub anchor: String,
    pub name: String,
    pub level: u8,
}

/// Mathematical value of an [`InternalLink`].
pub struct InternalLinkView {
    pub anchor: Seq<char>,
    pub name: Seq<char>,
    pub level: u8,
}

impl View for InternalLink {
    type V = InternalLinkView;

    open spec fn view(&self) -> InternalLinkView {
        InternalLinkView { anchor: self.anchor@, name: self.name@, level: self.level }
    }
}

impl InternalLink {
    pub fn new(anchor: String, name: String, level: u8) -> (r: Self)
        ensures
            r.anchor == anchor,
            r.name == name,
            r.level == level,
            r@ == (InternalLinkView { anchor: anchor@, name: name@, level }),
    {
        InternalLink { anchor, name, level }
    }
}

impl Clone for InternalLink {
    fn clone(&self) -> (r: Self)
        ensures
            r@ == self@,
    {
        InternalLink { anchor: self.anchor.clone(), name: self.name.clone(), level: self.level }
    }
}

impl PartialEq for InternalLink {
    fn eq(&self, other: &Self) -> (r: bool) {
        self.anchor == other.anchor && self.name == other.name && self.level == other.level
    }
}

impl PartialEqSpecImpl for InternalLink {
    open spec fn obeys_eq_spec() -> bool {
        true
    }

    open spec fn eq_spec(&self, other: &Self) -> bool {
        self.anchor@ == other.anchor@ && self.name@ == other.name@ && self.level == other.level
    }
}

/// The views of a sequence of internal links.
pub open spec fn link_views(links: Seq<InternalLink>) -> Seq<InternalLinkView> {
    links.map_values(|l: InternalLink| l@)
}

/// One entry of a breadcrumb trail or of a peer list.
#[derive(Debug)]
pub struct ExternalLink {
    pub url: String,
    pub name: String,
}

/// Mathematical value of an [`ExternalLink`].
pub struct ExternalLinkView {
    pub url: Seq<char>,
    pub name: Seq<char>,
}

impl View for ExternalLink {
    type V = ExternalLinkView;

    open spec fn view(&self) -> ExternalLinkView {
        ExternalLinkView { url: self.url@, name: self.name@ }
    }
}

impl ExternalLink {
    pub fn new(url: String, name: String) -> (r: Self)
        ensures
            r.url == url,
            r.name == name,
            r@ == (ExternalLinkView { url: url@, name: name@ }),
    {
        ExternalLink { url, name }
    }
}

impl Clone for ExternalLink {
    fn clone(&self) -> (r: Self)
        ensures
            r@ == self@,
    {
        ExternalLink { url: self.url.clone(), name: self.name.clone() }
    }
}

impl PartialEq for ExternalLink {
    fn eq(&self, other: &Self) -> (r: bool) {
        self.url == other.url && self.name == other.name
    }
}

impl PartialEqSpecImpl for ExternalLink {
    open spec fn obeys_eq_spec() -> bool {
        true
    }

    open spec fn eq_spec(&self, other: &Self) -> bool {
        self.url@ == other.url@ && self.name@ == other.name@
    }
}

/// The views of a sequence of external links.
pub open spec fn external_link_views(links: Seq<ExternalLink>) -> Seq<ExternalLinkView> {
    links.map_values(|l: ExternalLink| l@)
}

/// The view of an optional string.
pub open spec fn opt_view(s: Option<String>) -> Option<Seq<char>> {
    match s {
        Some(t) => Some(t@),
        None => None,
    }
}

/// Pattern of an inline HTML heading: the depth digit, the attribute text and
/// the heading text are its three groups.
pub const HEADING_PATTERN: &'static str = r"<[hH](\d)\s*([^<]*)>([^<]*)</[hH]\d>";

/// Pattern of an explicit `id` attribute; the identifier is its one group.
pub const ID_PATTERN: &'static str = "id=\"([^\"]+)\"";

/// Name of the template used when the front-matter selects none.
pub const DEFAULT_TEMPLATE: &'static str = "markdown.html";

/// Name of the template that gets a trailing "Contents" entry.
pub const INDEX_TEMPLATE: &'static str = "index.html";

/// The capture groups of the leftmost match of `pattern` in `text`, group 0
/// first; `None` where nothing matches or the pattern does not compile, and a
/// `None` entry for a group that took no part in the match.
pub uninterp spec fn regex_capture_groups(pattern: Seq<char>, text: Seq<char>) -> Option<
    Seq<Option<Seq<char>>>,
>;

/// The slug of `text` for the given stop words, separator and length limit.
pub uninterp spec fn slugified(
    text: Seq<char>,
    stop_words: Seq<char>,
    separator: Seq<char>,
    max_length: Option<usize>,
) -> Seq<char>;

/// The YAML documents of `text`, each reduced to the entries of its top-level
/// mapping; `None` where the text does not load.
pub uninterp spec fn yaml_documents(text: Seq<char>) -> Option<Seq<YamlDocumentView>>;

/// One entry of a top-level YAML mapping: key and value, each present only
/// when it is a string scalar.
#[derive(Debug)]
pub struct YamlEntry {
    pub key: Option<String>,
    pub value: Option<String>,
}

/// One YAML document: the entries of its top-level mapping, or `None` when the
/// document is not a mapping.
#[derive(Debug)]
pub struct YamlDocument {
    pub entries: Option<Vec<YamlEntry>>,
}

/// Mathematical value of a [`YamlEntry`].
pub struct YamlEntryView {
    pub key: Option<Seq<char>>,
    pub value: Option<Seq<char>>,
}

/// Mathematical value of a [`YamlDocument`].
pub struct YamlDocumentView {
    pub entries: Option<Seq<YamlEntryView>>,
}

impl View for YamlEntry {
    type V = YamlEntryView;

    open spec fn view(&self) -> YamlEntryView {
        YamlEntryView { key: opt_view(self.key), value: opt_view(self.value) }
    }
}

impl View for YamlDocument {
    type V = YamlDocumentView;

    open spec fn view(&self) -> YamlDocumentView {
        YamlDocumentView {
            entries: match self.entries {
                Some(e) => Some(e@.map_values(|x: YamlEntry| x@)),
                None => None,
            },
        }
    }
}

/// The views of a sequence of YAML documents.
pub open spec fn yaml_document_views(docs: Seq<YamlDocument>) -> Seq<YamlDocumentView> {
    docs.map_values(|d: YamlDocument| d@)
}

/// The views of a list of optional capture groups.
pub open spec fn group_views(groups: Seq<Option<String>>) -> Seq<Option<Seq<char>>> {
    groups.map_values(|g: Option<String>| opt_view(g))
}

/// Matches `pattern` against `text` and returns the capture groups of the
/// leftmost match.
///
/// Trusted: compiles the pattern with `regex::Regex::new` and calls
/// `Regex::captures`. The outcome is a pure function of both strings and is
/// named by [`regex_capture_groups`]; a pattern that does not compile gives
/// `None`, as a text without a match does.
#[verifier::external_body]
pub(crate) fn match_groups(pattern: &str, text: &str) -> (r: Option<Vec<Option<String>>>)
    ensures
        match r {
            Some(groups) => regex_capture_groups(pattern@, text@) == Some(group_views(groups@)),
            None => regex_capture_groups(pattern@, text@) is None,
        },
{
    match Regex::new(pattern) {
        Ok(re) => re.captures(text).map(|c| c.iter().map(|m| m.map(|g| g.as_str().to_string())).collect()),
        Err(_) => None,
    }
}

/// The slug of `text`.
///
/// Trusted: calls `slugify::slugify`, which transliterates, lower-cases and
/// joins the alphanumeric runs with the separator. The result is a pure
/// function of the arguments and is named by [`slugified`]. The separator must
/// start with an ASCII character, which the outside function indexes and
/// narrows to a byte.
#[verifier::external_body]
pub(crate) fn slugify_text(text: &str, stop_words: &str, separator: &str, max_length: Option<usize>) -> (r: String)
    requires
        separator@.len() > 0,
        (separator@[0] as u32) < 128,
    ensures
        r@ == slugified(text@, stop_words@, separator@, max_length),
{
    slugify::slugify(text, stop_words, separator, max_length)
}

/// Loads `text` as YAML and reduces each document to its top-level entries.
///
/// Trusted: calls `yaml_rust2::YamlLoader::load_from_str`, then reads each
/// document with `Yaml::as_hash` and each key and value with `Yaml::as_str`.
/// The outcome is a pure function of the text and is named by
/// [`yaml_documents`]; a text that does not load gives `None`.
#[verifier::external_body]
pub(crate) fn load_yaml(text: &str) -> (r: Option<Vec<YamlDocument>>)
    ensures
        match r {
            Some(docs) => yaml_documents(text@) == Some(yaml_document_views(docs@)),
            None => yaml_documents(text@) is None,
        },
{
    match YamlLoader::load_from_str(text) {
        Ok(docs) => Some(docs.iter().map(|d| YamlDocument {
            entries: d.as_hash().map(|h| h.iter().map(|(k, v)| YamlEntry {
                key: k.as_str().map(String::from),
                value: v.as_str().map(String::from),
            }).collect()),
        }).collect()),
        Err(_) => None,
    }
}

/// Whether `lang` is one of the languages that the highlighter is loaded for.
pub open spec fn is_code_language(lang: Seq<char>) -> bool {
    ||| lang == "applescript"@
    ||| lang == "bash"@
    ||| lang == "c"@
    ||| lang == "cpp"@
    ||| lang == "csharp"@
    ||| lang == "erlang"@
    ||| lang == "fortran"@
    ||| lang == "go"@
    ||| lang == "haskell"@
    ||| lang == "html"@
    ||| lang == "ini"@
    ||| lang == "java"@
    ||| lang == "js"@
    ||| lang == "make"@
    ||| lang == "markdown"@
    ||| lang == "objectivec"@
    ||| lang == "perl"@
    ||| lang == "php"@
    ||| lang == "python"@
    ||| lang == "r"@
    ||| lang == "rust"@
    ||| lang == "sql"@
    ||| lang == "text"@
    ||| lang == "xml"@
    ||| lang == "yaml"@
}

fn same(lang: &Vec<char>, name: &'static str) -> (r: bool)
    ensures
        r == (lang@ == name@),
{
    let n = str_chars(name);
    chars_eq(lang, &n)
}

/// Looks `lang` up in the allowlist and returns the allowlist's own entry.
pub fn code_language(lang: &Vec<char>) -> (r: Option<&'static str>)
    ensures
        match r {
            Some(name) => is_code_language(lang@) && name@ == lang@,
            None => !is_code_language(lang@),
        },
{
    if same(lang, "applescript") {
        Some("applescript")
    } else if same(lang, "bash") {
        Some("bash")
    } else if same(lang, "c") {
        Some("c")
    } else if same(lang, "cpp") {
        Some("cpp")
    } else if same(lang, "csharp") {
        Some("csharp")
    } else if same(lang, "erlang") {
        Some("erlang")
    } else if same(lang, "fortran") {
        Some("fortran")
    } else if same(lang, "go") {
        Some("go")
    } else if same(lang, "haskell") {
        Some("haskell")
    } else if same(lang, "html") {
        Some("html")
    } else if same(lang, "ini") {
        Some("ini")
    } else if same(lang, "java") {
        Some("java")
    } else if same(lang, "js") {
        Some("js")
    } else if same(lang, "make") {
        Some("make")
    } else if same(lang, "markdown") {
        Some("markdown")
    } else if same(lang, "objectivec") {
        Some("objectivec")
    } else if same(lang, "perl") {
        Some("perl")
    } else if same(lang, "php") {
        Some("php")
    } else if same(lang, "python") {
        Some("python")
    } else if same(lang, "r") {
        Some("r")
    } else if same(lang, "rust") {
        Some("rust")
    } else if same(lang, "sql") {
        Some("sql")
    } else if same(lang, "text") {
        Some("text")
    } else if same(lang, "xml") {
        Some("xml")
    } else if same(lang, "yaml") {
        Some("yaml")
    } else {
        None
    }
}

/// The depth that a captured digit stands for: one of the digits 1 to 6
/// gives its value, anything else gives nothing.
pub open spec fn digit_level(text: Seq<char>) -> Option<u8> {
    if text.len() == 1 && '1' <= text[0] && text[0] <= '6' {
        Some(((text[0] as u8) - 48) as u8)
    } else {
        None
    }
}

/// Reads a captured depth digit.
pub fn parse_level(text: &str) -> (r: Option<u8>)
    ensures
        r == digit_level(text@),
{
    let chars = str_chars(text);
    if chars.len() == 1 && '1' <= chars[0] && chars[0] <= '6' {
        Some((chars[0] as u8) - 48)
    } else {
        None
    }
}

/// The identifier that the groups of an [`ID_PATTERN`] match carry.
pub open spec fn id_from_groups(groups: Option<Seq<Option<Seq<char>>>>) -> Option<Seq<char>> {
    match groups {
        Some(g) => if g.len() > 1 {
            g[1]
        } else {
            None
        },
        None => None,
    }
}

/// The identifier of an explicit `id="..."` attribute inside `attrs`.
pub open spec fn explicit_id(attrs: Seq<char>) -> Option<Seq<char>> {
    id_from_groups(regex_capture_groups(ID_PATTERN@, attrs))
}

/// The link that the groups of a [`HEADING_PATTERN`] match describe.
///
/// The heading text is the name. The anchor is the explicit `id` when the
/// attribute text carries one and the heading text otherwise. The depth is the
/// captured digit, 1 when the digit took no part in the match; a depth other
/// than 1 to 6 gives no link, and so does a match without heading text.
pub open spec fn link_from_groups(groups: Seq<Option<Seq<char>>>) -> Option<InternalLinkView> {
    if groups.len() > 3 && groups[3] is Some {
        let name = groups[3]->0;
        let anchor = match groups[2] {
            Some(attrs) => match explicit_id(attrs) {
                Some(id) => id,
                None => name,
            },
            None => name,
        };
        let level = match groups[1] {
            Some(digit) => digit_level(digit),
            None => Some(1u8),
        };
        match level {
            Some(l) => Some(InternalLinkView { anchor, name, level: l }),
            None => None,
        }
    } else {
        None
    }
}

/// The link that a block of raw HTML contributes, if it holds a heading.
pub open spec fn html_heading_link(text: Seq<char>) -> Option<InternalLinkView> {
    match regex_capture_groups(HEADING_PATTERN@, text) {
        Some(groups) => link_from_groups(groups),
        None => None,
    }
}

/// Picks the identifier out of the groups of an [`ID_PATTERN`] match.
pub fn id_of_groups(groups: Option<Vec<Option<String>>>) -> (r: Option<String>)
    ensures
        opt_view(r) == id_from_groups(
            match groups {
                Some(g) => Some(group_views(g@)),
                None => None,
            },
        ),
{
    match groups {
        Some(g) => {
            if g.len() > 1 {
                g[1].clone()
            } else {
                None
            }
        },
        None => None,
    }
}

/// Builds the link of an inline HTML heading from its capture groups.
pub fn heading_link(groups: &Vec<Option<String>>) -> (r: Option<InternalLink>)
    ensures
        match r {
            Some(l) => link_from_groups(group_views(groups@)) == Some(l@),
            None => link_from_groups(group_views(groups@)) is None,
        },
{
    if groups.len() <= 3 {
        return None;
    }
    let name = match &groups[3] {
        Some(n) => n.clone(),
        None => {
            return None;
        },
    };
    let anchor = match &groups[2] {
        Some(attrs) => {
            let id_groups = match_groups(ID_PATTERN, attrs.as_str());
            match id_of_groups(id_groups) {
                Some(id) => id,
                None => name.clone(),
            }
        },
        None => name.clone(),
    };
    let level = match &groups[1] {
        Some(digit) => parse_level(digit.as_str()),
        None => Some(1u8),
    };
    match level {
        Some(l) => Some(InternalLink::new(anchor, name, l)),
        None => None,
    }
}

/// Mathematical value of a [`DocumentScraper`].
pub struct ScraperView {
    pub internal_links: Seq<InternalLinkView>,
    pub code_languages: Seq<Seq<char>>,
    pub metadata: Map<Seq<char>, Seq<char>>,
    pub title: Option<Seq<char>>,
    /// Text gathered since the heading or front-matter block in progress
    /// opened; `None` outside both.
    pub text_collector: Option<Seq<char>>,
    pub has_code_blocks: bool,
    pub starts_with_heading: bool,
    /// Whether anything readable has opened so far.
    pub has_readable_text: bool,
}

/// The state before the first event.
pub open spec fn initial_scrape() -> ScraperView {
    ScraperView {
        internal_links: Seq::empty(),
        code_languages: Seq::empty(),
        metadata: Map::empty(),
        title: None,
        text_collector: None,
        has_code_blocks: false,
        starts_with_heading: false,
        has_readable_text: false,
    }
}

/// The metadata after the entries of one mapping: an entry whose key and
/// value are both strings is stored, any other is passed over.
pub open spec fn with_entries(
    m: Map<Seq<char>, Seq<char>>,
    entries: Seq<YamlEntryView>,
) -> Map<Seq<char>, Seq<char>>
    decreases entries.len(),
{
    if entries.len() == 0 {
        m
    } else {
        let before = with_entries(m, entries.drop_last());
        let e = entries.last();
        if e.key is Some && e.value is Some {
            before.insert(e.key->0, e.value->0)
        } else {
            before
        }
    }
}

/// The metadata after a list of documents: each document that is a mapping
/// contributes its entries, in order.
pub open spec fn with_documents(
    m: Map<Seq<char>, Seq<char>>,
    docs: Seq<YamlDocumentView>,
) -> Map<Seq<char>, Seq<char>>
    decreases docs.len(),
{
    if docs.len() == 0 {
        m
    } else {
        let before = with_documents(m, docs.drop_last());
        match docs.last().entries {
            Some(entries) => with_entries(before, entries),
            None => before,
        }
    }
}

/// The metadata after a front-matter block with the given text: text that
/// does not load contributes nothing.
pub open spec fn with_front_matter(
    m: Map<Seq<char>, Seq<char>>,
    text: Seq<char>,
) -> Map<Seq<char>, Seq<char>> {
    match yaml_documents(text) {
        Some(docs) => with_documents(m, docs),
        None => m,
    }
}

/// The anchor of a Markdown heading with the given text, where the anchors
/// `taken` belong to the links scraped before it: the slug of the text, as
/// far as it can stand in an anchor, with a number behind it where that is
/// taken or kept for the top or the contents entry.
pub open spec fn heading_anchor(name: Seq<char>, taken: Seq<Seq<char>>) -> Seq<char> {
    fresh_anchor(anchor_base(slugified(name, ""@, "-"@, None)), taken)
}

/// The link of a Markdown heading with the given text and depth that follows
/// links with the anchors `taken`.
pub open spec fn heading_link_view(name: Seq<char>, level: u8, taken: Seq<Seq<char>>) -> InternalLinkView {
    InternalLinkView { anchor: heading_anchor(name, taken), name, level }
}

/// What one event does to the scrape.
pub open spec fn scrape_step(s: ScraperView, ev: MdEventView) -> ScraperView {
    match ev {
        MdEventView::StartMetadataBlock => ScraperView { text_collector: Some(Seq::empty()), ..s },
        MdEventView::StartHeading => ScraperView {
            starts_with_heading: s.starts_with_heading || !s.has_readable_text,
            has_readable_text: true,
            text_collector: Some(Seq::empty()),
            ..s
        },
        MdEventView::StartCodeBlock(kind) => ScraperView {
            has_code_blocks: true,
            code_languages: match kind {
                Some(lang) => if is_code_language(ascii_lower_seq(lang)) {
                    s.code_languages.push(ascii_lower_seq(lang))
                } else {
                    s.code_languages
                },
                None => s.code_languages,
            },
            ..s
        },
        MdEventView::StartOther => ScraperView { has_readable_text: true, ..s },
        MdEventView::Html(text) => match html_heading_link(text) {
            Some(link) => ScraperView { internal_links: s.internal_links.push(link), ..s },
            None => s,
        },
        MdEventView::Text(t) => match s.text_collector {
            Some(collected) => ScraperView { text_collector: Some(collected + t), ..s },
            None => s,
        },
        MdEventView::EndHeading(level) => match s.text_collector {
            Some(name) => ScraperView {
                title: if s.title is None {
                    Some(name)
                } else {
                    s.title
                },
                internal_links: s.internal_links.push(
                    heading_link_view(name, level, link_anchors(s.internal_links)),
                ),
                text_collector: None,
                ..s
            },
            None => s,
        },
        MdEventView::EndMetadataBlock => match s.text_collector {
            Some(text) => ScraperView {
                metadata: with_front_matter(s.metadata, text),
                text_collector: None,
                ..s
            },
            None => s,
        },
        MdEventView::Other => s,
    }
}

/// The scrape after a sequence of events, starting from `s`.
pub open spec fn scrape_run(s: ScraperView, events: Seq<MdEventView>) -> ScraperView
    decreases events.len(),
{
    if events.len() == 0 {
        s
    } else {
        scrape_step(scrape_run(s, events.drop_last()), events.last())
    }
}

/// Running totals of heading normalisation: the depth last handed out and the
/// depth last seen in the input.
pub struct LevelState {
    pub used: int,
    pub seen: int,
}

/// The totals after the given input depths. A depth above the last seen one
/// is handed out as one more than the last used; a depth below it is kept and
/// becomes both totals; an equal depth repeats the last used one.
pub open spec fn level_state(levels: Seq<u8>) -> LevelState
    decreases levels.len(),
{
    if levels.len() == 0 {
        LevelState { used: 0, seen: 0 }
    } else {
        let before = level_state(levels.drop_last());
        let level = levels.last() as int;
        if level > before.seen {
            LevelState { used: before.used + 1, seen: level }
        } else if level < before.seen {
            LevelState { used: level, seen: level }
        } else {
            before
        }
    }
}

/// The normalised depth of heading `i`: the depth in use once headings
/// `0..=i` have been read.
pub open spec fn normalized_level(levels: Seq<u8>, i: int) -> int {
    level_state(levels.subrange(0, i + 1)).used
}

/// The input depths of a list of links.
pub open spec fn levels_of(links: Seq<InternalLinkView>) -> Seq<u8> {
    links.map_values(|l: InternalLinkView| l.level)
}

/// The links with their depths normalised.
pub open spec fn normalized_links(links: Seq<InternalLinkView>) -> Seq<InternalLinkView> {
    Seq::new(
        links.len(),
        |i: int|
            InternalLinkView {
                anchor: links[i].anchor,
                name: links[i].name,
                level: normalized_level(levels_of(links), i) as u8,
            },
    )
}

/// The totals never run ahead of the input: the depth in use is at most the
/// depth last seen, which is at most 255.
pub proof fn lemma_level_state_bounds(levels: Seq<u8>)
    ensures
        0 <= level_state(levels).used <= level_state(levels).seen <= 255,
        levels.len() > 0 ==> level_state(levels).used <= levels.last(),
    decreases levels.len(),
{
    if levels.len() > 0 {
        lemma_level_state_bounds(levels.drop_last());
    }
}

/// The "Top" entry that stands in for a missing opening heading.
pub open spec fn top_link() -> InternalLinkView {
    InternalLinkView { anchor: TOP_ANCHOR@, name: "Top"@, level: 1 }
}

/// The "Contents" entry that closes the links of an index page.
pub open spec fn contents_link() -> InternalLinkView {
    InternalLinkView { anchor: CONTENTS_ANCHOR@, name: "Contents"@, level: 2 }
}

/// The template that the metadata selects.
pub open spec fn template_of(metadata: Map<Seq<char>, Seq<char>>) -> Seq<char> {
    if metadata.contains_key("template"@) {
        metadata["template"@]
    } else {
        DEFAULT_TEMPLATE@
    }
}

/// The links of a finished scrape, before normalisation: a "Top" entry in
/// front unless the document opens with a heading, a "Contents" entry behind
/// when the index template is selected.
pub open spec fn framed_links(s: ScraperView) -> Seq<InternalLinkView> {
    let front = if s.starts_with_heading {
        s.internal_links
    } else {
        seq![top_link()] + s.internal_links
    };
    if template_of(s.metadata) == INDEX_TEMPLATE@ {
        front.push(contents_link())
    } else {
        front
    }
}

/// The scrape as it is handed to the renderer: links framed and normalised.
pub open spec fn finished_scrape(s: ScraperView) -> ScraperView {
    ScraperView { internal_links: normalized_links(framed_links(s)), ..s }
}

/// Collects what the renderer needs from a document while its events go by.
#[derive(Debug)]
pub struct DocumentScraper {
    pub internal_links: Vec<InternalLink>,
    pub code_languages: Vec<&'static str>,
    pub metadata: Metadata,
    pub title: Option<String>,
    /// Text of the heading or front-matter block in progress.
    pub text_collector: Option<String>,
    pub has_code_blocks: bool,
    pub starts_with_heading: bool,
    /// Whether anything readable has opened so far.
    pub has_readable_text: bool,
}

impl View for DocumentScraper {
    type V = ScraperView;

    open spec fn view(&self) -> ScraperView {
        ScraperView {
            internal_links: link_views(self.internal_links@),
            code_languages: self.code_languages@.map_values(|l: &'static str| l@),
            metadata: self.metadata@,
            title: opt_view(self.title),
            text_collector: opt_view(self.text_collector),
            has_code_blocks: self.has_code_blocks,
            starts_with_heading: self.starts_with_heading,
            has_readable_text: self.has_readable_text,
        }
    }
}

impl DocumentScraper {
    /// Representation invariant: that of the metadata.
    pub open spec fn wf(&self) -> bool {
        self.metadata.wf()
    }

    pub fn new() -> (r: Self)
        ensures
            r.wf(),
            r@ == initial_scrape(),
    {
        let r = DocumentScraper {
            internal_links: Vec::new(),
            code_languages: Vec::new(),
            metadata: Metadata::new(),
            title: None,
            text_collector: None,
            has_code_blocks: false,
            starts_with_heading: false,
            has_readable_text: false,
        };
        assert(r@.internal_links =~= Seq::empty());
        assert(r@.code_languages =~= Seq::empty());
        r
    }

    /// The template that the front-matter selects, or the default one.
    pub fn get_template(&self) -> (r: &str)
        requires
            self.wf(),
        ensures
            r@ == template_of(self@.metadata),
    {
        match self.metadata.get("template") {
            Some(v) => v.as_str(),
            None => DEFAULT_TEMPLATE,
        }
    }

    /// Stores the string entries of one mapping.
    fn add_entries(&mut self, entries: &Vec<YamlEntry>)
        requires
            old(self).wf(),
        ensures
            final(self).wf(),
            final(self)@ == (ScraperView {
                metadata: with_entries(old(self)@.metadata, entries@.map_values(|x: YamlEntry| x@)),
                ..old(self)@
            }),
    {
        let ghost views = entries@.map_values(|x: YamlEntry| x@);
        let ghost start = self@;
        let mut i: usize = 0;
        assert(views.take(0) =~= Seq::<YamlEntryView>::empty());
        while i < entries.len()
            invariant
                i <= entries.len(),
                self.wf(),
                views == entries@.map_values(|x: YamlEntry| x@),
                self@ == (ScraperView {
                    metadata: with_entries(start.metadata, views.take(i as int)),
                    ..start
                }),
            decreases entries.len() - i,
        {
            let e = &entries[i];
            proof {
                assert(views.take(i + 1).drop_last() =~= views.take(i as int));
                assert(views.take(i + 1).last() == e@);
            }
            match (&e.key, &e.value) {
                (Some(k), Some(v)) => {
                    self.metadata.insert(k.clone(), v.clone());
                },
                _ => {},
            }
            i += 1;
        }
        assert(views.take(i as int) =~= views);
    }

    /// Stores the entries of every document that is a mapping.
    fn add_documents(&mut self, docs: &Vec<YamlDocument>)
        requires
            old(self).wf(),
        ensures
            final(self).wf(),
            final(self)@ == (ScraperView {
                metadata: with_documents(old(self)@.metadata, yaml_document_views(docs@)),
                ..old(self)@
            }),
    {
        let ghost views = yaml_document_views(docs@);
        let ghost start = self@;
        let mut i: usize = 0;
        assert(views.take(0) =~= Seq::<YamlDocumentView>::empty());
        while i < docs.len()
            invariant
                i <= docs.len(),
                self.wf(),
                views == yaml_document_views(docs@),
                self@ == (ScraperView {
                    metadata: with_documents(start.metadata, views.take(i as int)),
                    ..start
                }),
            decreases docs.len() - i,
        {
            let d = &docs[i];
            proof {
                assert(views.take(i + 1).drop_last() =~= views.take(i as int));
                assert(views.take(i + 1).last() == d@);
            }
            match &d.entries {
                Some(entries) => {
                    self.add_entries(entries);
                },
                None => {},
            }
            i += 1;
        }
        assert(views.take(i as int) =~= views);
    }

    /// Takes one event into account.
    pub fn check_event(&mut self, ev: &MdEvent)
        requires
            old(self).wf(),
        ensures
            final(self).wf(),
            final(self)@ == scrape_step(old(self)@, ev@),
    {
        match ev {
            MdEvent::StartMetadataBlock => {
                self.text_collector = Some(String::new());
            },
            MdEvent::StartHeading => {
                if !self.has_readable_text {
                    self.starts_with_heading = true;
                    self.has_readable_text = true;
                }
                self.text_collector = Some(String::new());
            },
            MdEvent::StartCodeBlock(kind) => {
                self.has_code_blocks = true;
                if let Some(lang) = kind {
                    let chars = str_chars(lang.as_str());
                    let lower = chars_to_lower(&chars);
                    if let Some(name) = code_language(&lower) {
                        self.code_languages.push(name);
                        assert(self@.code_languages =~= old(self)@.code_languages.push(
                            ascii_lower_seq(lang@),
                        ));
                    }
                }
            },
            MdEvent::StartOther => {
                self.has_readable_text = true;
            },
            MdEvent::Html(text) => {
                if let Some(groups) = match_groups(HEADING_PATTERN, text.as_str()) {
                    if let Some(link) = heading_link(&groups) {
                        self.internal_links.push(link);
                        assert(self@.internal_links =~= old(self)@.internal_links.push(link@));
                    }
                }
            },
            MdEvent::Text(t) => {
                if let Some(name) = self.text_collector.take() {
                    self.text_collector = Some(name.concat(t.as_str()));
                }
            },
            MdEvent::EndHeading(level) => {
                if let Some(name) = self.text_collector.take() {
                    if self.title.is_none() {
                        self.title = Some(name.clone());
                    }
                    proof {
                        reveal_strlit("-");
                    }
                    let slug = slugify_text(name.as_str(), "", "-", None);
                    let anchor = unique_anchor(&self.internal_links, slug.as_str());
                    let link = InternalLink::new(anchor, name, *level);
                    self.internal_links.push(link);
                    assert(self@.internal_links =~= old(self)@.internal_links.push(link@));
                }
            },
            MdEvent::EndMetadataBlock => {
                if let Some(text) = self.text_collector.take() {
                    if let Some(docs) = load_yaml(text.as_str()) {
                        self.add_documents(&docs);
                    }
                }
            },
            MdEvent::Other => {},
        }
    }

    /// Renumbers the heading depths so that no heading lies more than one
    /// step below the one before it, as far as the input allows: see
    /// [`level_state`].
    pub fn normalize_headings(&mut self)
        ensures
            final(self)@ == (ScraperView {
                internal_links: normalized_links(old(self)@.internal_links),
                ..old(self)@
            }),
            final(self).metadata == old(self).metadata,
    {
        let ghost orig = self@.internal_links;
        let ghost levels = levels_of(orig);
        let mut last_used_level: u8 = 0;
        let mut last_seen_level: u8 = 0;
        let mut i: usize = 0;
        proof {
            assert(levels.subrange(0, 0) =~= Seq::<u8>::empty());
        }
        while i < self.internal_links.len()
            invariant
                i <= self.internal_links.len(),
                self.internal_links.len() == orig.len(),
                levels == levels_of(orig),
                self@ == (ScraperView { internal_links: self@.internal_links, ..old(self)@ }),
                self.metadata == old(self).metadata,
                forall|k: int| 0 <= k < i ==> self@.internal_links[k] == normalized_links(orig)[k],
                forall|k: int| i <= k < orig.len() ==> self@.internal_links[k] == orig[k],
                last_used_level == level_state(levels.subrange(0, i as int)).used,
                last_seen_level == level_state(levels.subrange(0, i as int)).seen,
            decreases self.internal_links.len() - i,
        {
            let level = self.internal_links[i].level;
            proof {
                assert(levels.subrange(0, i + 1).drop_last() =~= levels.subrange(0, i as int));
                assert(levels.subrange(0, i + 1).last() == level);
                lemma_level_state_bounds(levels.subrange(0, i as int));
                lemma_level_state_bounds(levels.subrange(0, i + 1));
            }
            let new_level = if level > last_seen_level {
                last_seen_level = level;
                last_used_level = last_used_level + 1;
                last_used_level
            } else if level < last_seen_level {
                last_used_level = level;
                last_seen_level = level;
                level
            } else {
                last_used_level
            };
            let link = InternalLink::new(
                self.internal_links[i].anchor.clone(),
                self.internal_links[i].name.clone(),
                new_level,
            );
            self.internal_links.set(i, link);
            i += 1;
        }
        assert(self@.internal_links =~= normalized_links(orig));
    }

    /// Frames and normalises the links once the last event has gone by.
    pub fn finish(&mut self)
        requires
            old(self).wf(),
        ensures
            final(self).wf(),
            final(self)@ == finished_scrape(old(self)@),
    {
        if !self.starts_with_heading {
            let top = InternalLink::new("top".to_string(), "Top".to_string(), 1);
            self.internal_links.insert(0, top);
            assert(self@.internal_links =~= seq![top_link()] + old(self)@.internal_links);
        }
        if str_eq(self.get_template(), INDEX_TEMPLATE) {
            let contents = InternalLink::new("contents".to_string(), "Contents".to_string(), 2);
            self.internal_links.push(contents);
            assert(self@.internal_links =~= framed_links(old(self)@));
        }
        self.normalize_headings();
    }
}

/// Scrapes a whole event sequence.
pub fn scrape(events: &Vec<MdEvent>) -> (r: DocumentScraper)
    ensures
        r.wf(),
        r@ == finished_scrape(scrape_run(initial_scrape(), event_views(events@))),
{
    let mut scraper = DocumentScraper::new();
    let ghost views = event_views(events@);
    let mut i: usize = 0;
    proof {
        assert(views.subrange(0, 0) =~= Seq::<MdEventView>::empty());
    }
    while i < events.len()
        invariant
            i <= events.len(),
            views == event_views(events@),
            scraper.wf(),
            scraper@ == scrape_run(initial_scrape(), views.subrange(0, i as int)),
        decreases events.len() - i,
    {
        scraper.check_event(&events[i]);
        proof {
            assert(views.subrange(0, i + 1).drop_last() =~= views.subrange(0, i as int));
            assert(views.subrange(0, i + 1).last() == events@[i as int]@);
        }
        i += 1;
    }
    assert(views.subrange(0, i as int) =~= views);
    scraper.finish();
    scraper
}

/// Converts a document to HTML and scrapes it on the way.
///
/// The HTML and the events are the Markdown parser's, under
/// [`DOCUMENT_OPTIONS`]; the scrape is that of the events, framed and
/// normalised.
pub fn parse_markdown(md: &str) -> (r: (String, DocumentScraper))
    ensures
        r.0@ == markdown_html(md@, DOCUMENT_OPTIONS),
        r.1.wf(),
        r.1@ == finished_scrape(
            scrape_run(initial_scrape(), markdown_event_seq(md@, DOCUMENT_OPTIONS)),
        ),
{
    let events = parse_events(md, DOCUMENT_OPTIONS);
    let html_content = render_html(md, DOCUMENT_OPTIONS);
    let scraper = scrape(&events);
    (html_content, scraper)
}


/// Whether an event can stand inside a heading without ending it or starting
/// another collection: text, other opening tags and anything without a role.
pub open spec fn is_inline_event(ev: MdEventView) -> bool {
    ev is Text || ev is StartOther || ev is Other
}

/// The concatenated text of the text events among `span`.
pub open spec fn span_text(span: Seq<MdEventView>) -> Seq<char>
    decreases span.len(),
{
    if span.len() == 0 {
        Seq::empty()
    } else {
        match span.last() {
            MdEventView::Text(t) => span_text(span.drop_last()) + t,
            _ => span_text(span.drop_last()),
        }
    }
}

/// The events of one Markdown heading: its opening, its inline content and
/// its closing at depth `level`.
pub open spec fn heading_events(span: Seq<MdEventView>, level: u8) -> Seq<MdEventView> {
    seq![MdEventView::StartHeading] + span + seq![MdEventView::EndHeading(level)]
}

/// Running a concatenation is running its parts in turn.
pub proof fn lemma_scrape_run_concat(s: ScraperView, a: Seq<MdEventView>, b: Seq<MdEventView>)
    ensures
        scrape_run(s, a + b) == scrape_run(scrape_run(s, a), b),
    decreases b.len(),
{
    if b.len() == 0 {
        assert(a + b =~= a);
    } else {
        lemma_scrape_run_concat(s, a, b.drop_last());
        assert((a + b).drop_last() =~= a + b.drop_last());
        assert((a + b).last() == b.last());
    }
}

/// Inline events only extend the text being collected.
proof fn lemma_inline_span(s: ScraperView, span: Seq<MdEventView>)
    requires
        s.text_collector is Some,
        forall|i: int| 0 <= i < span.len() ==> is_inline_event(#[trigger] span[i]),
    ensures
        scrape_run(s, span) == (ScraperView {
            text_collector: Some(s.text_collector->0 + span_text(span)),
            has_readable_text: scrape_run(s, span).has_readable_text,
            ..s
        }),
    decreases span.len(),
{
    if span.len() == 0 {
        assert(s.text_collector->0 + span_text(span) =~= s.text_collector->0);
    } else {
        let init = span.drop_last();
        assert forall|i: int| 0 <= i < init.len() implies is_inline_event(#[trigger] init[i]) by {
            assert(init[i] == span[i]);
        }
        lemma_inline_span(s, init);
        assert(is_inline_event(span[span.len() - 1]));
        match span.last() {
            MdEventView::Text(t) => {
                assert((s.text_collector->0 + span_text(init)) + t =~= s.text_collector->0 + span_text(
                    span,
                ));
            },
            _ => {},
        }
    }
}

/// Every Markdown heading yields a link whose name is the concatenated text
/// inside the heading, whose anchor is made from the slug of that text and
/// whose depth is the heading's; and the first heading's text becomes the title, which
/// later headings leave alone.
pub proof fn lemma_heading_scrape(s: ScraperView, span: Seq<MdEventView>, level: u8)
    requires
        forall|i: int| 0 <= i < span.len() ==> is_inline_event(#[trigger] span[i]),
    ensures
        scrape_run(s, heading_events(span, level)).internal_links == s.internal_links.push(
            heading_link_view(span_text(span), level, link_anchors(s.internal_links)),
        ),
        scrape_run(s, heading_events(span, level)).internal_links.last().name == span_text(span),
        s.title is None ==> scrape_run(s, heading_events(span, level)).title == Some(
            span_text(span),
        ),
        s.title is Some ==> scrape_run(s, heading_events(span, level)).title == s.title,
{
    let start = seq![MdEventView::StartHeading];
    let end = seq![MdEventView::EndHeading(level)];
    let s1 = scrape_step(s, MdEventView::StartHeading);
    assert(scrape_run(s, start) == s1) by {
        assert(start.drop_last() =~= Seq::<MdEventView>::empty());
        assert(scrape_run(s, start.drop_last()) == s);
    }
    lemma_scrape_run_concat(s, start, span);
    lemma_inline_span(s1, span);
    let s2 = scrape_run(s1, span);
    assert(s2.text_collector == Some(span_text(span))) by {
        assert(Seq::<char>::empty() + span_text(span) =~= span_text(span));
    }
    lemma_scrape_run_concat(s, start + span, end);
    assert(scrape_run(s2, end) == scrape_step(s2, MdEventView::EndHeading(level))) by {
        assert(end.drop_last() =~= Seq::<MdEventView>::empty());
        assert(scrape_run(s2, end.drop_last()) == s2);
    }
}

/// Once a title is set, no event changes it.
pub proof fn lemma_title_stable(s: ScraperView, events: Seq<MdEventView>)
    requires
        s.title is Some,
    ensures
        scrape_run(s, events).title == s.title,
        finished_scrape(scrape_run(s, events)).title == s.title,
    decreases events.len(),
{
    if events.len() > 0 {
        lemma_title_stable(s, events.drop_last());
    }
}

/// The recorded code languages only grow.
pub proof fn lemma_code_languages_grow(s: ScraperView, events: Seq<MdEventView>, lang: Seq<char>)
    requires
        s.code_languages.contains(lang),
    ensures
        scrape_run(s, events).code_languages.contains(lang),
    decreases events.len(),
{
    if events.len() > 0 {
        lemma_code_languages_grow(s, events.drop_last(), lang);
        let before = scrape_run(s, events.drop_last());
        let after = scrape_run(s, events);
        let k = choose|k: int| 0 <= k < before.code_languages.len() && before.code_languages[k] == lang;
        if after.code_languages != before.code_languages {
            assert(after.code_languages[k] == lang);
        }
    }
}

/// Every fenced code block whose language, lower-cased, is on the allowlist
/// leaves that language among the recorded ones, and marks the document as
/// holding code.
pub proof fn lemma_fenced_language_recorded(
    s: ScraperView,
    events: Seq<MdEventView>,
    i: int,
    lang: Seq<char>,
)
    requires
        0 <= i < events.len(),
        events[i] == MdEventView::StartCodeBlock(Some(lang)),
        is_code_language(ascii_lower_seq(lang)),
    ensures
        scrape_run(s, events).code_languages.contains(ascii_lower_seq(lang)),
        finished_scrape(scrape_run(s, events)).code_languages.contains(ascii_lower_seq(lang)),
{
    let head = events.subrange(0, i + 1);
    let tail = events.subrange(i + 1, events.len() as int);
    assert(events =~= head + tail);
    lemma_scrape_run_concat(s, head, tail);
    let before = scrape_run(s, head.drop_last());
    let at = scrape_run(s, head);
    assert(head.last() == events[i]);
    assert(at.code_languages == before.code_languages.push(ascii_lower_seq(lang)));
    assert(at.code_languages[before.code_languages.len() as int] == ascii_lower_seq(lang));
    lemma_code_languages_grow(at, tail, ascii_lower_seq(lang));
}

/// Every recorded code language is on the allowlist.
pub proof fn lemma_code_languages_allowed(s: ScraperView, events: Seq<MdEventView>)
    requires
        forall|k: int| 0 <= k < s.code_languages.len() ==> is_code_language(s.code_languages[k]),
    ensures
        forall|k: int|
            0 <= k < scrape_run(s, events).code_languages.len() ==> is_code_language(
                #[trigger] scrape_run(s, events).code_languages[k],
            ),
    decreases events.len(),
{
    if events.len() > 0 {
        lemma_code_languages_allowed(s, events.drop_last());
    }
}

/// Whether heading `i` steps down from a deeper heading to a depth more than
/// one below the depth in use. Normalisation keeps such a depth as it is.
pub open spec fn deep_outdent(levels: Seq<u8>, i: int) -> bool {
    let before = level_state(levels.subrange(0, i));
    levels[i] < before.seen && levels[i] > before.used + 1
}

/// After normalisation the depth grows by at most one from a heading to the
/// next, at every place but a deep outdent; and exactly there it grows by
/// more.
pub proof fn lemma_normalized_step(levels: Seq<u8>, i: int)
    requires
        0 <= i,
        i + 1 < levels.len(),
    ensures
        !deep_outdent(levels, i + 1) <==> normalized_level(levels, i + 1) <= normalized_level(
            levels,
            i,
        ) + 1,
{
    assert(levels.subrange(0, i + 2).drop_last() =~= levels.subrange(0, i + 1));
    assert(levels.subrange(0, i + 2).last() == levels[i + 1]);
    lemma_level_state_bounds(levels.subrange(0, i + 1));
}

/// After normalisation, consecutive links differ in depth by at most one step
/// downwards into the document, provided the input has no deep outdent.
pub proof fn lemma_normalized_links_nest(links: Seq<InternalLinkView>)
    requires
        forall|i: int| 0 < i < links.len() ==> !deep_outdent(levels_of(links), i),
    ensures
        forall|i: int|
            0 <= i && i + 1 < links.len() ==> (#[trigger] normalized_links(links)[i + 1]).level
                <= normalized_links(links)[i].level + 1,
{
    let levels = levels_of(links);
    assert forall|i: int| 0 <= i && i + 1 < links.len() implies (#[trigger] normalized_links(
        links,
    )[i + 1]).level <= normalized_links(links)[i].level + 1 by {
        lemma_normalized_step(levels, i);
        lemma_level_state_bounds(levels.subrange(0, i + 1));
        lemma_level_state_bounds(levels.subrange(0, i + 2));
        assert(!deep_outdent(levels, i + 1));
    }
}

/// Normalisation never deepens a heading, and keeps depths of 1 or more at 1
/// or more.
pub proof fn lemma_normalized_level_range(levels: Seq<u8>, i: int)
    requires
        0 <= i < levels.len(),
    ensures
        0 <= normalized_level(levels, i) <= levels[i],
        (forall|k: int| 0 <= k <= i ==> levels[k] >= 1) ==> normalized_level(levels, i) >= 1,
{
    lemma_level_state_bounds(levels.subrange(0, i + 1));
    assert(levels.subrange(0, i + 1).last() == levels[i]);
    if forall|k: int| 0 <= k <= i ==> levels[k] >= 1 {
        lemma_level_state_positive(levels.subrange(0, i + 1));
    }
}

proof fn lemma_level_state_positive(levels: Seq<u8>)
    requires
        levels.len() > 0,
        forall|k: int| 0 <= k < levels.len() ==> levels[k] >= 1,
    ensures
        level_state(levels).used >= 1,
        level_state(levels).seen >= 1,
    decreases levels.len(),
{
    if levels.len() > 1 {
        let init = levels.drop_last();
        assert forall|k: int| 0 <= k < init.len() implies init[k] >= 1 by {
            assert(init[k] == levels[k]);
        }
        lemma_level_state_positive(init);
    } else {
        assert(levels.drop_last() =~= Seq::<u8>::empty());
        lemma_level_state_bounds(levels.drop_last());
    }
}

/// Which links of a run stand as they were written: `true` for the link of
/// an inline HTML heading, whose anchor is the heading's own, `false` for the
/// link of a Markdown heading, whose anchor is made for it. `flags` tells the
/// same of the links that `s` holds.
pub open spec fn written_flags(s: ScraperView, flags: Seq<bool>, events: Seq<MdEventView>) -> Seq<
    bool,
>
    decreases events.len(),
{
    if events.len() == 0 {
        flags
    } else {
        let before = scrape_run(s, events.drop_last());
        let known = written_flags(s, flags, events.drop_last());
        match events.last() {
            MdEventView::Html(text) => if html_heading_link(text) is Some {
                known.push(true)
            } else {
                known
            },
            MdEventView::EndHeading(_) => if before.text_collector is Some {
                known.push(false)
            } else {
                known
            },
            _ => known,
        }
    }
}

/// Whether link `j` has an anchor of its own: one that can serve as an
/// anchor, that is not kept for the top or the contents entry and that no
/// link before it has.
pub open spec fn fresh_at(links: Seq<InternalLinkView>, j: int) -> bool {
    &&& is_safe_anchor(links[j].anchor)
    &&& links[j].anchor != TOP_ANCHOR@
    &&& links[j].anchor != CONTENTS_ANCHOR@
    &&& forall|i: int| 0 <= i < j ==> (#[trigger] links[i]).anchor != links[j].anchor
}

/// Whether every link that does not stand as written has an anchor of its
/// own.
pub open spec fn made_anchors_fresh(links: Seq<InternalLinkView>, written: Seq<bool>) -> bool {
    &&& written.len() == links.len()
    &&& forall|j: int| 0 <= j < links.len() && !(#[trigger] written[j]) ==> fresh_at(links, j)
}

/// Whether the links that do not stand as written carry anchors that can
/// serve as anchors and differ from one another.
pub open spec fn made_anchors_differ(links: Seq<InternalLinkView>, written: Seq<bool>) -> bool {
    &&& written.len() == links.len()
    &&& forall|j: int|
        0 <= j < links.len() && !(#[trigger] written[j]) ==> is_safe_anchor(links[j].anchor)
    &&& forall|i: int, j: int|
        0 <= i < j < links.len() && !(#[trigger] written[i]) && !(#[trigger] written[j])
            ==> links[i].anchor != links[j].anchor
}

/// Which links of a finished scrape stand as written: the top and the
/// contents entry do not.
pub open spec fn framed_flags(s: ScraperView, flags: Seq<bool>) -> Seq<bool> {
    let front = if s.starts_with_heading {
        flags
    } else {
        seq![false] + flags
    };
    if template_of(s.metadata) == INDEX_TEMPLATE@ {
        front.push(false)
    } else {
        front
    }
}

/// One event keeps the anchors that were made fresh.
proof fn lemma_step_keeps_fresh(s: ScraperView, flags: Seq<bool>, ev: MdEventView)
    requires
        made_anchors_fresh(s.internal_links, flags),
    ensures
        made_anchors_fresh(
            scrape_step(s, ev).internal_links,
            written_flags(s, flags, seq![ev]),
        ),
{
    let after = scrape_step(s, ev).internal_links;
    let one = seq![ev];
    assert(one.drop_last() =~= Seq::<MdEventView>::empty());
    assert(scrape_run(s, one.drop_last()) == s);
    assert(written_flags(s, flags, one.drop_last()) == flags);
    let flags_after = written_flags(s, flags, one);
    if after != s.internal_links {
        let n = s.internal_links.len() as int;
        assert(after.len() == n + 1);
        assert forall|j: int| 0 <= j < after.len() && !(#[trigger] flags_after[j]) implies fresh_at(
            after,
            j,
        ) by {
            if j < n {
                assert(!flags[j]);
                assert(fresh_at(s.internal_links, j));
                assert(after[j] == s.internal_links[j]);
                assert forall|i: int| 0 <= i < j implies (#[trigger] after[i]).anchor
                    != after[j].anchor by {
                    assert(after[i] == s.internal_links[i]);
                }
            } else {
                let taken = link_anchors(s.internal_links);
                match ev {
                    MdEventView::EndHeading(level) => {
                        let name = s.text_collector->0;
                        lemma_fresh_anchor(
                            anchor_base(slugified(name, ""@, "-"@, None)),
                            taken,
                        );
                        lemma_fresh_anchor_safe(slugified(name, ""@, "-"@, None), taken);
                        assert forall|i: int| 0 <= i < j implies (#[trigger] after[i]).anchor
                            != after[j].anchor by {
                            assert(after[i] == s.internal_links[i]);
                            assert(taken[i] == s.internal_links[i].anchor);
                        }
                    },
                    _ => {},
                }
            }
        }
    }
}

/// Every link that a run makes for a Markdown heading has an anchor of its
/// own.
pub proof fn lemma_run_keeps_fresh(s: ScraperView, flags: Seq<bool>, events: Seq<MdEventView>)
    requires
        made_anchors_fresh(s.internal_links, flags),
    ensures
        made_anchors_fresh(scrape_run(s, events).internal_links, written_flags(s, flags, events)),
    decreases events.len(),
{
    if events.len() > 0 {
        let init = events.drop_last();
        lemma_run_keeps_fresh(s, flags, init);
        let before = scrape_run(s, init);
        let known = written_flags(s, flags, init);
        lemma_step_keeps_fresh(before, known, events.last());
        let one = seq![events.last()];
        assert(one.drop_last() =~= Seq::<MdEventView>::empty());
        assert(scrape_run(before, one.drop_last()) == before);
        assert(written_flags(before, known, one.drop_last()) == known);
    }
}

/// Anchors are unique within a document: in a finished scrape, the links of
/// the Markdown headings, the top entry and the contents entry carry anchors
/// that differ from one another, and each of these anchors is non-empty and
/// made of characters that a URL fragment takes as they are. The links of
/// inline HTML headings stand as they were written.
pub proof fn lemma_anchors_unique(events: Seq<MdEventView>)
    ensures
        made_anchors_differ(
            finished_scrape(scrape_run(initial_scrape(), events)).internal_links,
            framed_flags(
                scrape_run(initial_scrape(), events),
                written_flags(initial_scrape(), Seq::empty(), events),
            ),
        ),
{
    reveal_strlit("top");
    reveal_strlit("contents");
    let s = scrape_run(initial_scrape(), events);
    let flags = written_flags(initial_scrape(), Seq::empty(), events);
    lemma_run_keeps_fresh(initial_scrape(), Seq::empty(), events);
    let framed = framed_links(s);
    let framed_written = framed_flags(s, flags);
    let links = finished_scrape(s).internal_links;
    let shift: int = if s.starts_with_heading {
        0
    } else {
        1
    };
    let n = s.internal_links.len() as int;
    assert(framed_written.len() == framed.len());
    assert(links.len() == framed.len());
    assert(TOP_ANCHOR@ != CONTENTS_ANCHOR@) by {
        assert(TOP_ANCHOR@.len() == 3);
        assert(CONTENTS_ANCHOR@.len() == 8);
    }
    assert forall|j: int| 0 <= j < links.len() && !(#[trigger] framed_written[j]) implies is_safe_anchor(
        links[j].anchor,
    ) by {
        assert(links[j].anchor == framed[j].anchor);
        if shift <= j < shift + n {
            assert(framed[j] == s.internal_links[j - shift]);
            assert(framed_written[j] == flags[j - shift]);
            assert(fresh_at(s.internal_links, j - shift));
        } else if j < shift {
            assert(framed[j] == top_link());
        } else {
            assert(framed[j] == contents_link());
        }
    }
    assert forall|i: int, j: int|
        0 <= i < j < links.len() && !(#[trigger] framed_written[i]) && !(
        #[trigger] framed_written[j]) implies links[i].anchor != links[j].anchor by {
        assert(links[i].anchor == framed[i].anchor);
        assert(links[j].anchor == framed[j].anchor);
        let from_run_i = shift <= i < shift + n;
        let from_run_j = shift <= j < shift + n;
        if from_run_i {
            assert(framed[i] == s.internal_links[i - shift]);
            assert(framed_written[i] == flags[i - shift]);
            assert(fresh_at(s.internal_links, i - shift));
        } else {
            assert(i == 0 && shift == 1);
            assert(framed[i] == top_link());
        }
        if from_run_j {
            assert(framed[j] == s.internal_links[j - shift]);
            assert(framed_written[j] == flags[j - shift]);
            assert(fresh_at(s.internal_links, j - shift));
            if from_run_i {
                assert(s.internal_links[i - shift].anchor != s.internal_links[j - shift].anchor);
            }
        } else {
            assert(j == shift + n);
            assert(framed[j] == contents_link());
        }
    }
}

/// Depths stay within 1 to 6: where every Markdown heading has such a depth,
/// so has every link of the finished scrape.
pub proof fn lemma_levels_in_range(events: Seq<MdEventView>, j: int)
    requires
        forall|e: int|
            0 <= e < events.len() ==> (#[trigger] events[e] matches MdEventView::EndHeading(level)
                ==> 1 <= level <= 6),
        0 <= j < finished_scrape(scrape_run(initial_scrape(), events)).internal_links.len(),
    ensures
        1 <= finished_scrape(scrape_run(initial_scrape(), events)).internal_links[j].level <= 6,
{
    let s = scrape_run(initial_scrape(), events);
    lemma_run_levels(initial_scrape(), events);
    let framed = framed_links(s);
    let levels = levels_of(framed);
    assert forall|k: int| 0 <= k < framed.len() implies 1 <= (#[trigger] levels[k]) <= 6 by {
        let shift: int = if s.starts_with_heading {
            0
        } else {
            1
        };
        if shift <= k < shift + s.internal_links.len() {
            assert(framed[k] == s.internal_links[k - shift]);
        }
    }
    lemma_normalized_level_range(levels, j);
}

/// The links of a run have depths within 1 to 6, where those of its start
/// and of its Markdown headings have.
proof fn lemma_run_levels(s: ScraperView, events: Seq<MdEventView>)
    requires
        forall|k: int| 0 <= k < s.internal_links.len() ==> 1 <= (#[trigger] s.internal_links[k]).level <= 6,
        forall|e: int|
            0 <= e < events.len() ==> (#[trigger] events[e] matches MdEventView::EndHeading(level)
                ==> 1 <= level <= 6),
    ensures
        forall|k: int|
            0 <= k < scrape_run(s, events).internal_links.len() ==> 1 <= (#[trigger] scrape_run(
                s,
                events,
            ).internal_links[k]).level <= 6,
    decreases events.len(),
{
    if events.len() > 0 {
        let init = events.drop_last();
        assert forall|e: int| 0 <= e < init.len() implies (#[trigger] init[e] matches MdEventView::EndHeading(
            level,
        ) ==> 1 <= level <= 6) by {
            assert(init[e] == events[e]);
        }
        lemma_run_levels(s, init);
        let before = scrape_run(s, init);
        let after = scrape_run(s, events);
        let ev = events[events.len() - 1];
        assert(ev == events.last());
        assert forall|k: int| 0 <= k < after.internal_links.len() implies 1 <= (
        #[trigger] after.internal_links[k]).level <= 6 by {
            if k < before.internal_links.len() {
                assert(after.internal_links[k] == before.internal_links[k]);
            }
        }
    }
}

} // verus!
