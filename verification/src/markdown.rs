//! The Markdown event stream, reduced to what the scrapers read.

use pulldown_cmark::Event::{End, Html, Start, Text};
use pulldown_cmark::{CodeBlockKind, Options, Parser, Tag, TagEnd};
use vstd::prelude::*;

verus! {

/// Option bit: tables.
pub const ENABLE_TABLES: u32 = 2;

/// Option bit: smart punctuation.
pub const ENABLE_SMART_PUNCTUATION: u32 = 32;

/// Option bit: YAML-style front-matter blocks.
pub const ENABLE_YAML_STYLE_METADATA_BLOCKS: u32 = 128;

/// The extensions every document is parsed with: tables, smart punctuation
/// and YAML-style front-matter.
pub const DOCUMENT_OPTIONS: u32 = ENABLE_TABLES | ENABLE_SMART_PUNCTUATION
    | ENABLE_YAML_STYLE_METADATA_BLOCKS;

/// One parser event, carrying only the parts that scraping depends on.
#[derive(Debug)]
pub enum MdEvent {
    /// A front-matter block opens.
    StartMetadataBlock,
    /// A heading opens.
    StartHeading,
    /// A code block opens; fenced blocks carry their info string.
    StartCodeBlock(Option<String>),
    /// Any other element opens.
    StartOther,
    /// A block of raw HTML.
    Html(String),
    /// A run of text.
    Text(String),
    /// A heading of the given depth closes.
    EndHeading(u8),
    /// A front-matter block closes.
    EndMetadataBlock,
    /// Anything else: other closing tags, inline code, breaks, rules.
    Other,
}

/// Mathematical value of an [`MdEvent`].
pub enum MdEventView {
    StartMetadataBlock,
    StartHeading,
    StartCodeBlock(Option<Seq<char>>),
    StartOther,
    Html(Seq<char>),
    Text(Seq<char>),
    EndHeading(u8),
    EndMetadataBlock,
    Other,
}

impl View for MdEvent {
    type V = MdEventView;

    open spec fn view(&self) -> MdEventView {
        match *self {
            MdEvent::StartMetadataBlock => MdEventView::StartMetadataBlock,
            MdEvent::StartHeading => MdEventView::StartHeading,
            MdEvent::StartCodeBlock(lang) => MdEventView::StartCodeBlock(
                match lang {
                    Some(l) => Some(l@),
                    None => None,
                },
            ),
            MdEvent::StartOther => MdEventView::StartOther,
            MdEvent::Html(t) => MdEventView::Html(t@),
            MdEvent::Text(t) => MdEventView::Text(t@),
            MdEvent::EndHeading(level) => MdEventView::EndHeading(level),
            MdEvent::EndMetadataBlock => MdEventView::EndMetadataBlock,
            MdEvent::Other => MdEventView::Other,
        }
    }
}

/// The views of a sequence of events.
pub open spec fn event_views(events: Seq<MdEvent>) -> Seq<MdEventView> {
    events.map_values(|e: MdEvent| e@)
}

/// The events the Markdown parser yields for a document under the given
/// option bits.
pub uninterp spec fn markdown_event_seq(md: Seq<char>, options: u32) -> Seq<MdEventView>;

/// The HTML the Markdown renderer writes for a document under the given option
/// bits.
pub uninterp spec fn markdown_html(md: Seq<char>, options: u32) -> Seq<char>;

/// Parses `md` and returns its events in document order.
///
/// Trusted: runs `pulldown_cmark::Parser::new_ext` to exhaustion. The parser is
/// a pure function of the text and the option bits, so its output is named by
/// [`markdown_event_seq`]; nothing else is claimed of it.
#[verifier::external_body]
pub(crate) fn parse_events(md: &str, options: u32) -> (r: Vec<MdEvent>)
    ensures
        event_views(r@) == markdown_event_seq(md@, options),
{
    Parser::new_ext(md, Options::from_bits_truncate(options)).map(|ev| match ev {
        Start(Tag::MetadataBlock(_)) => MdEvent::StartMetadataBlock,
        Start(Tag::Heading { .. }) => MdEvent::StartHeading,
        Start(Tag::CodeBlock(CodeBlockKind::Fenced(l))) => MdEvent::StartCodeBlock(Some(l.to_string())),
        Start(Tag::CodeBlock(CodeBlockKind::Indented)) => MdEvent::StartCodeBlock(None),
        Start(_) => MdEvent::StartOther,
        Html(t) => MdEvent::Html(t.to_string()),
        Text(t) => MdEvent::Text(t.to_string()),
        End(TagEnd::Heading(l)) => MdEvent::EndHeading(l as u8),
        End(TagEnd::MetadataBlock(_)) => MdEvent::EndMetadataBlock,
        _ => MdEvent::Other,
    }).collect()
}

/// Renders `md` to HTML.
///
/// Trusted: feeds `pulldown_cmark::Parser::new_ext` into
/// `pulldown_cmark::html::push_html`. The output is a pure function of the
/// text and the option bits and is named by [`markdown_html`].
#[verifier::external_body]
pub(crate) fn render_html(md: &str, options: u32) -> (r: String)
    ensures
        r@ == markdown_html(md@, options),
{
    let mut html = String::new();
    pulldown_cmark::html::push_html(&mut html, Parser::new_ext(md, Options::from_bits_truncate(options)));
    html
}

} // verus!
