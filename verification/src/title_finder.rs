//! A light scraper that finds a document's title and its in-page links.

use crate::document_scraper::opt_view;
use crate::text::str_chars;
use vstd::prelude::*;

verus! {

/// A link to a place inside the document.
#[derive(Debug)]
pub struct Doclink {
    pub anchor: String,
    pub name: String,
}

/// Mathematical value of a [`Doclink`].
pub struct DoclinkView {
    pub anchor: Seq<char>,
    pub name: Seq<char>,
}

impl View for Doclink {
    type V = DoclinkView;

    open spec fn view(&self) -> DoclinkView {
        DoclinkView { anchor: self.anchor@, name: self.name@ }
    }
}

/// The views of a list of links.
pub open spec fn doclink_views(s: Seq<Doclink>) -> Seq<DoclinkView> {
    s.map_values(|d: Doclink| d@)
}

/// One parser event, as far as the title finder reads it.
#[derive(Debug)]
pub enum TitleEvent {
    StartHeading,
    /// A link opens; `inline` tells whether it is written inline.
    StartLink { inline: bool, dest_url: String },
    Text(String),
    EndHeading,
    EndLink,
    Other,
}

/// Mathematical value of a [`TitleEvent`].
pub enum TitleEventView {
    StartHeading,
    StartLink { inline: bool, dest_url: Seq<char> },
    Text(Seq<char>),
    EndHeading,
    EndLink,
    Other,
}

impl View for TitleEvent {
    type V = TitleEventView;

    open spec fn view(&self) -> TitleEventView {
        match *self {
            TitleEvent::StartHeading => TitleEventView::StartHeading,
            TitleEvent::StartLink { inline, dest_url } => TitleEventView::StartLink {
                inline,
                dest_url: dest_url@,
            },
            TitleEvent::Text(t) => TitleEventView::Text(t@),
            TitleEvent::EndHeading => TitleEventView::EndHeading,
            TitleEvent::EndLink => TitleEventView::EndLink,
            TitleEvent::Other => TitleEventView::Other,
        }
    }
}

/// Mathematical value of a [`TitleFinder`].
pub struct TitleFinderView {
    pub doclinks: Seq<DoclinkView>,
    pub title: Option<Seq<char>>,
    pub doclink_url: Option<Seq<char>>,
    pub in_header: bool,
    pub in_link: bool,
}

/// Finds the title of a document, the first text inside a heading, and the
/// inline links that point into the document.
#[derive(Debug)]
pub struct TitleFinder {
    pub doclinks: Vec<Doclink>,
    pub title: Option<String>,
    /// Target of the in-page link that is open and still lacks its text.
    pub doclink_url: Option<String>,
    pub in_header: bool,
    pub in_link: bool,
}

impl View for TitleFinder {
    type V = TitleFinderView;

    open spec fn view(&self) -> TitleFinderView {
        TitleFinderView {
            doclinks: doclink_views(self.doclinks@),
            title: opt_view(self.title),
            doclink_url: opt_view(self.doclink_url),
            in_header: self.in_header,
            in_link: self.in_link,
        }
    }
}

/// The finder before the first event: no title, and a link to the top.
pub open spec fn initial_finder() -> TitleFinderView {
    TitleFinderView {
        doclinks: seq![DoclinkView { anchor: "#top"@, name: "Top"@ }],
        title: None,
        doclink_url: None,
        in_header: false,
        in_link: false,
    }
}

/// What one event does to the finder. Text inside a heading becomes the
/// title if there is none yet; text inside an inline link to a `#` target
/// becomes a link, once per link.
pub open spec fn finder_step(f: TitleFinderView, ev: TitleEventView) -> TitleFinderView {
    match ev {
        TitleEventView::StartHeading => TitleFinderView { in_header: true, ..f },
        TitleEventView::StartLink { inline, dest_url } => if inline && dest_url.len() > 0
            && dest_url[0] == '#' {
            TitleFinderView { in_link: true, doclink_url: Some(dest_url), ..f }
        } else {
            f
        },
        TitleEventView::Text(t) => if f.in_header {
            if f.title is None {
                TitleFinderView { title: Some(t), ..f }
            } else {
                f
            }
        } else if f.in_link && f.doclink_url is Some {
            TitleFinderView {
                doclinks: f.doclinks.push(DoclinkView { anchor: f.doclink_url->0, name: t }),
                doclink_url: None,
                ..f
            }
        } else {
            f
        },
        TitleEventView::EndHeading => TitleFinderView { in_header: false, ..f },
        TitleEventView::EndLink => TitleFinderView { in_link: false, ..f },
        TitleEventView::Other => f,
    }
}

impl TitleFinder {
    pub fn new() -> (r: Self)
        ensures
            r@ == initial_finder(),
    {
        let mut doclinks: Vec<Doclink> = Vec::new();
        doclinks.push(Doclink { anchor: "#top".to_string(), name: "Top".to_string() });
        let r = TitleFinder {
            doclinks,
            title: None,
            doclink_url: None,
            in_header: false,
            in_link: false,
        };
        assert(r@.doclinks =~= initial_finder().doclinks);
        r
    }

    /// Takes one event into account: see [`finder_step`].
    pub fn check_event(&mut self, ev: &TitleEvent)
        ensures
            final(self)@ == finder_step(old(self)@, ev@),
    {
        match ev {
            TitleEvent::StartHeading => {
                self.in_header = true;
            },
            TitleEvent::StartLink { inline, dest_url } => {
                let chars = str_chars(dest_url.as_str());
                if *inline && chars.len() > 0 && chars[0] == '#' {
                    self.in_link = true;
                    self.doclink_url = Some(dest_url.clone());
                }
            },
            TitleEvent::Text(t) => {
                if self.in_header {
                    if self.title.is_none() {
                        self.title = Some(t.clone());
                    }
                } else if self.in_link {
                    if let Some(url) = self.doclink_url.take() {
                        let link = Doclink { anchor: url, name: t.clone() };
                        self.doclinks.push(link);
                        assert(self@.doclinks =~= old(self)@.doclinks.push(link@));
                    }
                }
            },
            TitleEvent::EndHeading => {
                self.in_header = false;
            },
            TitleEvent::EndLink => {
                self.in_link = false;
            },
            TitleEvent::Other => {},
        }
    }
}

} // verus!
