//! What the request handlers decide: where a request goes, which page
//! answers it and which headers go with it.

use crate::chimera_error::{ChimeraError, ChimeraErrorView};
use crate::document_scraper::{
    finished_scrape, initial_scrape, opt_view, parse_markdown, scrape_run, DocumentScraper,
};
use crate::file_manager::{
    found_views, is_peer_info, opt_peer_view, FileManager, FoundFile, FoundFileView, PeerInfoView,
};
use crate::full_text_index::{
    hit_views, results_of, FieldOptionsView, FullTextIndex, SearchHit, TOP_DOCS, WRITER_MEMORY,
};
use crate::html_generator::{
    blank_search_page, error_page, index_page, markdown_page, menu_of, menu_views,
    missing_template, missing_template_message, search_page, selected_templates, template_views,
    HtmlGenerator, HtmlGeneratorCfg, Page, PageView, HOME_DIR,
};
use crate::image_size_cache::{loaded_sizes, ImageSizeCache, WidthAndHeight};
use crate::markdown::{markdown_event_seq, markdown_html, DOCUMENT_OPTIONS};
use crate::result_cache::{CacheView, ResultCache};
use crate::text::{
    concat2, concat3, decimal, file_name, file_name_of, has_extension, matches_at,
    path_has_extension, push_decimal, push_str_chars, slice_chars, starts_with_at, str_chars,
    str_eq, string_from_chars,
};
use crate::toml_config::TomlConfig;
use vstd::prelude::*;
use vstd::string::StringExecFns;

verus! {

/// Name of the response header that carries the timings.
pub const SERVER_TIMING: &'static str = "server-timing";

/// A directory and a name below it, joined by one slash.
pub open spec fn joined(dir: Seq<char>, name: Seq<char>) -> Seq<char> {
    if dir.len() == 0 {
        name
    } else if dir.last() == '/' {
        dir + name
    } else {
        dir + "/"@ + name
    }
}

/// Joins a directory and a name below it.
pub fn join_path(dir: &str, name: &str) -> (r: String)
    ensures
        r@ == joined(dir@, name@),
{
    let d = str_chars(dir);
    if d.len() == 0 {
        String::from_str(name)
    } else if d[d.len() - 1] == '/' {
        concat2(dir, name)
    } else {
        concat3(dir, "/", name)
    }
}

/// The directories below the server's root.
#[derive(Debug)]
pub struct AppPaths {
    pub user_template_root: String,
    pub internal_template_root: String,
    pub user_web_root: String,
    pub internal_web_root: String,
    pub document_root: String,
    pub search_index_dir: String,
    pub log_dir: String,
}

impl AppPaths {
    /// The layout below `chimera_root`.
    pub fn new(chimera_root: &str) -> (r: Self)
        ensures
            r.user_template_root@ == joined(chimera_root@, "template"@),
            r.internal_template_root@ == joined(chimera_root@, "template-internal"@),
            r.user_web_root@ == joined(chimera_root@, "www"@),
            r.internal_web_root@ == joined(chimera_root@, "www-internal"@),
            r.document_root@ == joined(chimera_root@, "home"@),
            r.search_index_dir@ == joined(chimera_root@, "search"@),
            r.log_dir@ == joined(chimera_root@, "log"@),
    {
        AppPaths {
            user_template_root: join_path(chimera_root, "template"),
            internal_template_root: join_path(chimera_root, "template-internal"),
            user_web_root: join_path(chimera_root, "www"),
            internal_web_root: join_path(chimera_root, "www-internal"),
            document_root: join_path(chimera_root, "home"),
            search_index_dir: join_path(chimera_root, "search"),
            log_dir: join_path(chimera_root, "log"),
        }
    }
}

/// Everything the handlers share.
pub struct AppState {
    pub user_web_root: String,
    pub internal_web_root: String,
    pub index_file: String,
    pub generate_index: bool,
    pub full_text_index: FullTextIndex,
    pub html_generator: HtmlGenerator,
    pub file_manager: FileManager,
    /// Request path and redirect target.
    pub known_redirects: Vec<(String, String)>,
    /// Content-type prefix and maximum age in seconds, in matching order.
    pub cache_control: Vec<(String, usize)>,
    pub result_cache: ResultCache,
}

/// The view of an optional string slice.
pub open spec fn opt_slice_view(s: Option<&str>) -> Option<Seq<char>> {
    match s {
        Some(t) => Some(t@),
        None => None,
    }
}

/// The target that `path` is redirected to.
pub open spec fn redirect_for(redirects: Seq<(String, String)>, path: Seq<char>) -> Option<
    Seq<char>,
>
    decreases redirects.len(),
{
    if redirects.len() == 0 {
        None
    } else if redirects[0].0@ == path {
        Some(redirects[0].1@)
    } else {
        redirect_for(redirects.drop_first(), path)
    }
}

/// The maximum age of the first rule whose prefix the content type starts
/// with.
pub open spec fn cache_duration_for(rules: Seq<(String, usize)>, content_type: Seq<char>) -> Option<
    usize,
>
    decreases rules.len(),
{
    if rules.len() == 0 {
        None
    } else if matches_at(content_type, 0, rules[0].0@) {
        Some(rules[0].1)
    } else {
        cache_duration_for(rules.drop_first(), content_type)
    }
}

/// How long a response of the given content type may be cached.
pub fn get_cache_duration(app_state: &AppState, content_type: Option<&str>) -> (r: Option<usize>)
    ensures
        r == match content_type {
            Some(t) => cache_duration_for(app_state.cache_control@, t@),
            None => None,
        },
{
    match content_type {
        Some(ct) => {
            let t = str_chars(ct);
            let mut i: usize = 0;
            assert(app_state.cache_control@.skip(0) =~= app_state.cache_control@);
            while i < app_state.cache_control.len()
                invariant
                    i <= app_state.cache_control.len(),
                    t@ == ct@,
                    content_type == Some(ct),
                    cache_duration_for(app_state.cache_control@, t@) == cache_duration_for(
                        app_state.cache_control@.skip(i as int),
                        t@,
                    ),
                decreases app_state.cache_control.len() - i,
            {
                let k = str_chars(app_state.cache_control[i].0.as_str());
                proof {
                    let rest = app_state.cache_control@.skip(i as int);
                    assert(rest[0] == app_state.cache_control@[i as int]);
                    assert(rest.drop_first() =~= app_state.cache_control@.skip(i + 1));
                }
                if starts_with_at(&t, 0, &k) {
                    return Some(app_state.cache_control[i].1);
                }
                i += 1;
            }
            assert(app_state.cache_control@.skip(i as int).len() == 0);
            None
        },
        None => None,
    }
}

/// Whether a status tells of success or of a redirection.
pub open spec fn is_cacheable_status(status: u16) -> bool {
    200 <= status < 400
}

/// The `Cache-Control` header of a response.
pub open spec fn cache_control_header(status: u16, duration: Option<usize>) -> Option<Seq<char>> {
    match duration {
        Some(d) if is_cacheable_status(status) => Some("public, max-age="@ + decimal(d as nat)),
        _ => None,
    }
}

/// How the timing header names the origin of a page.
pub open spec fn cache_status_label(cached: bool) -> Seq<char> {
    if cached {
        "cached"@
    } else {
        "generated"@
    }
}

/// What the header middleware adds to a response.
#[derive(Debug)]
pub struct ResponseHeaders {
    /// Value of the `Cache-Control` header.
    pub cache_control: Option<String>,
    /// For a rendered document, whether it came from the cache, as the
    /// timing header words it.
    pub cache_status: Option<&'static str>,
}

/// Decides the headers of a response: successful and redirecting answers of
/// a content type with a cache rule may be cached; a document request whose
/// handler said where the page came from gets a timing entry.
pub fn mw_headers(
    app_state: &AppState,
    path: &str,
    status: u16,
    content_type: Option<&str>,
    cache_check: Option<bool>,
) -> (r: ResponseHeaders)
    ensures
        opt_view(r.cache_control) == cache_control_header(
            status,
            match content_type {
                Some(t) => cache_duration_for(app_state.cache_control@, t@),
                None => None,
            },
        ),
        opt_slice_view(r.cache_status) == match cache_check {
            Some(b) if crate::text::extension_of(path@) == Some("md"@) => Some(
                cache_status_label(b),
            ),
            _ => None,
        },
{
    let cache_duration = get_cache_duration(app_state, content_type);
    let cache_control = match cache_duration {
        Some(d) => {
            if 200 <= status && status < 400 {
                let mut v = str_chars("public, max-age=");
                push_decimal(&mut v, d as u128);
                Some(string_from_chars(&v))
            } else {
                None
            }
        },
        None => None,
    };
    let cache_status = match cache_check {
        Some(b) => {
            if crate::text::has_exact_extension(path, "md") {
                if b {
                    Some("cached")
                } else {
                    Some("generated")
                }
            } else {
                None
            }
        },
        None => None,
    };
    ResponseHeaders { cache_control, cache_status }
}

/// The size that the access log shows for a response: the upper bound of
/// the body's size hint, else the size that the handler noted, else the
/// `Content-Length` header, else zero.
pub open spec fn logged_size(
    size_hint: Option<u64>,
    ext_size: Option<usize>,
    content_length: Option<Seq<char>>,
) -> Seq<char> {
    match size_hint {
        Some(n) => decimal(n as nat),
        None => match ext_size {
            Some(n) => decimal(n as nat),
            None => match content_length {
                Some(s) => s,
                None => "0"@,
            },
        },
    }
}

/// The address that the access log shows: what a proxy forwarded, else the
/// peer's.
pub open spec fn logged_address(forwarded: Option<Seq<char>>, peer: Seq<char>) -> Seq<char> {
    match forwarded {
        Some(a) => a,
        None => peer,
    }
}

/// Writes the access line of a request: see
/// [`crate::access_log_format::access_line`].
pub fn mw_access_log(
    status: u16,
    method: &str,
    version: &str,
    path: &str,
    peer: &str,
    forwarded_for: Option<&str>,
    user_agent: Option<String>,
    referer: Option<String>,
    size_hint: Option<u64>,
    ext_size: Option<usize>,
    content_length: Option<&str>,
    now: &str,
) -> (r: String)
    ensures
        r@ == crate::access_log_format::access_line(
            status,
            method@,
            logged_size(size_hint, ext_size, opt_slice_view(content_length)),
            version@,
            path@,
            logged_address(opt_slice_view(forwarded_for), peer@),
            user_agent,
            referer,
            now@,
        ),
{
    let addr = match forwarded_for {
        Some(a) => a,
        None => peer,
    };
    let mut size: Vec<char> = Vec::new();
    match size_hint {
        Some(n) => {
            push_decimal(&mut size, n as u128);
        },
        None => match ext_size {
            Some(n) => {
                push_decimal(&mut size, n as u128);
            },
            None => match content_length {
                Some(s) => {
                    push_str_chars(&mut size, s);
                },
                None => {
                    push_str_chars(&mut size, "0");
                },
            },
        },
    }
    let size_str = string_from_chars(&size);
    assert(size_str@ =~= logged_size(size_hint, ext_size, opt_slice_view(content_length)));
    crate::access_log_format::log_access(
        status,
        method,
        size_str.as_str(),
        version,
        path,
        addr,
        user_agent,
        referer,
        now,
    )
}

/// Where `/` and `/home/` redirect to: the index file of the document root.
pub open spec fn home_redirect(index_file: Seq<char>) -> Seq<char> {
    "/home/"@ + index_file
}

/// Status of a permanent redirect: 301, Moved Permanently.
pub const MOVED_PERMANENTLY: u16 = 301;

/// A redirect: the status it is answered with and the place it points to.
#[derive(Debug)]
pub struct Redirection {
    pub status: u16,
    pub location: String,
}

/// Mathematical value of a [`Redirection`].
pub struct RedirectionView {
    pub status: u16,
    pub location: Seq<char>,
}

impl View for Redirection {
    type V = RedirectionView;

    open spec fn view(&self) -> RedirectionView {
        RedirectionView { status: self.status, location: self.location@ }
    }
}

/// The permanent redirect to `location`.
pub open spec fn permanent_redirect(location: Seq<char>) -> RedirectionView {
    RedirectionView { status: MOVED_PERMANENTLY, location }
}

impl Redirection {
    /// The permanent redirect to `location`.
    pub fn permanent(location: String) -> (r: Self)
        ensures
            r@ == permanent_redirect(location@),
            r@.status == 301,
    {
        Redirection { status: MOVED_PERMANENTLY, location }
    }
}

/// Answers `/`: a permanent redirect to the index file of the document root.
pub fn handle_root(app_state: &AppState) -> (r: Redirection)
    ensures
        r@ == permanent_redirect(home_redirect(app_state.index_file@)),
        r.status == 301,
{
    proof {
        reveal_strlit("/home");
        reveal_strlit("/");
        reveal_strlit("/home/");
    }
    let target = concat3(HOME_DIR, "/", app_state.index_file.as_str());
    assert(target@ =~= home_redirect(app_state.index_file@));
    Redirection::permanent(target)
}

/// Answers `/home/`: a permanent redirect to the index file of the document
/// root.
pub fn handle_home_folder(app_state: &AppState) -> (r: Redirection)
    ensures
        r@ == permanent_redirect(home_redirect(app_state.index_file@)),
        r.status == 301,
{
    handle_root(app_state)
}

/// How a request outside the document tree is answered.
#[derive(Debug)]
pub enum RootPathAnswer {
    /// A permanent redirect to the target.
    Redirect(Redirection),
    /// The static file at `user`, or the one at `internal` when that does not
    /// exist.
    Static { user: String, internal: String },
}

/// Decides the answer to a request outside the document tree: a known
/// redirect wins, anything else is a static file.
pub fn handle_root_path(app_state: &AppState, path: &str) -> (r: RootPathAnswer)
    ensures
        match redirect_for(app_state.known_redirects@, path@) {
            Some(target) => (r matches RootPathAnswer::Redirect(t) && t@ == permanent_redirect(
                target,
            )),
            None => (r matches RootPathAnswer::Static { user, internal } && user@ == joined(
                app_state.user_web_root@,
                path@,
            ) && internal@ == joined(app_state.internal_web_root@, path@)),
        },
{
    let mut i: usize = 0;
    assert(app_state.known_redirects@.skip(0) =~= app_state.known_redirects@);
    while i < app_state.known_redirects.len()
        invariant
            i <= app_state.known_redirects.len(),
            redirect_for(app_state.known_redirects@, path@) == redirect_for(
                app_state.known_redirects@.skip(i as int),
                path@,
            ),
        decreases app_state.known_redirects.len() - i,
    {
        proof {
            let rest = app_state.known_redirects@.skip(i as int);
            assert(rest[0] == app_state.known_redirects@[i as int]);
            assert(rest.drop_first() =~= app_state.known_redirects@.skip(i + 1));
        }
        if str_eq(app_state.known_redirects[i].0.as_str(), path) {
            return RootPathAnswer::Redirect(
                Redirection::permanent(app_state.known_redirects[i].1.clone()),
            );
        }
        i += 1;
    }
    assert(app_state.known_redirects@.skip(i as int).len() == 0);
    RootPathAnswer::Static {
        user: join_path(app_state.user_web_root.as_str(), path),
        internal: join_path(app_state.internal_web_root.as_str(), path),
    }
}

/// How a request inside the document tree is answered.
#[derive(Debug)]
pub enum ResponseKind {
    /// The rendered document.
    Markdown,
    /// A permanent redirect to the index of a directory.
    Redirect(Redirection),
    /// The file as it is.
    Static,
}

/// A path without the slashes at its end.
pub open spec fn without_trailing_slashes(path: Seq<char>) -> Seq<char>
    decreases path.len(),
{
    if path.len() > 0 && path.last() == '/' {
        without_trailing_slashes(path.drop_last())
    } else {
        path
    }
}

/// The index of the directory at `path`, as a site URL.
pub open spec fn directory_index(path: Seq<char>, index_file: Seq<char>) -> Seq<char> {
    joined(joined("/home"@, without_trailing_slashes(path)), index_file)
}

/// Decides the answer to a request inside the document tree: Markdown is
/// rendered, a directory redirects to its index, anything else is static.
pub fn get_response(app_state: &AppState, path: &str, is_dir: bool) -> (r: ResponseKind)
    ensures
        path_has_extension(path@, "md"@) ==> r is Markdown,
        !path_has_extension(path@, "md"@) && is_dir ==> (r matches ResponseKind::Redirect(t) && t@
            == permanent_redirect(directory_index(path@, app_state.index_file@))),
        !path_has_extension(path@, "md"@) && !is_dir ==> r is Static,
{
    if has_extension(path, "md") {
        ResponseKind::Markdown
    } else if is_dir {
        let chars = str_chars(path);
        let mut end: usize = chars.len();
        assert(chars@.subrange(0, end as int) =~= chars@);
        while end > 0 && chars[end - 1] == '/'
            invariant
                end <= chars.len(),
                without_trailing_slashes(chars@) == without_trailing_slashes(
                    chars@.subrange(0, end as int),
                ),
            decreases end,
        {
            assert(chars@.subrange(0, end as int).drop_last() =~= chars@.subrange(0, end - 1));
            end -= 1;
        }
        let trimmed = string_from_chars(&slice_chars(&chars, 0, end));
        let dir = join_path(HOME_DIR, trimmed.as_str());
        ResponseKind::Redirect(
            Redirection::permanent(join_path(dir.as_str(), app_state.index_file.as_str())),
        )
    } else {
        ResponseKind::Static
    }
}

/// Whether `peers` is what a page about `path` shows as its peers: nothing
/// unless directory indexes are generated, else the peer information of the
/// listing. `own_name` is the file to leave out.
pub open spec fn page_peers(
    app_state: &AppState,
    peers: Option<PeerInfoView>,
    listing: Seq<FoundFileView>,
    own_name: Option<Seq<char>>,
) -> bool {
    if app_state.generate_index {
        is_peer_info(peers, listing, own_name, app_state.file_manager.index_file@)
    } else {
        peers is None
    }
}

/// The file that a document leaves out of its own peers: itself, unless it
/// is the index file.
pub open spec fn own_name(app_state: &AppState, path: Seq<char>) -> Option<Seq<char>> {
    if file_name_of(path) == app_state.file_manager.index_file@ {
        None
    } else {
        Some(file_name_of(path))
    }
}

/// Whether `page` answers a request for the document at `path`: the page of
/// the document when it can be read, the generated index when the document
/// is a missing index file, and nothing otherwise.
pub open spec fn markdown_answer(
    app_state: &AppState,
    path: Seq<char>,
    source: Option<Seq<char>>,
    listing: Seq<FoundFileView>,
    page: Option<PageView>,
) -> bool {
    match source {
        Some(md) => exists|scraper: DocumentScraper, peers: Option<PeerInfoView>|
            {
                &&& scraper.wf()
                &&& scraper@ == finished_scrape(
                    scrape_run(initial_scrape(), markdown_event_seq(md, DOCUMENT_OPTIONS)),
                )
                &&& if file_name_of(path).len() == 0 {
                    peers is None
                } else {
                    page_peers(app_state, peers, listing, own_name(app_state, path))
                }
                &&& page == Some(
                    #[trigger] markdown_page(
                        &app_state.html_generator,
                        path,
                        markdown_html(md, DOCUMENT_OPTIONS),
                        &scraper,
                        peers,
                    ),
                )
            },
        None => if file_name_of(path) == app_state.index_file@ {
            exists|peers: Option<PeerInfoView>|
                page_peers(app_state, peers, listing, None) && page == Some(
                    #[trigger] index_page(&app_state.html_generator, path, peers),
                )
        } else {
            page is None
        },
    }
}

/// Composes the page that answers a request for the document at `path`.
/// `source` is the document's text, if the file exists; `listing` is the
/// listing of the folder it lies in.
pub fn serve_markdown_file(
    app_state: &AppState,
    path: &str,
    source: Option<&str>,
    listing: &Vec<FoundFile>,
) -> (r: Option<Page>)
    ensures
        markdown_answer(
            app_state,
            path@,
            opt_slice_view(source),
            found_views(listing@),
            match r {
                Some(p) => Some(p@),
                None => None,
            },
        ),
{
    match source {
        Some(md_content) => {
            let (body, scraper) = parse_markdown(md_content);
            let peers = if app_state.generate_index {
                app_state.file_manager.find_peers(path, listing)
            } else {
                None
            };
            let ghost sc = scraper;
            let ghost pv = opt_peer_view(peers);
            let page = app_state.html_generator.gen_markdown(path, body, scraper, peers);
            proof {
                assert(page@ == markdown_page(
                    &app_state.html_generator,
                    path@,
                    markdown_html(md_content@, DOCUMENT_OPTIONS),
                    &sc,
                    pv,
                ));
            }
            Some(page)
        },
        None => {
            let name = file_name(path);
            if str_eq(name.as_str(), app_state.index_file.as_str()) {
                let peers = if app_state.generate_index {
                    app_state.file_manager.find_peers_in_folder(listing, None)
                } else {
                    None
                };
                let ghost pv = opt_peer_view(peers);
                let page = app_state.html_generator.gen_index(path, peers);
                proof {
                    assert(page@ == index_page(&app_state.html_generator, path@, pv));
                }
                Some(page)
            } else {
                None
            }
        },
    }
}

/// The page that answers a search: the results of the query, or the blank
/// page when there is no query, an empty one, or the search failed.
pub open spec fn search_answer(
    app_state: &AppState,
    query: Option<Seq<char>>,
    hits: Option<Seq<crate::full_text_index::SearchHitView>>,
) -> PageView {
    match (query, hits) {
        (Some(q), Some(h)) if q.len() > 0 => search_page(
            &app_state.html_generator,
            q,
            results_of(
                h.take(
                    if h.len() <= app_state.full_text_index.top_docs {
                        h.len() as int
                    } else {
                        app_state.full_text_index.top_docs as int
                    },
                ),
            ),
        ),
        _ => blank_search_page(&app_state.html_generator),
    }
}

/// Composes the page that answers a search request. `hits` is what the index
/// found for the query, or `None` when the search failed.
pub fn handle_search(app_state: &AppState, query: Option<&str>, hits: Option<Vec<SearchHit>>) -> (r:
    Page)
    ensures
        r@ == search_answer(
            app_state,
            opt_slice_view(query),
            match hits {
                Some(h) => Some(hit_views(h@)),
                None => None,
            },
        ),
{
    if let Some(q) = query {
        if !q.is_empty() {
            if let Some(h) = hits {
                let results = app_state.full_text_index.search(&h);
                return app_state.html_generator.gen_search(q, results);
            }
        }
    }
    app_state.html_generator.gen_search_blank()
}

/// Status and page that answer a request for something that is not there.
pub fn handle_404(app_state: &AppState) -> (r: (u16, Page))
    ensures
        r.0 == 404,
        r.1@ == error_page(
            &app_state.html_generator,
            "404: Not found"@,
            "Page not found"@,
            "The page you are looking for does not exist or has been moved"@,
        ),
{
    let page = app_state.html_generator.gen_error(
        "404: Not found",
        "Page not found",
        "The page you are looking for does not exist or has been moved",
    );
    (404, page)
}

/// Status and page that answer a request that failed.
pub fn handle_err(app_state: &AppState) -> (r: (u16, Page))
    ensures
        r.0 == 500,
        r.1@ == error_page(
            &app_state.html_generator,
            "500: Internal server error"@,
            "Internal server error"@,
            "Chimera failed attempting to complete this request"@,
        ),
{
    let page = app_state.html_generator.gen_error(
        "500: Internal server error",
        "Internal server error",
        "Chimera failed attempting to complete this request",
    );
    (500, page)
}

/// The status that a request inside the document tree fails with, if it
/// fails: 404 when the handler said so or could not read a file, 500 for any
/// other status outside success and redirection and for any other error.
pub open spec fn failure_status(outcome: Result<u16, ChimeraError>) -> Option<u16> {
    match outcome {
        Ok(status) => if is_cacheable_status(status) {
            None
        } else if status == 404 {
            Some(404u16)
        } else {
            Some(500u16)
        },
        Err(e) => Some(ChimeraError::status_of(e@)),
    }
}

/// Status and page that answer a request inside the document tree that did
/// not succeed: a failure to read and a status of 404 say that the page is
/// not there, anything else is an internal error.
pub fn handle_home(app_state: &AppState, outcome: Result<u16, ChimeraError>) -> (r: Option<
    (u16, Page),
>)
    ensures
        failure_status(outcome) is None ==> r is None,
        failure_status(outcome) == Some(404u16) ==> r is Some && (r->0).0 == 404 && (r->0).1@
            == error_page(
            &app_state.html_generator,
            "404: Not found"@,
            "Page not found"@,
            "The page you are looking for does not exist or has been moved"@,
        ),
        failure_status(outcome) == Some(500u16) ==> r is Some && (r->0).0 == 500 && (r->0).1@
            == error_page(
            &app_state.html_generator,
            "500: Internal server error"@,
            "Internal server error"@,
            "Chimera failed attempting to complete this request"@,
        ),
{
    match outcome {
        Ok(status) => {
            if 200 <= status && status < 400 {
                None
            } else if status == 404 {
                Some(handle_404(app_state))
            } else {
                Some(handle_err(app_state))
            }
        },
        Err(e) => {
            if e.status() == 404 {
                Some(handle_404(app_state))
            } else {
                Some(handle_err(app_state))
            }
        },
    }
}

/// The listings of the two template directories.
#[derive(Debug)]
pub struct TemplateListings {
    pub user: Vec<FoundFile>,
    pub internal: Vec<FoundFile>,
}

impl AppState {
    /// Sets the server up below `chimera_root`: lays out the directories,
    /// chooses the templates, and starts with an empty cache of the
    /// configured size. Fails when a required template is missing.
    pub fn new(
        chimera_root: &str,
        config: TomlConfig,
        templates: TemplateListings,
        image_sizes: Option<Vec<(String, WidthAndHeight)>>,
        version: &str,
    ) -> (r: Result<Self, ChimeraError>)
        ensures
            match missing_template(
                selected_templates(
                    joined(chimera_root@, "template"@),
                    found_views(templates.user@),
                    joined(chimera_root@, "template-internal"@),
                    found_views(templates.internal@),
                ),
            ) {
                Some(name) => r is Err && r->Err_0@ == ChimeraErrorView::TemplateParsing(
                    missing_template_message(name),
                ),
                None => {
                    &&& r is Ok
                    &&& r->Ok_0.user_web_root@ == joined(chimera_root@, "www"@)
                    &&& r->Ok_0.internal_web_root@ == joined(chimera_root@, "www-internal"@)
                    &&& r->Ok_0.index_file@ == config.index_file@
                    &&& r->Ok_0.generate_index == config.generate_index
                    &&& r->Ok_0.known_redirects == config.redirects
                    &&& r->Ok_0.cache_control == config.cache_control
                    &&& r->Ok_0.file_manager.document_root@ == joined(chimera_root@, "home"@)
                    &&& r->Ok_0.file_manager.index_file@ == config.index_file@
                    &&& r->Ok_0.full_text_index.top_docs == TOP_DOCS
                    &&& r->Ok_0.full_text_index.writer_memory == WRITER_MEMORY
                    &&& r->Ok_0.full_text_index.tokenizer@ == "en_stem"@
                    &&& r->Ok_0.full_text_index.title_field@ == (FieldOptionsView {
                        name: "title"@,
                        tokenized: false,
                        stored: true,
                        with_positions: false,
                    })
                    &&& r->Ok_0.full_text_index.link_field@ == (FieldOptionsView {
                        name: "link"@,
                        tokenized: false,
                        stored: true,
                        with_positions: false,
                    })
                    &&& r->Ok_0.full_text_index.body_field@ == (FieldOptionsView {
                        name: "body"@,
                        tokenized: true,
                        stored: true,
                        with_positions: true,
                    })
                    &&& r->Ok_0.result_cache.wf()
                    &&& r->Ok_0.result_cache@ == (CacheView {
                        entries: Seq::empty(),
                        max_size: config.max_cache_size,
                        next_seq: 0,
                    })
                    &&& template_views(r->Ok_0.html_generator.templates@) == selected_templates(
                        joined(chimera_root@, "template"@),
                        found_views(templates.user@),
                        joined(chimera_root@, "template-internal"@),
                        found_views(templates.internal@),
                    )
                    &&& r->Ok_0.html_generator.site_title@ == config.site_title@
                    &&& r->Ok_0.html_generator.site_lang@ == config.site_lang@
                    &&& r->Ok_0.html_generator.highlight_style@ == config.highlight_style@
                    &&& r->Ok_0.html_generator.index_file@ == config.index_file@
                    &&& r->Ok_0.html_generator.version@ == version@
                    &&& menu_views(r->Ok_0.html_generator.menu@) == menu_of(config.menu@)
                    &&& match image_sizes {
                        Some(entries) => r->Ok_0.html_generator.image_size_cache is Some
                            && r->Ok_0.html_generator.image_size_cache->0@ == loaded_sizes(
                            entries@,
                        ),
                        None => r->Ok_0.html_generator.image_size_cache is None,
                    }
                },
            },
    {
        let paths = AppPaths::new(chimera_root);
        let file_manager = FileManager::new(paths.document_root.as_str(), config.index_file.as_str());
        let image_size_cache = match image_sizes {
            Some(entries) => Some(ImageSizeCache::new(entries)),
            None => None,
        };
        let result_cache = ResultCache::new(config.max_cache_size);
        let cfg = HtmlGeneratorCfg {
            user_template_root: paths.user_template_root,
            internal_template_root: paths.internal_template_root,
            user_template_files: templates.user,
            internal_template_files: templates.internal,
            site_title: config.site_title.as_str(),
            index_file: config.index_file.as_str(),
            site_lang: config.site_lang.as_str(),
            highlight_style: config.highlight_style.as_str(),
            menu: config.menu,
            file_manager: &file_manager,
            image_size_cache,
            version,
        };
        let html_generator = match HtmlGenerator::new(cfg) {
            Ok(g) => g,
            Err(e) => {
                return Err(e);
            },
        };
        let full_text_index = FullTextIndex::new();
        Ok(
            AppState {
                index_file: config.index_file,
                generate_index: config.generate_index,
                user_web_root: paths.user_web_root,
                internal_web_root: paths.internal_web_root,
                full_text_index,
                html_generator,
                file_manager,
                cache_control: config.cache_control,
                known_redirects: config.redirects,
                result_cache,
            },
        )
    }
}

} // verus!
