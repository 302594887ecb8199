use chimera_md::access_log_format::{log_access, optional, AccessLogFormat};
use chimera_md::chimera_error::ChimeraError;
use chimera_md::file_manager::FoundFile;
use chimera_md::full_text_index::SearchHit;
use chimera_md::html_generator::{Page, TemplateValue};
use chimera_md::perf_timer::PerfTimer;
use chimera_md::server::{
    get_cache_duration, get_response, handle_404, handle_err, handle_home, handle_home_folder,
    handle_root, handle_root_path, handle_search, join_path, mw_access_log, mw_headers,
    serve_markdown_file, AppPaths, AppState, ResponseKind, RootPathAnswer, TemplateListings,
};
use chimera_md::title_finder::{TitleEvent, TitleFinder};
use chimera_md::toml_config::{
    default_chimera_root, default_highlight_style, default_index_file, default_log_level,
    default_max_cache_size, default_port, default_site_lang, default_site_title,
    parse_log_level, LogLevel, RawConfig, TomlConfig, TracingLevel,
};

fn found(parent: &str, file_name: &str) -> FoundFile {
    FoundFile { parent: parent.to_string(), file_name: file_name.to_string() }
}

fn raw() -> RawConfig {
    RawConfig {
        chimera_root: None,
        site_title: None,
        index_file: None,
        highlight_style: None,
        site_lang: None,
        image_size_file: None,
        generate_index: None,
        log_level: None,
        max_cache_size: None,
        port: None,
        redirects: vec![],
        menu: vec![],
        cache_control: vec![],
    }
}

fn state(generate_index: bool) -> AppState {
    let mut raw = raw();
    raw.generate_index = Some(generate_index);
    raw.redirects = vec![("old".to_string(), "/home/new.md".to_string())];
    raw.cache_control =
        vec![("text/".to_string(), 60), ("text/html".to_string(), 5), ("image".to_string(), 3600)];
    let config = TomlConfig::read_config(raw).unwrap();
    let templates = TemplateListings {
        user: vec![],
        internal: vec![
            found("", "markdown.html"),
            found("", "index.html"),
            found("", "search.html"),
            found("", "error.html"),
        ],
    };
    AppState::new("/data", config, templates, None, "1.0").unwrap()
}

fn text_of<'a>(page: &'a Page, name: &str) -> Option<&'a str> {
    let mut found = None;
    for var in &page.vars {
        if var.name == name {
            found = match &var.value {
                TemplateValue::Text(t) => Some(t.as_str()),
                _ => None,
            };
        }
    }
    found
}

#[test]
fn defaults() {
    assert_eq!(default_chimera_root(), "/data");
    assert_eq!(default_site_title(), "Chimera-md");
    assert_eq!(default_index_file(), "index.md");
    assert_eq!(default_highlight_style(), "an-old-hope");
    assert_eq!(default_site_lang(), "en");
    assert_eq!(default_log_level(), LogLevel::Info);
    assert_eq!(default_max_cache_size(), 52_428_800);
    assert_eq!(default_port(), 8080);
}

#[test]
fn empty_configuration_gets_the_defaults() {
    let config = TomlConfig::read_config(raw()).unwrap();
    assert_eq!(config.chimera_root, "/data");
    assert_eq!(config.site_title, "Chimera-md");
    assert_eq!(config.index_file, "index.md");
    assert_eq!(config.highlight_style, "an-old-hope");
    assert_eq!(config.site_lang, "en");
    assert_eq!(config.image_size_file, None);
    assert!(!config.generate_index);
    assert_eq!(config.log_level, LogLevel::Info);
    assert_eq!(config.max_cache_size, 50 * 1024 * 1024);
    assert_eq!(config.port, 8080);
    assert_eq!(config.tracing_level(), TracingLevel::INFO);
}

#[test]
fn given_values_replace_the_defaults() {
    let mut raw = raw();
    raw.chimera_root = Some("/srv".to_string());
    raw.port = Some(80);
    raw.log_level = Some("Warning".to_string());
    raw.max_cache_size = Some(7);
    raw.generate_index = Some(true);
    raw.menu = vec![("Docs".to_string(), "/home/docs/".to_string())];
    let config = TomlConfig::read_config(raw).unwrap();
    assert_eq!(config.chimera_root, "/srv");
    assert_eq!(config.port, 80);
    assert_eq!(config.log_level, LogLevel::Warning);
    assert_eq!(config.tracing_level(), TracingLevel::WARN);
    assert_eq!(config.max_cache_size, 7);
    assert!(config.generate_index);
    assert_eq!(config.menu.len(), 1);
}

#[test]
fn unknown_log_level_is_an_error() {
    let mut raw = raw();
    raw.log_level = Some("loud".to_string());
    match TomlConfig::read_config(raw) {
        Err(e) => assert_eq!(e, ChimeraError::TomlError("unknown log level: loud".to_string())),
        Ok(_) => panic!("a configuration with an unknown log level"),
    }
}

#[test]
fn log_level_names() {
    assert_eq!(parse_log_level("trace"), Some(LogLevel::Trace));
    assert_eq!(parse_log_level("Debug"), Some(LogLevel::Debug));
    assert_eq!(parse_log_level("INFO"), Some(LogLevel::Info));
    assert_eq!(parse_log_level("warning"), Some(LogLevel::Warning));
    assert_eq!(parse_log_level("Error"), Some(LogLevel::Error));
    assert_eq!(parse_log_level("warn"), None);
    assert_eq!(parse_log_level(""), None);
}

#[test]
fn directories_below_the_root() {
    let paths = AppPaths::new("/data");
    assert_eq!(paths.user_template_root, "/data/template");
    assert_eq!(paths.internal_template_root, "/data/template-internal");
    assert_eq!(paths.user_web_root, "/data/www");
    assert_eq!(paths.internal_web_root, "/data/www-internal");
    assert_eq!(paths.document_root, "/data/home");
    assert_eq!(paths.search_index_dir, "/data/search");
    assert_eq!(paths.log_dir, "/data/log");
    assert_eq!(join_path("/data/", "home"), "/data/home");
    assert_eq!(join_path("", "home"), "home");
}

#[test]
fn state_is_set_up_from_the_configuration() {
    let state = state(true);
    assert_eq!(state.index_file, "index.md");
    assert!(state.generate_index);
    assert_eq!(state.user_web_root, "/data/www");
    assert_eq!(state.file_manager.document_root, "/data/home");
    assert_eq!(state.result_cache.get_size(), 0);
    assert_eq!(state.html_generator.templates.len(), 4);
    assert_eq!(state.html_generator.version, "1.0");
    assert_eq!(state.full_text_index.top_docs, 10);
}

#[test]
fn state_needs_the_required_templates() {
    let config = TomlConfig::read_config(raw()).unwrap();
    let templates = TemplateListings { user: vec![], internal: vec![] };
    match AppState::new("/data", config, templates, None, "1.0") {
        Err(e) => assert_eq!(
            e,
            ChimeraError::TemplateParsing("Missing template: markdown.html".to_string())
        ),
        Ok(_) => panic!("a server without templates"),
    }
}

#[test]
fn root_redirects_to_the_index() {
    let state = state(false);
    let redirect = handle_root(&state);
    assert_eq!(redirect.status, 301);
    assert_eq!(redirect.location, "/home/index.md");
    let redirect = handle_home_folder(&state);
    assert_eq!(redirect.status, 301);
    assert_eq!(redirect.location, "/home/index.md");
}

#[test]
fn known_redirects_win() {
    let state = state(false);
    match handle_root_path(&state, "old") {
        RootPathAnswer::Redirect(redirect) => {
            assert_eq!(redirect.status, 301);
            assert_eq!(redirect.location, "/home/new.md");
        }
        RootPathAnswer::Static { .. } => panic!("a known redirect was passed over"),
    }
    match handle_root_path(&state, "style/site.css") {
        RootPathAnswer::Static { user, internal } => {
            assert_eq!(user, "/data/www/style/site.css");
            assert_eq!(internal, "/data/www-internal/style/site.css");
        }
        RootPathAnswer::Redirect(_) => panic!("a redirect out of nothing"),
    }
}

#[test]
fn requests_inside_the_document_tree() {
    let state = state(false);
    assert!(matches!(get_response(&state, "a/readme.md", false), ResponseKind::Markdown));
    assert!(matches!(get_response(&state, "a/readme.MD", true), ResponseKind::Markdown));
    assert!(matches!(get_response(&state, "a/picture.png", false), ResponseKind::Static));
    match get_response(&state, "notes/", true) {
        ResponseKind::Redirect(redirect) => {
            assert_eq!(redirect.status, 301);
            assert_eq!(redirect.location, "/home/notes/index.md");
        }
        _ => panic!("a directory must redirect to its index"),
    }
    match get_response(&state, "notes/deep", true) {
        ResponseKind::Redirect(redirect) => {
            assert_eq!(redirect.location, "/home/notes/deep/index.md")
        }
        _ => panic!("a directory must redirect to its index"),
    }
    match get_response(&state, "", true) {
        ResponseKind::Redirect(redirect) => assert_eq!(redirect.location, "/home/index.md"),
        _ => panic!("a directory must redirect to its index"),
    }
}

#[test]
fn cache_durations_go_by_the_first_matching_prefix() {
    let state = state(false);
    assert_eq!(get_cache_duration(&state, Some("text/html; charset=utf-8")), Some(60));
    assert_eq!(get_cache_duration(&state, Some("image/png")), Some(3600));
    assert_eq!(get_cache_duration(&state, Some("application/json")), None);
    assert_eq!(get_cache_duration(&state, Some("")), None);
    assert_eq!(get_cache_duration(&state, None), None);
}

#[test]
fn response_headers() {
    let state = state(false);
    let headers = mw_headers(&state, "/home/a.md", 200, Some("text/html"), Some(true));
    assert_eq!(headers.cache_control, Some("public, max-age=60".to_string()));
    assert_eq!(headers.cache_status, Some("cached"));
    let headers = mw_headers(&state, "/home/a.md", 301, Some("image/png"), Some(false));
    assert_eq!(headers.cache_control, Some("public, max-age=3600".to_string()));
    assert_eq!(headers.cache_status, Some("generated"));
    let headers = mw_headers(&state, "/home/a.md", 404, Some("text/html"), None);
    assert_eq!(headers.cache_control, None);
    assert_eq!(headers.cache_status, None);
    let headers = mw_headers(&state, "/style.css", 199, Some("text/css"), Some(true));
    assert_eq!(headers.cache_control, None);
    assert_eq!(headers.cache_status, None);
    let headers = mw_headers(&state, "/x", 399, Some("video/mp4"), None);
    assert_eq!(headers.cache_control, None);
}

#[test]
fn access_lines() {
    let line = log_access(
        200,
        "GET",
        "140",
        "HTTP/1.1",
        "/",
        "127.0.0.1",
        Some("Mozilla/5.0".to_string()),
        None,
        "05/Feb/2012:17:11:55 +0000",
    );
    assert_eq!(
        line,
        "127.0.0.1 - - [05/Feb/2012:17:11:55 +0000] \"GET / HTTP/1.1\" 200 140 \"-\" \"Mozilla/5.0\""
    );
    assert_eq!(optional(None), "-");
    assert_eq!(optional(Some("x".to_string())), "x");
}

#[test]
fn access_line_of_a_request() {
    let line = mw_access_log(
        404,
        "GET",
        "HTTP/2.0",
        "/home/x.md",
        "10.0.0.1",
        Some("203.0.113.9"),
        None,
        Some("https://example.org/".to_string()),
        None,
        Some(1234),
        Some("99"),
        "now",
    );
    assert_eq!(
        line,
        "203.0.113.9 - - [now] \"GET /home/x.md HTTP/2.0\" 404 1234 \"https://example.org/\" \"-\""
    );
    let line = mw_access_log(
        200, "GET", "HTTP/1.1", "/", "10.0.0.1", None, None, None, Some(0), Some(5), None, "now",
    );
    assert_eq!(line, "10.0.0.1 - - [now] \"GET / HTTP/1.1\" 200 0 \"-\" \"-\"");
    let line = mw_access_log(
        200, "GET", "HTTP/1.1", "/", "10.0.0.1", None, None, None, None, None, Some("77"), "now",
    );
    assert_eq!(line, "10.0.0.1 - - [now] \"GET / HTTP/1.1\" 200 77 \"-\" \"-\"");
    let line = mw_access_log(
        200, "GET", "HTTP/1.1", "/", "10.0.0.1", None, None, None, None, None, None, "now",
    );
    assert_eq!(line, "10.0.0.1 - - [now] \"GET / HTTP/1.1\" 200 0 \"-\" \"-\"");
}

#[test]
fn only_access_lines_reach_the_access_log() {
    let format = AccessLogFormat;
    assert_eq!(format.format_event("access_log", "line"), Some("line\n".to_string()));
    assert_eq!(format.format_event("chimera_md", "line"), None);
}

#[test]
fn search_without_matches_echoes_the_query() {
    let state = state(false);
    let page = handle_search(&state, Some("zzz"), Some(vec![]));
    assert_eq!(page.template, "search.html");
    assert_eq!(text_of(&page, "query"), Some("zzz"));
    assert!(page.vars.iter().all(|v| v.name != "results"));
}

#[test]
fn search_with_matches_binds_the_results() {
    let state = state(false);
    let hits = vec![SearchHit {
        title: Some("a.md".to_string()),
        link: Some("/home/a.md".to_string()),
        fragment: "zzz top".to_string(),
        highlighted: vec![0..3],
    }];
    let page = handle_search(&state, Some("zzz"), Some(hits));
    let results = page.vars.iter().find(|v| v.name == "results").unwrap();
    match &results.value {
        TemplateValue::Results(r) => {
            assert_eq!(r.len(), 1);
            assert_eq!(r[0].snippet, "<span class=\"highlight\">zzz</span> top");
        }
        _ => panic!("results are bound to something else"),
    }
}

#[test]
fn search_without_query_is_blank() {
    let state = state(false);
    for page in [
        handle_search(&state, None, None),
        handle_search(&state, Some(""), Some(vec![])),
        handle_search(&state, Some("broken AND"), None),
    ] {
        assert_eq!(text_of(&page, "query"), Some(""));
        assert_eq!(text_of(&page, "placeholder"), Some("Search..."));
    }
}

#[test]
fn error_answers() {
    let state = state(false);
    let (status, page) = handle_404(&state);
    assert_eq!(status, 404);
    assert_eq!(text_of(&page, "error_code"), Some("404: Not found"));
    assert_eq!(text_of(&page, "heading"), Some("Page not found"));
    let (status, page) = handle_err(&state);
    assert_eq!(status, 500);
    assert_eq!(text_of(&page, "error_code"), Some("500: Internal server error"));
    assert_eq!(
        text_of(&page, "message"),
        Some("Chimera failed attempting to complete this request")
    );
}

#[test]
fn failures_inside_the_document_tree() {
    let state = state(false);
    assert!(handle_home(&state, Ok(200)).is_none());
    assert!(handle_home(&state, Ok(301)).is_none());
    assert_eq!(handle_home(&state, Ok(404)).unwrap().0, 404);
    assert_eq!(handle_home(&state, Ok(503)).unwrap().0, 500);
    assert_eq!(handle_home(&state, Err(ChimeraError::IOError("gone".to_string()))).unwrap().0, 404);
    assert_eq!(ChimeraError::IOError(String::new()).status(), 404);
    for e in [
        ChimeraError::TemplateParsing("x".to_string()),
        ChimeraError::TantivyError,
        ChimeraError::QueryError,
        ChimeraError::TokioChannel,
        ChimeraError::RwLock,
        ChimeraError::NotifyError,
        ChimeraError::TomlError("x".to_string()),
    ] {
        assert_eq!(e.status(), 500);
        assert_eq!(handle_home(&state, Err(e)).unwrap().0, 500);
    }
}

#[test]
fn document_is_served_with_its_peers() {
    let state = state(true);
    let listing = vec![found("", "readme.md"), found("", "other.md"), found("", "index.md")];
    let page =
        serve_markdown_file(&state, "readme.md", Some("# Hello\n\nWorld"), &listing).unwrap();
    assert_eq!(page.template, "markdown.html");
    assert!(text_of(&page, "body").unwrap().contains("<h1 id=\"hello\">Hello</h1>"));
    let peers = page.vars.iter().find(|v| v.name == "peers").unwrap();
    match &peers.value {
        TemplateValue::Peers(Some(p)) => {
            let names: Vec<&str> = p.files.iter().map(|l| l.name.as_str()).collect();
            assert_eq!(names, vec!["index", "other"]);
        }
        _ => panic!("the peers are missing"),
    }
}

#[test]
fn peers_are_left_out_unless_indexes_are_generated() {
    let state = state(false);
    let listing = vec![found("", "readme.md"), found("", "other.md")];
    let page = serve_markdown_file(&state, "readme.md", Some("text"), &listing).unwrap();
    let peers = page.vars.iter().find(|v| v.name == "peers").unwrap();
    assert!(matches!(&peers.value, TemplateValue::Peers(None)));
}

#[test]
fn missing_index_is_generated() {
    let state = state(true);
    let listing = vec![found("", "b.md"), found("", "a.md"), found("", "c.txt")];
    let page = serve_markdown_file(&state, "notes/index.md", None, &listing).unwrap();
    assert_eq!(page.template, "index.html");
    let peers = page.vars.iter().find(|v| v.name == "peers").unwrap();
    match &peers.value {
        TemplateValue::Peers(Some(p)) => {
            let urls: Vec<&str> = p.files.iter().map(|l| l.url.as_str()).collect();
            assert_eq!(urls, vec!["a.md", "b.md"]);
        }
        _ => panic!("the peers are missing"),
    }
}

#[test]
fn missing_document_is_not_found() {
    let state = state(true);
    assert!(serve_markdown_file(&state, "notes/gone.md", None, &Vec::new()).is_none());
}

#[test]
fn title_finder_takes_the_first_heading_text() {
    let mut finder = TitleFinder::new();
    assert_eq!(finder.doclinks.len(), 1);
    assert_eq!(finder.doclinks[0].anchor, "#top");
    assert_eq!(finder.doclinks[0].name, "Top");
    for ev in [
        TitleEvent::StartHeading,
        TitleEvent::Text("One".to_string()),
        TitleEvent::Text(" more".to_string()),
        TitleEvent::EndHeading,
        TitleEvent::StartHeading,
        TitleEvent::Text("Two".to_string()),
        TitleEvent::EndHeading,
        TitleEvent::Other,
    ] {
        finder.check_event(&ev);
    }
    assert_eq!(finder.title, Some("One".to_string()));
    assert!(!finder.in_header);
}

#[test]
fn title_finder_collects_in_page_links() {
    let mut finder = TitleFinder::new();
    for ev in [
        TitleEvent::StartLink { inline: true, dest_url: "#part".to_string() },
        TitleEvent::Text("Part".to_string()),
        TitleEvent::Text(" two".to_string()),
        TitleEvent::EndLink,
        TitleEvent::StartLink { inline: true, dest_url: "https://example.org".to_string() },
        TitleEvent::Text("Out".to_string()),
        TitleEvent::EndLink,
        TitleEvent::StartLink { inline: false, dest_url: "#ref".to_string() },
        TitleEvent::Text("Ref".to_string()),
        TitleEvent::EndLink,
        TitleEvent::StartLink { inline: true, dest_url: String::new() },
        TitleEvent::EndLink,
    ] {
        finder.check_event(&ev);
    }
    assert_eq!(finder.doclinks.len(), 2);
    assert_eq!(finder.doclinks[1].anchor, "#part");
    assert_eq!(finder.doclinks[1].name, "Part");
    assert_eq!(finder.title, None);
}

#[test]
fn timer_measures_between_samples() {
    let mut timer = PerfTimer::new(1_000, true);
    let sample = timer.sample("read-file", 3_500).unwrap();
    assert_eq!(sample.event, "read-file");
    assert_eq!(sample.elapsed_micros, 2_500);
    let sample = timer.sample("parse-markdown", 3_000).unwrap();
    assert_eq!(sample.elapsed_micros, 0);
    assert_eq!(timer.prev_time, 3_000);
    let mut off = PerfTimer::new(1_000, false);
    assert!(off.sample("read-file", 2_000).is_none());
    assert_eq!(off.prev_time, 1_000);
}
