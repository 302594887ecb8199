use chimera_md::chimera_error::ChimeraError;
use chimera_md::document_scraper::{parse_markdown, InternalLink};
use chimera_md::file_manager::{FileManager, FoundFile};
use chimera_md::html_generator::{
    add_anchors, get_breadcrumbs, split_path, HtmlGenerator, HtmlGeneratorCfg, Page,
    TemplateValue,
};
use chimera_md::image_size_cache::{ImageSizeCache, WidthAndHeight};

fn link(anchor: &str) -> InternalLink {
    InternalLink::new(anchor.to_string(), anchor.to_string(), 1)
}

fn found(parent: &str, file_name: &str) -> FoundFile {
    FoundFile { parent: parent.to_string(), file_name: file_name.to_string() }
}

fn builtin_templates() -> Vec<FoundFile> {
    vec![
        found("", "markdown.html"),
        found("", "index.html"),
        found("", "search.html"),
        found("", "error.html"),
    ]
}

fn generator(images: Option<ImageSizeCache>) -> HtmlGenerator {
    let file_manager = FileManager::new("/data/home", "index.md");
    let cfg = HtmlGeneratorCfg {
        user_template_root: "/data/template".to_string(),
        internal_template_root: "/data/template-internal".to_string(),
        user_template_files: vec![],
        internal_template_files: builtin_templates(),
        site_title: "Site",
        index_file: "index.md",
        site_lang: "en",
        highlight_style: "an-old-hope",
        menu: vec![("Home".to_string(), "/".to_string())],
        file_manager: &file_manager,
        image_size_cache: images,
        version: "1.2.3",
    };
    HtmlGenerator::new(cfg).unwrap()
}

fn text_of<'a>(page: &'a Page, name: &str) -> Option<&'a str> {
    let mut found = None;
    for var in &page.vars {
        if var.name == name {
            found = match &var.value {
                TemplateValue::Text(t) => Some(t.as_str()),
                _ => None,
            };
        }
    }
    found
}

fn names_of(page: &Page) -> Vec<&str> {
    page.vars.iter().map(|v| v.name.as_str()).collect()
}

#[test]
fn anchors_are_injected_in_document_order() {
    let html = "<h1>A</h1>\n<p>x</p>\n<h2>B</h2>\n".to_string();
    let out = add_anchors(html, &vec![link("a"), link("b")], false, &None);
    assert_eq!(out, "<h1 id=\"a\">A</h1>\n<p>x</p>\n<h2 id=\"b\">B</h2>\n");
}

#[test]
fn synthesized_top_link_is_passed_over() {
    let html = "<p>intro</p>\n<h2>B</h2>\n".to_string();
    let out = add_anchors(html, &vec![link("top"), link("b")], true, &None);
    assert_eq!(out, "<p>intro</p>\n<h2 id=\"b\">B</h2>\n");
}

#[test]
fn heading_with_id_keeps_it_and_uses_up_a_link() {
    let html = "<h1 id=\"own\">A</h1><h2>B</h2>".to_string();
    let out = add_anchors(html, &vec![link("a"), link("b")], false, &None);
    assert_eq!(out, "<h1 id=\"own\">A</h1><h2 id=\"b\">B</h2>");
}

#[test]
fn heading_with_other_attributes_gets_an_id() {
    let html = "<h1 class=\"c\">A</h1>".to_string();
    let out = add_anchors(html, &vec![link("a")], false, &None);
    assert_eq!(out, "<h1 id=\"a\" class=\"c\">A</h1>");
}

#[test]
fn headings_beyond_the_links_stay_as_they_are() {
    let html = "<h1>A</h1><h2>B</h2><hr><h>".to_string();
    let out = add_anchors(html, &vec![link("a")], false, &None);
    assert_eq!(out, "<h1 id=\"a\">A</h1><h2>B</h2><hr><h>");
}

#[test]
fn document_without_links_is_unchanged() {
    let html = "<h1>A</h1>".to_string();
    assert_eq!(add_anchors(html.clone(), &vec![], false, &None), html);
    assert_eq!(add_anchors(html.clone(), &vec![link("top")], true, &None), html);
    assert_eq!(add_anchors(String::new(), &vec![link("a")], false, &None), "");
}

#[test]
fn text_that_looks_like_a_tag_start() {
    let html = "<h1".to_string();
    assert_eq!(add_anchors(html, &vec![link("a")], false, &None), "<h1");
    let html = "a < b <h1x> <hx> <h\u{e9}> <h2>".to_string();
    assert_eq!(
        add_anchors(html, &vec![link("a")], false, &None),
        "a < b <h1x> <hx> <h\u{e9}> <h2 id=\"a\">"
    );
}

#[test]
fn image_tags_get_their_dimensions() {
    let sizes = ImageSizeCache::new(vec![(
        "/media/a.png".to_string(),
        WidthAndHeight { width: 640, height: 48 },
    )]);
    let html = "<h1>T</h1><img src=\"/media/a.png\" alt=\"a\" /><img src=\"/media/b.png\" />"
        .to_string();
    let out = add_anchors(html, &vec![link("t")], false, &Some(sizes));
    assert_eq!(
        out,
        "<h1 id=\"t\">T</h1><img src=\"/media/a.png\" width=\"640\" height = \"48\" alt=\"a\" /><img src=\"/media/b.png\" />"
    );
}

#[test]
fn image_tag_without_closing_quote_is_copied() {
    let sizes = ImageSizeCache::new(vec![(
        "a.png".to_string(),
        WidthAndHeight { width: 1, height: 2 },
    )]);
    let html = "<img src=\"a.png".to_string();
    let out = add_anchors(html.clone(), &vec![link("t")], false, &Some(sizes));
    assert_eq!(out, html);
}

#[test]
fn rendered_document_carries_its_anchors() {
    let (body, scraper) = parse_markdown("# Hello\n\nWorld");
    let generator = generator(None);
    let page = generator.gen_markdown("readme.md", body, scraper, None);
    assert_eq!(page.template, "markdown.html");
    let body = text_of(&page, "body").unwrap();
    assert!(body.contains("<h1 id=\"hello\">Hello</h1>"));
    assert!(body.contains("<p>World</p>"));
    assert_eq!(text_of(&page, "title"), Some("Site: Hello"));
    assert_eq!(text_of(&page, "url"), Some("/home/readme.md"));
    assert_eq!(text_of(&page, "breadcrumb_label"), Some("readme.md"));
    assert_eq!(text_of(&page, "site_title"), Some("Site"));
    assert_eq!(text_of(&page, "site_lang"), Some("en"));
    assert_eq!(text_of(&page, "highlight_style"), Some("an-old-hope"));
    assert_eq!(text_of(&page, "version"), Some("1.2.3"));
    assert_eq!(
        names_of(&page),
        vec![
            "title",
            "site_title",
            "site_lang",
            "highlight_style",
            "has_code",
            "version",
            "menu",
            "body",
            "doclinks",
            "peers",
            "code_languages",
            "breadcrumbs",
            "breadcrumb_label",
            "url"
        ]
    );
}

#[test]
fn front_matter_is_bound_and_selects_the_template() {
    let md = "---\ntemplate: index.html\ntitle: Mine\n---\n\nText\n";
    let (body, scraper) = parse_markdown(md);
    let generator = generator(None);
    let page = generator.gen_markdown("a/b.md", body, scraper, None);
    assert_eq!(page.template, "index.html");
    assert_eq!(text_of(&page, "template"), Some("index.html"));
    assert_eq!(text_of(&page, "title"), Some("Mine"));
    let names = names_of(&page);
    assert_eq!(names[names.len() - 2..], ["template", "title"]);
    assert_eq!(names[0], "title");
}

#[test]
fn untitled_document_is_named_after_its_file() {
    let (body, scraper) = parse_markdown("just text");
    let generator = generator(None);
    let page = generator.gen_markdown("notes/plain.md", body, scraper, None);
    let first_title = match &page.vars[0].value {
        TemplateValue::Text(t) => t.as_str(),
        _ => "",
    };
    assert_eq!(first_title, "Site: plain.md");
}

#[test]
fn breadcrumbs_of_a_document() {
    let crumbs = get_breadcrumbs("a/b/c.md", "index.md");
    assert_eq!(crumbs.crumbs.len(), 3);
    assert_eq!(crumbs.crumbs[0].name, "Home");
    assert_eq!(crumbs.crumbs[0].url, "/home/");
    assert_eq!(crumbs.crumbs[1].name, "a");
    assert_eq!(crumbs.crumbs[1].url, "/home/a/");
    assert_eq!(crumbs.crumbs[2].name, "b");
    assert_eq!(crumbs.crumbs[2].url, "/home/a/b/");
    assert_eq!(crumbs.label, Some("c.md".to_string()));
}

#[test]
fn breadcrumbs_leave_out_the_index_file() {
    let crumbs = get_breadcrumbs("a/b/index.md", "index.md");
    assert_eq!(crumbs.crumbs.len(), 3);
    assert_eq!(crumbs.crumbs[2].url, "/home/a/b/");
    assert_eq!(crumbs.label, None);
}

#[test]
fn breadcrumbs_of_short_paths() {
    let crumbs = get_breadcrumbs("readme.md", "index.md");
    assert_eq!(crumbs.crumbs.len(), 1);
    assert_eq!(crumbs.label, Some("readme.md".to_string()));
    let crumbs = get_breadcrumbs("", "index.md");
    assert_eq!(crumbs.crumbs.len(), 1);
    assert_eq!(crumbs.label, None);
}

#[test]
fn breadcrumb_urls_are_encoded() {
    let crumbs = get_breadcrumbs("my notes/caf\u{e9}/x.md", "index.md");
    assert_eq!(crumbs.crumbs[1].name, "my notes");
    assert_eq!(crumbs.crumbs[1].url, "/home/my%20notes/");
    assert_eq!(crumbs.crumbs[2].name, "caf\u{e9}");
    assert_eq!(crumbs.crumbs[2].url, "/home/my%20notes/caf%C3%A9/");
}

#[test]
fn paths_split_at_slashes() {
    assert_eq!(split_path("a/b/c.md"), vec!["a", "b", "c.md"]);
    assert_eq!(split_path("/a//b/"), vec!["a", "b"]);
    assert_eq!(split_path(""), Vec::<String>::new());
    assert_eq!(split_path("///"), Vec::<String>::new());
}

#[test]
fn user_templates_win_over_builtin_ones() {
    let file_manager = FileManager::new("/data/home", "index.md");
    let cfg = HtmlGeneratorCfg {
        user_template_root: "/data/template".to_string(),
        internal_template_root: "/data/template-internal".to_string(),
        user_template_files: vec![
            found("", "markdown.html"),
            found("", "notes.txt"),
            found("sub", "markdown.html"),
            found("sub", "extra.html"),
        ],
        internal_template_files: builtin_templates(),
        site_title: "Site",
        index_file: "index.md",
        site_lang: "en",
        highlight_style: "style",
        menu: vec![],
        file_manager: &file_manager,
        image_size_cache: None,
        version: "0",
    };
    let generator = HtmlGenerator::new(cfg).unwrap();
    let chosen: Vec<(&str, &str)> =
        generator.templates.iter().map(|t| (t.name.as_str(), t.path.as_str())).collect();
    assert_eq!(
        chosen,
        vec![
            ("markdown.html", "/data/template/markdown.html"),
            ("extra.html", "/data/template/sub/extra.html"),
            ("index.html", "/data/template-internal/index.html"),
            ("search.html", "/data/template-internal/search.html"),
            ("error.html", "/data/template-internal/error.html"),
        ]
    );
}

#[test]
fn missing_required_template_is_an_error() {
    let file_manager = FileManager::new("/data/home", "index.md");
    let cfg = HtmlGeneratorCfg {
        user_template_root: "/u".to_string(),
        internal_template_root: "/i".to_string(),
        user_template_files: vec![found("", "markdown.html")],
        internal_template_files: vec![found("", "index.html"), found("", "error.html")],
        site_title: "Site",
        index_file: "index.md",
        site_lang: "en",
        highlight_style: "style",
        menu: vec![],
        file_manager: &file_manager,
        image_size_cache: None,
        version: "0",
    };
    match HtmlGenerator::new(cfg) {
        Err(e) => assert_eq!(
            e,
            ChimeraError::TemplateParsing("Missing template: search.html".to_string())
        ),
        Ok(_) => panic!("a generator without a search template"),
    }
}

#[test]
fn search_pages() {
    let generator = generator(None);
    let blank = generator.gen_search_blank();
    assert_eq!(blank.template, "search.html");
    assert_eq!(text_of(&blank, "query"), Some(""));
    assert_eq!(text_of(&blank, "placeholder"), Some("Search..."));
    assert_eq!(text_of(&blank, "title"), Some("Site: Search results"));
    let empty = generator.gen_search("zzz", vec![]);
    assert_eq!(text_of(&empty, "query"), Some("zzz"));
    assert_eq!(text_of(&empty, "placeholder"), Some("zzz"));
    assert!(!names_of(&empty).contains(&"results"));
}

#[test]
fn error_page() {
    let generator = generator(None);
    let page = generator.gen_error("404: Not found", "Page not found", "gone");
    assert_eq!(page.template, "error.html");
    assert_eq!(text_of(&page, "title"), Some("Site: Error"));
    assert_eq!(text_of(&page, "error_code"), Some("404: Not found"));
    assert_eq!(text_of(&page, "heading"), Some("Page not found"));
    assert_eq!(text_of(&page, "message"), Some("gone"));
}

#[test]
fn index_page() {
    let generator = generator(None);
    let page = generator.gen_index("notes/index.md", None);
    assert_eq!(page.template, "index.html");
    assert_eq!(text_of(&page, "title"), Some("Site: index.md"));
    assert_eq!(text_of(&page, "path"), Some("index.md"));
    assert_eq!(text_of(&page, "breadcrumb_label"), Some(""));
    let listing = generator.gen_index("notes/drafts", None);
    assert_eq!(text_of(&listing, "breadcrumb_label"), Some("drafts"));
    assert_eq!(text_of(&page, "body"), Some(""));
    let crumbs = page.vars.iter().find(|v| v.name == "breadcrumbs").unwrap();
    match &crumbs.value {
        TemplateValue::Breadcrumbs(c) => {
            assert_eq!(c.len(), 2);
            assert_eq!(c[1].url, "/home/notes/");
        }
        _ => panic!("breadcrumbs are bound to something else"),
    }
    let doclinks = page.vars.iter().find(|v| v.name == "doclinks").unwrap();
    match &doclinks.value {
        TemplateValue::DocLinks(l) => assert_eq!(
            *l,
            vec![InternalLink::new("contents".to_string(), "Contents".to_string(), 2)]
        ),
        _ => panic!("doclinks are bound to something else"),
    }
}

#[test]
fn image_sizes_are_looked_up() {
    let mut sizes = ImageSizeCache::new(vec![
        ("a.png".to_string(), WidthAndHeight { width: 1, height: 2 }),
        ("a.png".to_string(), WidthAndHeight { width: 3, height: 4 }),
    ]);
    assert_eq!(sizes.get_dimensions("a.png"), Some(WidthAndHeight { width: 3, height: 4 }));
    assert_eq!(sizes.get_dimensions("b.png"), None);
    sizes.load(vec![("b.png".to_string(), WidthAndHeight { width: 5, height: 6 })]);
    assert_eq!(sizes.get_dimensions("a.png"), None);
    assert_eq!(sizes.get_dimensions("b.png"), Some(WidthAndHeight { width: 5, height: 6 }));
    assert!(ImageSizeCache::reload_on_change("/data/image-sizes.toml"));
    assert!(!ImageSizeCache::reload_on_change("/data/home/a.md"));
}
