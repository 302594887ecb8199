use chimera_md::anchors::unique_anchor;
use chimera_md::document_scraper::{
    code_language, heading_link, parse_level, parse_markdown, scrape, DocumentScraper,
    ExternalLink, InternalLink,
};
use chimera_md::markdown::{
    MdEvent, DOCUMENT_OPTIONS, ENABLE_SMART_PUNCTUATION, ENABLE_TABLES,
    ENABLE_YAML_STYLE_METADATA_BLOCKS,
};

#[test]
fn test_link_in_md_heading() {
    let md = "# / [Home](/index.md) / [Documents](/Documents/index.md) / [Work](index.md)";
    let (_html_content, scraper) = parse_markdown(md);
    assert_eq!(scraper.internal_links.len(), 1);
    assert_eq!(
        scraper.internal_links[0],
        InternalLink::new(
            "home-documents-work".to_string(),
            "/ Home / Documents / Work".to_string(),
            1
        )
    );
}

#[test]
fn test_heart_in_md_heading() {
    let md = "### Kisses <3!";
    let (_html_content, scraper) = parse_markdown(md);
    assert_eq!(scraper.internal_links.len(), 1);
    assert_eq!(
        scraper.internal_links[0],
        InternalLink::new("kisses-3".to_string(), "Kisses <3!".to_string(), 1)
    );
}

#[test]
fn test_first_heading_is_also_title() {
    let md = "# The title\n\nBody\n\n## Subhead\n\nBody 2";
    let (_html_content, scraper) = parse_markdown(md);
    assert_eq!(scraper.internal_links.len(), 2);
    assert_eq!(
        scraper.internal_links[0],
        InternalLink::new("the-title".to_string(), "The title".to_string(), 1)
    );
    assert_eq!(
        scraper.internal_links[1],
        InternalLink::new("subhead".to_string(), "Subhead".to_string(), 2)
    );
    assert_eq!(scraper.title, Some("The title".to_string()));
}

#[test]
fn test_metadata_with_multiple_lines() {
    let md = "---
template: index.html
title: Index
url: https://my.site.com
image: /media/fancy.jpg
type: website
---";
    let (_html_content, scraper) = parse_markdown(md);
    assert_eq!(scraper.metadata.len(), 5);
    assert_eq!(scraper.metadata.get("template"), Some(&String::from("index.html")));
    assert_eq!(scraper.metadata.get("title"), Some(&String::from("Index")));
    assert_eq!(scraper.metadata.get("image"), Some(&String::from("/media/fancy.jpg")));
    assert_eq!(scraper.metadata.get("type"), Some(&String::from("website")));
    assert_eq!(scraper.metadata.get("url"), Some(&String::from("https://my.site.com")));
}

#[test]
fn test_metadata_with_nested_struct() {
    let _md = "---
template: index.html
og:
  - title: Index
  - url: https://my.site.com
  - image: /media/fancy.jpg
  - type: website
---";
}

#[test]
fn nested_front_matter_keeps_the_string_entries() {
    let md = "---
template: index.html
og:
  - title: Index
  - url: https://my.site.com
---";
    let (_html, scraper) = parse_markdown(md);
    assert_eq!(scraper.metadata.len(), 1);
    assert_eq!(scraper.metadata.get("template"), Some(&String::from("index.html")));
    assert_eq!(scraper.metadata.get("og"), None);
}

#[test]
fn malformed_front_matter_contributes_nothing() {
    let md = "---\nkey: [unclosed\n---\n\n# After";
    let (_html, scraper) = parse_markdown(md);
    assert_eq!(scraper.metadata.len(), 0);
    assert!(scraper.metadata.is_empty());
}

#[test]
fn non_string_scalars_are_passed_over() {
    let md = "---\nport: 8080\nname: site\n---\n";
    let (_html, scraper) = parse_markdown(md);
    assert_eq!(scraper.metadata.len(), 1);
    assert_eq!(scraper.metadata.get("name"), Some(&String::from("site")));
}

#[test]
fn hello_world_renders_and_scrapes() {
    let (html, scraper) = parse_markdown("# Hello\n\nWorld");
    assert_eq!(html, "<h1>Hello</h1>\n<p>World</p>\n");
    assert_eq!(scraper.title, Some("Hello".to_string()));
    assert!(scraper.starts_with_heading);
    assert!(!scraper.has_code_blocks);
    assert_eq!(scraper.get_template(), "markdown.html");
}

#[test]
fn heading_name_is_the_concatenated_text() {
    let (_html, scraper) = parse_markdown("## One *two* `code` three");
    assert_eq!(scraper.internal_links.len(), 1);
    assert_eq!(scraper.internal_links[0].name, "One two  three");
    assert_eq!(scraper.internal_links[0].anchor, "one-two-three");
    assert_eq!(scraper.title, Some("One two  three".to_string()));
}

#[test]
fn later_headings_do_not_replace_the_title() {
    let (_html, scraper) = parse_markdown("# First\n\n# Second\n");
    assert_eq!(scraper.title, Some("First".to_string()));
    assert_eq!(scraper.internal_links.len(), 2);
}

#[test]
fn document_without_opening_heading_gets_top_link() {
    let (_html, scraper) = parse_markdown("Some text\n\n## Later\n");
    assert!(!scraper.starts_with_heading);
    assert_eq!(scraper.internal_links.len(), 2);
    assert_eq!(
        scraper.internal_links[0],
        InternalLink::new("top".to_string(), "Top".to_string(), 1)
    );
    assert_eq!(
        scraper.internal_links[1],
        InternalLink::new("later".to_string(), "Later".to_string(), 2)
    );
}

#[test]
fn empty_document_has_only_the_top_link() {
    let (html, scraper) = parse_markdown("");
    assert_eq!(html, "");
    assert_eq!(scraper.title, None);
    assert_eq!(scraper.internal_links.len(), 1);
    assert_eq!(scraper.internal_links[0].anchor, "top");
}

#[test]
fn index_template_gets_contents_link() {
    let md = "---\ntemplate: index.html\n---\n\n# Title\n";
    let (_html, scraper) = parse_markdown(md);
    assert_eq!(scraper.get_template(), "index.html");
    let last = scraper.internal_links.last().unwrap();
    assert_eq!(*last, InternalLink::new("contents".to_string(), "Contents".to_string(), 2));
}

#[test]
fn code_languages_on_the_allowlist_are_recorded() {
    let md = "```rust\nfn main() {}\n```\n\n```Python\nprint()\n```\n\n```klingon\nx\n```\n\n```rust\n```\n";
    let (_html, scraper) = parse_markdown(md);
    assert!(scraper.has_code_blocks);
    assert_eq!(scraper.code_languages, vec!["rust", "python", "rust"]);
}

#[test]
fn indented_code_counts_as_code_without_language() {
    let (_html, scraper) = parse_markdown("Text\n\n    indented code\n");
    assert!(scraper.has_code_blocks);
    assert!(scraper.code_languages.is_empty());
}

#[test]
fn allowlist_lookup() {
    let rust: Vec<char> = "rust".chars().collect();
    let upper: Vec<char> = "Rust".chars().collect();
    let none: Vec<char> = "".chars().collect();
    assert_eq!(code_language(&rust), Some("rust"));
    assert_eq!(code_language(&upper), None);
    assert_eq!(code_language(&none), None);
}

#[test]
fn inline_html_heading_with_id() {
    let md = "Intro\n\n<h3 id=\"the-middle\">The middle</h3>\n\nText\n";
    let (_html, scraper) = parse_markdown(md);
    assert_eq!(scraper.internal_links.len(), 2);
    assert_eq!(
        scraper.internal_links[1],
        InternalLink::new("the-middle".to_string(), "The middle".to_string(), 2)
    );
    assert_eq!(scraper.title, None);
}

#[test]
fn inline_html_heading_without_id_uses_its_text() {
    let md = "Intro\n\n<h2 class=\"x\">Plain</h2>\n\nText\n";
    let (_html, scraper) = parse_markdown(md);
    assert_eq!(scraper.internal_links.len(), 2);
    assert_eq!(
        scraper.internal_links[1],
        InternalLink::new("Plain".to_string(), "Plain".to_string(), 2)
    );
}

#[test]
fn heading_link_from_groups() {
    let groups = vec![
        Some("<h4 id=\"a\">T</h4>".to_string()),
        Some("4".to_string()),
        Some("id=\"a\"".to_string()),
        Some("T".to_string()),
    ];
    assert_eq!(
        heading_link(&groups),
        Some(InternalLink::new("a".to_string(), "T".to_string(), 4))
    );
    let no_attrs = vec![Some("x".to_string()), None, None, Some("T".to_string())];
    assert_eq!(
        heading_link(&no_attrs),
        Some(InternalLink::new("T".to_string(), "T".to_string(), 1))
    );
    let no_text = vec![Some("x".to_string()), Some("2".to_string()), None, None];
    assert_eq!(heading_link(&no_text), None);
    let short = vec![Some("x".to_string())];
    assert_eq!(heading_link(&short), None);
    let bad_level = vec![
        Some("x".to_string()),
        Some("\u{0663}".to_string()),
        None,
        Some("T".to_string()),
    ];
    assert_eq!(heading_link(&bad_level), None);
}

#[test]
fn level_digits() {
    assert_eq!(parse_level("1"), Some(1));
    assert_eq!(parse_level("6"), Some(6));
    assert_eq!(parse_level("0"), None);
    assert_eq!(parse_level("7"), None);
    assert_eq!(parse_level("9"), None);
    assert_eq!(parse_level("12"), None);
    assert_eq!(parse_level(""), None);
    assert_eq!(parse_level("x"), None);
}

fn levels_after_normalizing(levels: &[u8]) -> Vec<u8> {
    let mut scraper = DocumentScraper::new();
    for level in levels {
        scraper.internal_links.push(InternalLink::new(String::new(), String::new(), *level));
    }
    scraper.normalize_headings();
    scraper.internal_links.iter().map(|l| l.level).collect()
}

#[test]
fn normalization_closes_gaps() {
    assert_eq!(levels_after_normalizing(&[1, 3, 3, 5, 2]), vec![1, 2, 2, 3, 2]);
    assert_eq!(levels_after_normalizing(&[3]), vec![1]);
    assert_eq!(levels_after_normalizing(&[2, 2, 2]), vec![1, 1, 1]);
    assert_eq!(levels_after_normalizing(&[1, 2, 3, 1, 2]), vec![1, 2, 3, 1, 2]);
    assert_eq!(levels_after_normalizing(&[]), Vec::<u8>::new());
}

#[test]
fn normalization_keeps_a_deep_outdent() {
    assert_eq!(levels_after_normalizing(&[1, 6, 4]), vec![1, 2, 4]);
}

#[test]
fn normalized_levels_step_down_by_one_at_most() {
    let out = levels_after_normalizing(&[2, 4, 6, 6, 3, 5, 1, 6]);
    for pair in out.windows(2) {
        assert!(pair[1] <= pair[0] + 1);
    }
}

#[test]
fn scrape_of_an_event_list() {
    let events = vec![
        MdEvent::StartOther,
        MdEvent::Text("intro".to_string()),
        MdEvent::Other,
        MdEvent::StartHeading,
        MdEvent::Text("A ".to_string()),
        MdEvent::StartOther,
        MdEvent::Text("B".to_string()),
        MdEvent::Other,
        MdEvent::EndHeading(4),
        MdEvent::StartCodeBlock(Some("SQL".to_string())),
        MdEvent::Text("select".to_string()),
        MdEvent::Other,
    ];
    let scraper = scrape(&events);
    assert_eq!(scraper.title, Some("A B".to_string()));
    assert!(!scraper.starts_with_heading);
    assert_eq!(scraper.internal_links.len(), 2);
    assert_eq!(
        scraper.internal_links[1],
        InternalLink::new("a-b".to_string(), "A B".to_string(), 2)
    );
    assert_eq!(scraper.code_languages, vec!["sql"]);
    assert!(scraper.has_code_blocks);
}

#[test]
fn end_heading_without_start_is_ignored() {
    let events = vec![MdEvent::EndHeading(2), MdEvent::EndMetadataBlock];
    let scraper = scrape(&events);
    assert_eq!(scraper.title, None);
    assert_eq!(scraper.internal_links.len(), 1);
    assert_eq!(scraper.metadata.len(), 0);
}

#[test]
fn external_link_constructor() {
    let link = ExternalLink::new("/home/a/".to_string(), "a".to_string());
    assert_eq!(link.url, "/home/a/");
    assert_eq!(link.name, "a");
    assert_eq!(link, link.clone());
}

#[test]
fn option_bits_are_those_of_the_parser() {
    assert_eq!(ENABLE_TABLES, pulldown_cmark::Options::ENABLE_TABLES.bits());
    assert_eq!(ENABLE_SMART_PUNCTUATION, pulldown_cmark::Options::ENABLE_SMART_PUNCTUATION.bits());
    assert_eq!(
        ENABLE_YAML_STYLE_METADATA_BLOCKS,
        pulldown_cmark::Options::ENABLE_YAML_STYLE_METADATA_BLOCKS.bits()
    );
    assert_eq!(DOCUMENT_OPTIONS, 2 | 32 | 128);
}

#[test]
fn smart_punctuation_and_tables_are_on() {
    let (html, _scraper) = parse_markdown("\"quoted\"\n\n| a |\n|---|\n| b |\n");
    assert!(html.contains("\u{201c}quoted\u{201d}"));
    assert!(html.contains("<table>"));
}

fn anchors_of(md: &str) -> Vec<String> {
    let (_html, scraper) = parse_markdown(md);
    scraper.internal_links.iter().map(|l| l.anchor.clone()).collect()
}

#[test]
fn repeated_headings_get_anchors_of_their_own() {
    assert_eq!(anchors_of("# A\n\n# A"), vec!["a", "a-1"]);
    assert_eq!(anchors_of("# A\n\n## A\n\n### a"), vec!["a", "a-1", "a-2"]);
    assert_eq!(anchors_of("# A 1\n\n# A\n\n# A"), vec!["a-1", "a", "a-2"]);
}

#[test]
fn headings_keep_off_the_top_and_contents_anchors() {
    assert_eq!(anchors_of("intro\n\n# Top\n\n# Contents"), vec!["top", "top-1", "contents-1"]);
    assert_eq!(anchors_of("# Top"), vec!["top-1"]);
    assert_eq!(
        anchors_of("---\ntemplate: index.html\n---\n\n# Contents\n"),
        vec!["contents-1", "contents"]
    );
}

#[test]
fn heading_without_letters_gets_a_stand_in_anchor() {
    assert_eq!(anchors_of("# ???\n\n# !!!"), vec!["section", "section-1"]);
}

#[test]
fn markdown_heading_keeps_off_an_inline_id() {
    let md = "<h2 id=\"setup\">First</h2>\n\n## Setup\n";
    assert_eq!(anchors_of(md), vec!["top", "setup", "setup-1"]);
}

#[test]
fn all_anchors_of_a_document_differ() {
    let md = "# One\n\n## Two\n\n## One\n\n### Two\n\n# one\n\n## Top\n\ntext";
    let anchors = anchors_of(md);
    for (i, a) in anchors.iter().enumerate() {
        assert!(!a.is_empty());
        for b in &anchors[i + 1..] {
            assert_ne!(a, b);
        }
    }
    assert_eq!(anchors, vec!["one", "two", "one-1", "two-1", "one-2", "top-1"]);
}

#[test]
fn unique_anchor_counts_up() {
    let mut links = Vec::new();
    assert_eq!(unique_anchor(&links, "a"), "a");
    assert_eq!(unique_anchor(&links, "top"), "top-1");
    assert_eq!(unique_anchor(&links, ""), "section");
    assert_eq!(unique_anchor(&links, "a b<c>\"d\""), "abcd");
    assert_eq!(unique_anchor(&links, "<>"), "section");
    assert_eq!(unique_anchor(&links, "A_b.c~d-e"), "A_b.c~d-e");
    links.push(InternalLink::new("a".to_string(), "A".to_string(), 1));
    links.push(InternalLink::new("a-1".to_string(), "A".to_string(), 1));
    links.push(InternalLink::new("a-3".to_string(), "A".to_string(), 1));
    assert_eq!(unique_anchor(&links, "a"), "a-2");
    assert_eq!(unique_anchor(&links, "b"), "b");
    for n in 2..12 {
        let anchor = unique_anchor(&links, "a");
        links.push(InternalLink::new(anchor, "A".to_string(), 1));
        assert_eq!(links.len(), n + 2);
    }
    assert_eq!(links.last().unwrap().anchor, "a-12");
}

#[test]
fn inline_html_heading_of_unknown_depth_gives_no_link() {
    let md = "Intro\n\n<h7 id=\"x\">Seven</h7>\n\n<h0>Zero</h0>\n";
    assert_eq!(anchors_of(md), vec!["top"]);
}
