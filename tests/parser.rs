use tenki::{extract_wikilinks, parse_markdown};

#[test]
fn test_extract_wikilinks() {
    let content = "This is a [[test]] with [[multiple|links]] inside.";
    let links = extract_wikilinks(content);
    assert_eq!(links, vec!["test", "multiple"]);
}

#[test]
fn test_parse_markdown() {
    let content = "# My Note\n\nSome text with [[wikilink]].\n\n## Section\n\nMore text.";
    let parsed = parse_markdown(content);
    assert_eq!(parsed.title, Some("My Note".to_string()));
    assert_eq!(parsed.headings.len(), 2);
    assert_eq!(parsed.wikilinks, vec!["wikilink"]);
}

#[test]
fn references_in_order_with_display_dropped() {
    assert_eq!(extract_wikilinks("[[x]] and [[y|z]]"), vec!["x", "y"]);
}

#[test]
fn references_keep_repeats() {
    assert_eq!(extract_wikilinks("[[a]][[b]][[a]]"), vec!["a", "b", "a"]);
}

#[test]
fn malformed_references_are_skipped() {
    assert!(extract_wikilinks("").is_empty());
    assert!(extract_wikilinks("[[]] [[x] [x]] [[|y]] [[x|]]").is_empty());
    assert_eq!(extract_wikilinks("[[[x]]"), vec!["[x"]);
    assert_eq!(extract_wikilinks("[[a|b|c]]"), vec!["a"]);
    assert_eq!(extract_wikilinks("[[a\nb]]"), vec!["a\nb"]);
    assert_eq!(extract_wikilinks("[[Über straße]]"), vec!["Über straße"]);
}

#[test]
fn headings_and_links_in_document_order() {
    let parsed = parse_markdown("Intro\n\n## Second *em*\n\n[site](http://x.org) and [b](/y)\n\n# Later\n");
    assert_eq!(parsed.title, Some("Second em".to_string()));
    assert_eq!(parsed.headings, vec!["Second em", "Later"]);
    assert_eq!(parsed.links, vec!["http://x.org", "/y"]);
    assert!(parsed.wikilinks.is_empty());
}

#[test]
fn no_heading_means_no_title() {
    let parsed = parse_markdown("just text");
    assert_eq!(parsed.title, None);
    assert!(parsed.headings.is_empty());
}
