use nexq::codex::extract_sources;

#[test]
fn extracts_markdown_and_bare_urls_without_duplicates() {
    let sources = extract_sources(
        "See [Rust](https://www.rust-lang.org/) and https://www.rust-lang.org/ plus https://example.com.",
    );
    assert_eq!(sources.len(), 2);
    assert_eq!(sources[0].title, "Rust");
    assert_eq!(sources[0].url, "https://www.rust-lang.org/");
    assert_eq!(sources[1].url, "https://example.com");
}

#[test]
fn bare_urls_are_stripped_of_surrounding_marks() {
    let sources = extract_sources("(<https://a.example/x>), \"http://b.example\"; ftp://c.example");
    let urls: Vec<(&str, &str)> = sources.iter().map(|s| (s.title.as_str(), s.url.as_str())).collect();
    assert_eq!(
        urls,
        vec![("Web source", "https://a.example/x"), ("Web source", "http://b.example")]
    );
}

#[test]
fn broken_markdown_links_are_skipped() {
    let loose = extract_sources("[Rust] (https://www.rust-lang.org/)");
    assert_eq!(loose.len(), 1);
    assert_eq!(loose[0].title, "Web source");
    assert_eq!(loose[0].url, "https://www.rust-lang.org/");
    assert!(extract_sources("[Rust](not-a-url)").is_empty());
    assert!(extract_sources("").is_empty());
}

#[test]
fn at_most_eight_sources_are_kept() {
    let text: Vec<String> = (0..12).map(|i| format!("https://site{}.example", i)).collect();
    let sources = extract_sources(&text.join(" "));
    assert_eq!(sources.len(), 8);
    assert_eq!(sources[7].url, "https://site7.example");
}

#[test]
fn markdown_link_titles_may_hold_spaces() {
    let sources = extract_sources("Read [Rust lang book](https://doc.rust-lang.org/book/). Also [a b](http://x.org)");
    let pairs: Vec<(&str, &str)> = sources.iter().map(|s| (s.title.as_str(), s.url.as_str())).collect();
    assert_eq!(
        pairs,
        vec![("Rust lang book", "https://doc.rust-lang.org/book/"), ("a b", "http://x.org")]
    );
}

#[test]
fn link_titles_end_at_the_first_bracket_on_their_line() {
    // A `]` not followed by `(` is no link; the bare URL after it still counts.
    let sources = extract_sources("[note] see https://a.example and [x](https://b.example)");
    let pairs: Vec<(&str, &str)> = sources.iter().map(|s| (s.title.as_str(), s.url.as_str())).collect();
    assert_eq!(pairs, vec![("Web source", "https://a.example"), ("x", "https://b.example")]);
    // A title does not run across lines, so this is no link.
    assert!(extract_sources("[first\nline](https://c.example)").is_empty());
}
