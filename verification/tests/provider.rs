use nexq::provider::{duplicate_sources, StreamSource};

#[test]
fn duplicated_sources_are_equal() {
    let sources = vec![
        StreamSource { title: "Rust".to_string(), url: "https://www.rust-lang.org/".to_string() },
        StreamSource { title: "Web source".to_string(), url: "https://example.com".to_string() },
    ];
    let copy = duplicate_sources(&sources);
    assert_eq!(copy.len(), 2);
    assert_eq!(copy[1].url, "https://example.com");
    assert_eq!(sources[0].duplicate().title, "Rust");
}
