use og_fetcher::og::{parse_open_graph, OpenGraphData};

#[test]
fn single_meta_is_extracted() {
    let html = "<html><head>\
        <meta property=\"og:title\" content=\"Hello\">\
        </head><body></body></html>";
    let data = parse_open_graph(html);
    assert_eq!(data.len(), 1);
    assert_eq!(data.get("og:title"), Some(&String::from("Hello")));
}

#[test]
fn later_occurrence_overwrites_earlier() {
    let html = "<html><head>\
        <meta property=\"og:title\" content=\"First\">\
        <meta property=\"og:title\" content=\"Second\">\
        </head></html>";
    let data = parse_open_graph(html);
    assert_eq!(data.len(), 1);
    assert_eq!(data.get("og:title"), Some(&String::from("Second")));
}

#[test]
fn meta_without_content_is_skipped() {
    let html = "<html><head>\
        <meta property=\"og:x\">\
        </head></html>";
    let data = parse_open_graph(html);
    assert_eq!(data.len(), 0);
    assert_eq!(data.get("og:x"), None);
}

#[test]
fn html_without_og_metas_yields_empty_mapping() {
    let html = "<html><head><title>plain</title>\
        <meta name=\"description\" content=\"not open graph\">\
        </head><body><p>text</p></body></html>";
    let data = parse_open_graph(html);
    assert_eq!(data.len(), 0);
}

#[test]
fn non_og_properties_are_ignored() {
    let html = "<html><head>\
        <meta property=\"twitter:card\" content=\"summary\">\
        <meta property=\"og:type\" content=\"article\">\
        </head></html>";
    let data = parse_open_graph(html);
    assert_eq!(data.len(), 1);
    assert_eq!(data.get("twitter:card"), None);
    assert_eq!(data.get("og:type"), Some(&String::from("article")));
}

#[test]
fn several_properties_are_all_extracted() {
    let html = "<html><head>\
        <meta property=\"og:title\" content=\"A Title\">\
        <meta property=\"og:type\" content=\"website\">\
        <meta property=\"og:url\" content=\"https://example.com\">\
        </head></html>";
    let data = parse_open_graph(html);
    assert_eq!(data.len(), 3);
    assert_eq!(data.get("og:title"), Some(&String::from("A Title")));
    assert_eq!(data.get("og:type"), Some(&String::from("website")));
    assert_eq!(data.get("og:url"), Some(&String::from("https://example.com")));
}

#[test]
fn malformed_html_is_tolerated() {
    let html = "<head><meta property=\"og:title\" content=\"Broken\"><p>no closing tags";
    let data = parse_open_graph(html);
    assert_eq!(data.get("og:title"), Some(&String::from("Broken")));
}

#[test]
fn insert_overwrites_and_keeps_one_entry() {
    let mut data = OpenGraphData::new();
    assert_eq!(data.len(), 0);
    data.insert(String::from("og:title"), String::from("one"));
    data.insert(String::from("og:title"), String::from("two"));
    data.insert(String::from("og:image"), String::from("pic"));
    assert_eq!(data.len(), 2);
    assert_eq!(data.get("og:title"), Some(&String::from("two")));
    assert_eq!(data.get("og:image"), Some(&String::from("pic")));
    assert_eq!(data.get("og:missing"), None);
}

#[test]
fn to_json_serializes_sorted_object() {
    let mut data = OpenGraphData::new();
    data.insert(String::from("og:type"), String::from("website"));
    data.insert(String::from("og:title"), String::from("Hello"));
    assert_eq!(
        data.to_json(),
        Ok(String::from("{\"og:title\":\"Hello\",\"og:type\":\"website\"}"))
    );
}

#[test]
fn to_json_escapes_quotes() {
    let mut data = OpenGraphData::new();
    data.insert(String::from("og:title"), String::from("He said \"hi\""));
    assert_eq!(
        data.to_json(),
        Ok(String::from("{\"og:title\":\"He said \\\"hi\\\"\"}"))
    );
}

#[test]
fn to_json_of_empty_mapping_is_empty_object() {
    let data = OpenGraphData::new();
    assert_eq!(data.to_json(), Ok(String::from("{}")));
}

#[test]
fn unicode_content_survives_extraction() {
    let html = "<html><head>\
        <meta property=\"og:title\" content=\"H\u{e9}llo \u{4e16}\u{754c}\">\
        </head></html>";
    let data = parse_open_graph(html);
    assert_eq!(
        data.get("og:title"),
        Some(&String::from("H\u{e9}llo \u{4e16}\u{754c}"))
    );
}
