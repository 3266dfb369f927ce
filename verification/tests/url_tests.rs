use og_fetcher::url::parse_query;

#[test]
fn empty_path_resolves_to_none() {
    assert_eq!(parse_query("", None), None);
}

#[test]
fn empty_path_with_query_resolves_to_none() {
    assert_eq!(parse_query("", Some("a=1")), None);
}

#[test]
fn bare_host_gets_https_prefix() {
    assert_eq!(
        parse_query("example.com", None),
        Some(String::from("https://example.com"))
    );
}

#[test]
fn path_and_query_are_appended_raw() {
    assert_eq!(
        parse_query("example.com/page", Some("a=1&b=%20")),
        Some(String::from("https://example.com/page?a=1&b=%20"))
    );
}

#[test]
fn http_scheme_is_preserved() {
    assert_eq!(
        parse_query("http://example.com", None),
        Some(String::from("http://example.com"))
    );
}

#[test]
fn https_scheme_is_preserved() {
    assert_eq!(
        parse_query("https://example.com", Some("q=x")),
        Some(String::from("https://example.com?q=x"))
    );
}

#[test]
fn scheme_like_midway_still_gets_prefix() {
    assert_eq!(
        parse_query("example.com/http://inner", None),
        Some(String::from("https://example.com/http://inner"))
    );
}
