use web_crawler::web_url::Address;

fn address(s: &str) -> Address {
    match Address::parse(s) {
        Ok(url) => url,
        Err(reason) => panic!("{s}: {reason}"),
    }
}

#[test]
fn url_reads_its_parts() {
    let u = address("HTTPS://User@Example.com:8443/A%20b/?q=1#f");
    assert_eq!(u.text(), "https://User@example.com:8443/A%20b/?q=1#f");
    assert_eq!(u.prefix(), "https://User@example.com:8443");
    assert_eq!(u.scheme(), "https");
    assert_eq!(u.host_str(), Some("example.com"));
    assert_eq!(u.path(), "/A%20b/");
    assert_eq!(u.query(), Some("q=1"));
    assert!(u.is_web());
}

#[test]
fn url_says_why_it_cannot_be_read() {
    assert_eq!(Address::parse("x").err(), Some("relative URL without a base".to_string()));
    assert_eq!(Address::parse("http://").err(), Some("empty host".to_string()));
}

#[test]
fn url_resolves_references() {
    let base = address("https://x.com/a/b?c");
    let join = |r: &str| base.join(r).map(|u| u.text());
    assert_eq!(join("../d"), Some("https://x.com/d".to_string()));
    assert_eq!(join("#e"), Some("https://x.com/a/b?c#e".to_string()));
    assert_eq!(join("http://y.com"), Some("http://y.com/".to_string()));
    assert_eq!(join("http://["), None);
}

#[test]
fn url_origin_is_scheme_host_and_port() {
    assert_eq!(address("https://u:p@X.com:443/a?b#c").origin(), "https://x.com");
    assert_eq!(address("http://x.com:81/").origin(), "http://x.com:81");
    assert_eq!(address("http://[::1]:81/").origin(), "http://[::1]:81");
    assert_eq!(address("mailto:a@b.c").origin(), "null");
    assert_eq!(address("blob:https://x.com/a").origin(), "https://x.com");
    assert_eq!(address("blob:https://x.com/blob:b").origin(), "https://x.com");
    assert_eq!(address("blob:x").origin(), "null");
}

#[test]
fn url_robots_address_is_at_the_root() {
    assert_eq!(address("https://x.com/a/b?c#d").robots_url(), "https://x.com/robots.txt");
    assert_eq!(address("http://u@x.com:81").robots_url(), "http://u@x.com:81/robots.txt");
    assert_eq!(address("mailto:a@b.c?d").robots_url(), "mailto:%2Frobots.txt");
    assert_eq!(address("ftp://x.com/a").robots_url(), "ftp://x.com/robots.txt");
}

#[test]
fn url_drops_its_fragment() {
    assert_eq!(address("https://x.com/a?b#c").without_fragment().text(), "https://x.com/a?b");
    assert_eq!(address("https://x.com/a#").without_fragment().text(), "https://x.com/a");
    assert_eq!(address("data:x y#z").without_fragment().text(), "data:x y");
}

#[test]
fn url_loses_the_slashes_at_its_end() {
    let trimmed = |s: &str| address(s).without_slashes().text();
    assert_eq!(trimmed("https://x.com/a//?b#c"), "https://x.com/a?b#c");
    assert_eq!(trimmed("https://x.com/"), "https://x.com/");
    assert_eq!(trimmed("mailto:a/"), "mailto:a");
}

#[test]
fn url_drafts_change_the_query() {
    let draft = address("https://x.com/a?b=1").draft();
    assert_eq!(draft.text(), "https://x.com/a?b=1");
    assert_eq!(draft.without_query().text(), "https://x.com/a");
    let pairs = vec![
        ("a b".to_string(), "=&".to_string()),
        (String::new(), "\u{e9}".to_string()),
    ];
    assert_eq!(draft.with_pairs(&pairs).text(), "https://x.com/a?a+b=%3D%26&=%C3%A9");
    assert_eq!(draft.with_pairs(&Vec::new()).text(), "https://x.com/a?");
}

#[test]
fn url_of_a_file_is_held_as_it_was_read() {
    let u = address("file://h//C|");
    assert_eq!(u.text(), "file://h/C|");
    assert_eq!(u.host_str(), Some("h"));
    assert_eq!(u.without_fragment().text(), "file://h/C|");
    assert_eq!(u.join("#x").map(|v| v.text()), Some("file://h/C|#x".to_string()));
}

#[test]
fn url_is_the_same_by_its_text() {
    assert!(address("https://X.com").same(&address("https://x.com/")));
    assert!(!address("https://x.com/a").same(&address("https://x.com/a#")));
    let u = address("https://x.com/a?b#c");
    assert!(u.clone().same(&u));
}
