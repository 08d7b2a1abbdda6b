use web_crawler::normalize::{can_be_keyed, normalize_url};
use web_crawler::web_url::Address;

fn norm(s: &str) -> String {
    normalize_url(Address::parse(s).unwrap())
}

#[test]
fn normalize_strips_fragment_and_default_port() {
    assert_eq!(norm("HTTPS://Example.com:443/a#b"), "https://example.com/a");
}

#[test]
fn normalize_keeps_non_default_port() {
    assert_eq!(
        norm("http://example.com:8080/a"),
        "http://example.com:8080/a"
    );
}

#[test]
fn normalize_trims_trailing_slash_but_not_root() {
    assert_eq!(norm("https://x.com/a/"), "https://x.com/a");
    assert_eq!(norm("https://x.com/"), "https://x.com/");
}

#[test]
fn normalize_sorts_query_and_drops_empty_query() {
    assert_eq!(norm("https://x.com/a?b=2&a=1"), "https://x.com/a?a=1&b=2");
    assert_eq!(norm("https://x.com/a?"), "https://x.com/a");
}

#[test]
fn normalize_merges_one_page_under_one_key() {
    let key = "https://x.com/a?a=1&b=2";
    assert_eq!(norm("https://x.com/a//?b=2&a=1#top"), key);
    assert_eq!(norm("https://x.com/a?a=1&b=2"), key);
    assert_eq!(norm("https://x.com/a/?&b=2&&a=1&"), key);
}

#[test]
fn normalize_keeps_pages_apart() {
    assert_ne!(norm("https://x.com/a?b=2"), norm("https://x.com/a?b=3"));
    assert_ne!(norm("https://x.com/a"), norm("https://x.com/b"));
    assert_ne!(norm("https://x.com/a"), norm("http://x.com/a"));
    assert_ne!(norm("https://x.com/A"), norm("https://x.com/a"));
}

#[test]
fn normalize_sorts_by_name_then_value() {
    assert_eq!(
        norm("https://x.com/?b=1&a=2&a=10&a="),
        "https://x.com/?a=&a=10&a=2&b=1"
    );
    // Bytes decide: a letter outside ASCII comes after all within.
    assert_eq!(
        norm("https://x.com/?%C3%A9=1&z=1&Z=1"),
        "https://x.com/?Z=1&z=1&%C3%A9=1"
    );
}

#[test]
fn normalize_rewrites_the_query() {
    assert_eq!(norm("https://x.com/?q=a%20b"), "https://x.com/?q=a+b");
    assert_eq!(norm("https://x.com/?flag"), "https://x.com/?flag=");
    assert_eq!(norm("https://x.com/?&&"), "https://x.com/");
}

#[test]
fn normalize_trims_all_trailing_slashes() {
    assert_eq!(norm("https://x.com/a///"), "https://x.com/a");
    assert_eq!(norm("https://x.com//"), "https://x.com/");
    assert_eq!(norm("https://x.com/a//b/"), "https://x.com/a//b");
}

#[test]
fn normalize_handles_other_schemes() {
    assert_eq!(norm("mailto:a@b.c#x"), "mailto:a@b.c");
    assert_eq!(norm("mailto:a@b.c?subject=x"), "mailto:a@b.c?subject=x");
    assert_eq!(norm("ftp://x.com/a/"), "ftp://x.com/a");
    assert_eq!(norm("data:x/"), "data:x");
    assert_eq!(norm("file://h//C|"), "file://h/C|");
}

#[test]
fn normalize_is_stable() {
    let urls = [
        "https://x.com/a//?b=2&a=1#top",
        "https://user@x.com:81/%7Ea/?q=%2B+%26",
        "https://[::1]/x/",
    ];
    for url in urls {
        let key = norm(url);
        assert_eq!(norm(&key), key);
    }
}

#[test]
fn normalize_takes_urls_within_four_gigabytes() {
    assert!(can_be_keyed(&Address::parse("https://x.com/a/").unwrap()));
    assert!(can_be_keyed(&Address::parse("mailto:a/").unwrap()));
}

#[test]
fn normalize_merges_only_one_page() {
    let urls = [
        "https://x.com/a?b=1&b=2",
        "https://x.com/a?b=1",
        "https://x.com/a?b=1%26b=2",
        "https://x.com/a/b?b=1&b=2",
        "https://u@x.com/a?b=1&b=2",
        "https://x.com:81/a?b=1&b=2",
        "http://x.com/a?b=1&b=2",
    ];
    for (i, a) in urls.iter().enumerate() {
        for (j, b) in urls.iter().enumerate() {
            assert_eq!(norm(a) == norm(b), i == j);
        }
    }
}

#[test]
fn normalize_of_a_long_host_need_not_be_read_again() {
    // A label whose ASCII form is longer than what is read.
    let label: String = (0..900)
        .map(|i| char::from_u32(0x4e00 + (i * 7919) % 20000).unwrap())
        .collect();
    let url = Address::parse(&format!("https://{label}.com/a/")).unwrap();
    let key = normalize_url(url);
    assert!(key.starts_with("https://xn--") && key.ends_with(".com/a"));
    assert!(Address::parse(&key).is_err());
}
