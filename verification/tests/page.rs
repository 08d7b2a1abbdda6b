use web_crawler::page::{
    follow_link, keep_link, link_target, parse_page, read_elements, trim_to_nonempty, Element,
    Page,
};
use web_crawler::web_url::Address;

fn address(s: &str) -> Address {
    match Address::parse(s) {
        Ok(url) => url,
        Err(reason) => panic!("{s}: {reason}"),
    }
}

fn links(page: &Page) -> Vec<String> {
    page.links.iter().map(|u| u.text()).collect()
}

#[test]
fn page_gives_title_description_and_links() {
    let body = "<html><head><title> Home <b>page</b> </title>\
                <title>Second</title>\
                <meta name=description content=' A page. '>\
                <meta name=description content='Another.'></head>\
                <body><a href='b#x'>b</a><a href=/c>c</a><a name=n>n</a>\
                <a href='http://y.com'>y</a></body></html>";
    let page = parse_page(&address("https://x.com/a/index.html"), body);
    assert_eq!(page.title, Some("Home <b>page</b>".to_string()));
    assert_eq!(page.description, Some("A page.".to_string()));
    assert_eq!(
        links(&page),
        vec![
            "https://x.com/a/b".to_string(),
            "https://x.com/c".to_string(),
            "http://y.com/".to_string()
        ]
    );
}

#[test]
fn page_leaves_out_what_is_blank() {
    let body = "<title>  \n </title><meta name=description content=' '>";
    let page = parse_page(&address("https://x.com/"), body);
    assert_eq!(page.title, None);
    assert_eq!(page.description, None);
    assert!(page.links.is_empty());

    let bare = parse_page(&address("https://x.com/"), "<meta name=description>");
    assert_eq!(bare.title, None);
    assert_eq!(bare.description, None);
}

#[test]
fn page_skips_links_that_lead_nowhere() {
    let body = "<a href=''></a><a href='  '></a><a href='#top'></a>\
                <a href='javascript:void(0)'></a><a href='mailto:a@b.c'></a>\
                <a href='tel:1'></a><a href='ftp://x.com/'></a><a href='http://'></a>\
                <a href=' d '></a>";
    let page = parse_page(&address("https://x.com/"), body);
    assert_eq!(links(&page), vec!["https://x.com/d".to_string()]);
}

#[test]
fn page_follows_links_that_only_look_alike() {
    let base = address("https://x.com/");
    let link = |href: &str| {
        let element = Element {
            text: String::new(),
            attribute: Some(href.to_string()),
        };
        follow_link(&base, &element).map(|u| u.text())
    };
    assert_eq!(link("telephone"), Some("https://x.com/telephone".to_string()));
    assert_eq!(link("x#y"), Some("https://x.com/x".to_string()));
    assert_eq!(link("?q#y"), Some("https://x.com/?q".to_string()));
    assert_eq!(link("//y.com/z"), Some("https://y.com/z".to_string()));
    // A scheme in capital letters is no web address either.
    assert_eq!(link("JavaScript:x"), None);
}

#[test]
fn page_link_targets_are_trimmed() {
    assert_eq!(link_target(" \u{a0}a b\t"), Some("a b".to_string()));
    assert_eq!(link_target(" # "), None);
    assert_eq!(link_target("tel:"), None);
    assert_eq!(trim_to_nonempty(" \u{3000} "), None);
    assert_eq!(trim_to_nonempty(" x "), Some("x".to_string()));
}

#[test]
fn page_keeps_web_addresses_without_fragment() {
    let kept = keep_link(Some(address("https://x.com/a?b#c"))).map(|u| u.text());
    assert_eq!(kept, Some("https://x.com/a?b".to_string()));
    assert!(keep_link(Some(address("ftp://x.com/"))).is_none());
    assert!(keep_link(None).is_none());
}

#[test]
fn page_is_read_off_its_elements() {
    let element = |text: &str, attribute: Option<&str>| Element {
        text: text.to_string(),
        attribute: attribute.map(|s| s.to_string()),
    };
    let page = read_elements(
        &address("https://x.com/"),
        &vec![element(" t ", None), element("u", None)],
        &vec![element("", Some(" d "))],
        &vec![element("", Some("a")), element("", None), element("", Some("#"))],
    );
    assert_eq!(page.title, Some("t".to_string()));
    assert_eq!(page.description, Some("d".to_string()));
    assert_eq!(links(&page), vec!["https://x.com/a".to_string()]);
}

#[test]
fn page_attributes_grow_at_most_threefold() {
    let page = parse_page(&address("https://x.com/"), "<a href='\0'>a</a><a href='&acE;'>b</a>");
    assert_eq!(
        links(&page),
        vec![
            "https://x.com/%EF%BF%BD".to_string(),
            "https://x.com/%E2%88%BE%CC%B3".to_string()
        ]
    );
}
