use web_crawler::directive::Delay;
use web_crawler::robots::Robots;
use web_crawler::web_url::Address;

fn address(s: &str) -> Address {
    match Address::parse(s) {
        Ok(url) => url,
        Err(reason) => panic!("{s}: {reason}"),
    }
}

#[test]
fn robots_allow_overrides_disallow_by_length() {
    let body = "User-agent: *\nDisallow: /private\nAllow: /private/public\n";
    let robots = Robots::parse(body, "RustCrawler/0.1");
    assert!(!robots.allowed(&address("https://x.com/private/a")));
    assert!(robots.allowed(&address("https://x.com/private/public/a")));
    assert!(robots.allowed(&address("https://x.com/open")));
}

#[test]
fn robots_ignores_other_user_agents() {
    let body = "User-agent: Googlebot\nDisallow: /\n";
    let robots = Robots::parse(body, "RustCrawler/0.1");
    assert!(robots.allowed(&address("https://x.com/anything")));
}

#[test]
fn robots_parses_crawl_delay() {
    let body = "User-agent: *\nCrawl-delay: 1.5\n";
    let robots = Robots::parse(body, "RustCrawler/0.1");
    assert_eq!(robots.crawl_delay, Some(Delay::from_millis(1500)));
}

#[test]
fn robots_ignores_invalid_crawl_delay() {
    let body = "User-agent: *\nCrawl-delay: -3\n";
    let robots = Robots::parse(body, "RustCrawler/0.1");
    assert_eq!(robots.crawl_delay, None);
}

#[test]
fn robots_groups_consecutive_user_agents() {
    let body = "User-agent: *\nUser-agent: Googlebot\nDisallow: /x\n";
    let robots = Robots::parse(body, "RustCrawler/0.1");
    assert!(!robots.allowed(&address("https://x.com/x")));
}

#[test]
fn robots_specific_group_beats_wildcard() {
    let body = "User-agent: *\nDisallow: /\n\nUser-agent: RustCrawler\nAllow: /\n";
    let robots = Robots::parse(body, "RustCrawler/0.1");
    assert!(robots.allowed(&address("https://x.com/anything")));
}

#[test]
fn robots_supports_wildcards_and_end_anchor() {
    let body = "User-agent: *\nDisallow: /*.pdf$\nDisallow: /tmp*/cache\n";
    let robots = Robots::parse(body, "RustCrawler/0.1");
    assert!(!robots.allowed(&address("https://x.com/a/b.pdf")));
    assert!(robots.allowed(&address("https://x.com/a/b.pdf.html")));
    assert!(!robots.allowed(&address("https://x.com/tmp123/cache")));
    assert!(robots.allowed(&address("https://x.com/other/cache")));
}

fn allows(body: &str, agent: &str, path: &str) -> bool {
    Robots::parse(body, agent).allowed(&address(&format!("https://x.com{path}")))
}

#[test]
fn robots_allow_wins_ties() {
    assert!(allows("User-agent: *\nDisallow: /a\nAllow: /a\n", "Bot", "/a"));
    assert!(allows("User-agent: *\nAllow: /a\nDisallow: /a\n", "Bot", "/a"));
}

#[test]
fn robots_rule_order_does_not_matter() {
    let rules = ["Disallow: /a", "Allow: /a/b", "Disallow: /a/b/c"];
    let orders = [[0, 1, 2], [2, 1, 0], [1, 2, 0]];
    for order in orders {
        let body = format!(
            "User-agent: *\n{}\n{}\n{}",
            rules[order[0]], rules[order[1]], rules[order[2]]
        );
        assert!(!allows(&body, "Bot", "/a/x"));
        assert!(allows(&body, "Bot", "/a/b/x"));
        assert!(!allows(&body, "Bot", "/a/b/c"));
    }
}

#[test]
fn robots_counts_pattern_length_in_bytes() {
    // Two bytes for the accented letter, so the first rule is the longer one.
    let body = "User-agent: *\nDisallow: /*\u{e9}\nAllow: /*x\n";
    let robots = Robots::parse(body, "Bot");
    assert!(!robots.permits_target("/x\u{e9}"));
    assert!(robots.permits_target("/x"));
}

#[test]
fn robots_reads_loose_lines() {
    let body = "\u{feff}\r\n  USER-AGENT :  * # all\r\n\tDisAllow:/a#b\r\nno colon\r\nAllow:\r\n";
    assert!(!allows(body, "Bot", "/a"));
    assert!(allows(body, "Bot", "/b"));
}

#[test]
fn robots_ignores_rules_before_any_group() {
    assert!(allows("Disallow: /\nUser-agent: *\nAllow: /x\n", "Bot", "/a"));
}

#[test]
fn robots_other_lines_end_a_row_of_agents() {
    let body = "User-agent: a\nSitemap: x\nUser-agent: *\nDisallow: /\n";
    assert!(!allows(body, "Bot", "/"));
    assert!(allows(body, "A/1.0", "/"));
    // A line without a colon does not.
    let row = "User-agent: a\nnothing\nUser-agent: *\nDisallow: /\n";
    assert!(!allows(row, "A/1.0", "/"));
}

#[test]
fn robots_matches_the_product_token() {
    let body = "User-agent: crawl\nDisallow: /\n";
    assert!(!allows(body, "RustCrawler/0.1", "/"));
    assert!(allows(body, "Rust/crawl", "/"));
    assert!(allows("User-agent:\nDisallow: /\n", "Bot", "/"));
    // A star names any crawler even if the token holds one.
    assert!(!allows("User-agent: *\nDisallow: /\n", "a*b", "/"));
}

#[test]
fn robots_merges_groups() {
    let body = "User-agent: bot\nDisallow: /a\nCrawl-delay: 2\n\
                User-agent: x\nDisallow: /b\n\
                User-agent: bot\nDisallow: /c\n";
    let robots = Robots::parse(body, "Bot/1");
    assert_eq!(
        robots.rules,
        vec![(false, "/a".to_string()), (false, "/c".to_string())]
    );
    assert_eq!(robots.crawl_delay, Some(Delay::from_millis(2000)));
}

#[test]
fn robots_heeds_the_query() {
    let body = "User-agent: *\nDisallow: /*?s=\n";
    assert!(!allows(body, "Bot", "/find?s=1"));
    assert!(allows(body, "Bot", "/find?t=1"));
    assert!(allows(body, "Bot", "/find"));
}

#[test]
fn robots_reads_crawl_delays() {
    let delay = |value: &str| {
        Robots::parse(&format!("User-agent: *\nCrawl-delay: {value}\n"), "Bot").crawl_delay
    };
    assert_eq!(delay("0"), Some(Delay::from_millis(0)));
    assert_eq!(delay("60"), Some(Delay::from_millis(60_000)));
    assert_eq!(delay("3600"), Some(Delay::from_millis(60_000)));
    assert_eq!(delay("1e3"), Some(Delay::from_millis(60_000)));
    assert_eq!(delay(".25"), Some(Delay::from_millis(250)));
    assert_eq!(delay("soon"), None);
    assert_eq!(delay("NaN"), None);
    assert_eq!(delay("inf"), None);
    assert_eq!(delay(""), None);
}

#[test]
fn robots_last_delay_of_a_group_counts() {
    let body = "User-agent: *\nCrawl-delay: 5\nCrawl-delay: x\n";
    assert_eq!(Robots::parse(body, "Bot").crawl_delay, None);
}

#[test]
fn robots_without_rules_permit_everything() {
    let robots = Robots::default();
    assert!(robots.allowed(&address("https://x.com/a?b")));
    assert_eq!(robots.crawl_delay, None);
    assert!(allows("", "Bot", "/"));
    assert!(allows("User-agent: *\nDisallow:\n", "Bot", "/"));
}

#[test]
fn robots_comments_and_capital_letters_do_not_matter() {
    let plain = "user-agent: bot\ndisallow: /a\n";
    let fancy = "# head\nUSER-AGENT: Bot # us\nDISALLOW: /a # not this\n# tail\n";
    for body in [plain, fancy] {
        assert!(!allows(body, "BOT/2.0", "/a"));
        assert!(allows(body, "bot", "/A"));
    }
}
