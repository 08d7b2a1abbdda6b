use web_crawler::crawl::url_allowed;
use web_crawler::robots::Robots;
use web_crawler::scope::{host_ok, same_ignoring_case, Scope};
use web_crawler::web_url::Address;

fn address(s: &str) -> Address {
    match Address::parse(s) {
        Ok(url) => url,
        Err(reason) => panic!("{s}: {reason}"),
    }
}

#[test]
fn scope_keeps_to_the_seeds_host() {
    let seed = address("https://x.com/a");
    let scope = Scope::of_seed(&seed, true);
    assert!(host_ok(&scope, &seed));
    assert!(host_ok(&scope, &address("http://X.COM:81/b")));
    assert!(!host_ok(&scope, &address("https://www.x.com/")));
    assert!(!host_ok(&scope, &address("ftp://x.com/")));
    assert!(!host_ok(&scope, &address("mailto:a@x.com")));
}

#[test]
fn scope_can_be_open() {
    let scope = Scope::of_seed(&address("https://x.com/"), false);
    assert!(host_ok(&scope, &address("https://x.com/")));
    assert!(host_ok(&scope, &address("http://y.com/")));
    assert!(!host_ok(&scope, &address("ftp://x.com/")));
}

#[test]
fn scope_without_a_seed_host_is_empty() {
    let scope = Scope {
        same_host_only: true,
        seed_host: None,
    };
    assert!(!host_ok(&scope, &address("https://x.com/")));
}

#[test]
fn scope_compares_hosts_up_to_capital_letters() {
    let scope = Scope {
        same_host_only: true,
        seed_host: Some("X.Com".to_string()),
    };
    assert!(host_ok(&scope, &address("https://x.com/")));
    assert!(same_ignoring_case("aZ-1", "Az-1"));
    assert!(!same_ignoring_case("\u{e9}", "\u{c9}"));
    assert!(!same_ignoring_case("a", "ab"));
}

#[test]
fn scope_and_robots_both_have_to_allow() {
    let scope = Scope::of_seed(&address("https://x.com/"), true);
    let robots = Robots::parse("User-agent: *\nDisallow: /a\n", "Bot");
    assert!(url_allowed(&scope, &robots, &address("https://x.com/b")));
    assert!(!url_allowed(&scope, &robots, &address("https://x.com/a")));
    assert!(!url_allowed(&scope, &robots, &address("https://y.com/b")));
}
