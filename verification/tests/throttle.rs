use web_crawler::directive::Delay;
use web_crawler::robots::Robots;
use web_crawler::throttle::Throttle;
use web_crawler::web_url::Address;

fn address(s: &str) -> Address {
    match Address::parse(s) {
        Ok(url) => url,
        Err(reason) => panic!("{s}: {reason}"),
    }
}

fn asking(seconds: &str) -> Robots {
    Robots::parse(&format!("User-agent: *\nCrawl-delay: {seconds}\n"), "Bot")
}

const SECOND: u64 = 1_000_000_000;

#[test]
fn throttle_spaces_requests_to_one_site() {
    let mut pace = Throttle::new();
    let site = address("https://x.com/a");
    let robots = asking("2");
    assert_eq!(pace.throttle(&site, &robots, 10), Some(10));
    assert_eq!(pace.throttle(&address("https://x.com/b"), &robots, 20), Some(10 + 2 * SECOND));
    assert_eq!(pace.throttle(&site, &robots, 30), Some(10 + 4 * SECOND));
    // Later than the delay asks for: at once.
    assert_eq!(pace.throttle(&site, &robots, 100 * SECOND), Some(100 * SECOND));
}

#[test]
fn throttle_keeps_sites_apart() {
    let mut pace = Throttle::new();
    let robots = asking("60");
    assert_eq!(pace.throttle(&address("https://x.com/"), &robots, 0), Some(0));
    assert_eq!(pace.throttle(&address("http://x.com/"), &robots, 1), Some(1));
    assert_eq!(pace.throttle(&address("https://x.com:81/"), &robots, 2), Some(2));
    assert_eq!(pace.throttle(&address("https://x.com:443/"), &robots, 3), Some(60 * SECOND));
}

#[test]
fn throttle_waits_only_where_a_site_asks() {
    let mut pace = Throttle::new();
    assert_eq!(pace.throttle(&address("https://x.com/"), &Robots::default(), 5), None);
    assert_eq!(pace.next_slot("https://x.com", 7), 7);
}

#[test]
fn throttle_reserves_slots() {
    let mut pace = Throttle::new();
    let delay = Delay::from_millis(1);
    assert_eq!(pace.reserve("a".to_string(), 0, delay), 0);
    assert_eq!(pace.next_slot("a", 0), 1_000_000);
    assert_eq!(pace.next_slot("a", 1_000_000), 1_000_000);
    assert_eq!(pace.next_slot("a", 2_000_000), 2_000_000);
    assert_eq!(pace.next_slot("b", 0), 0);
}
