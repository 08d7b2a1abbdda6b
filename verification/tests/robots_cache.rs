use web_crawler::directive::Delay;
use web_crawler::robots_cache::{interpret, RobotsCache, RobotsReply};
use web_crawler::web_url::Address;

fn address(s: &str) -> Address {
    match Address::parse(s) {
        Ok(url) => url,
        Err(reason) => panic!("{s}: {reason}"),
    }
}

fn reply(status: u16, body: &str) -> RobotsReply {
    RobotsReply::Reply(status, Some(body.to_string()))
}

const CLOSED: &str = "User-agent: *\nDisallow: /\nCrawl-delay: 1\n";

#[test]
fn cache_asks_each_site_once() {
    let mut cache = RobotsCache::new("Bot/1".to_string(), true);
    let site = address("https://x.com/a");
    assert!(cache.get(&site).is_none());
    cache.store(&site, &reply(200, CLOSED));
    let other = address("https://x.com:443/b?c");
    assert!(!cache.get(&other).unwrap().allowed(&other));
    assert_eq!(cache.get(&site).unwrap().crawl_delay, Some(Delay::from_millis(1000)));
    // What is known does not change.
    cache.store(&other, &RobotsReply::NoReply);
    assert!(!cache.get(&site).unwrap().allowed(&site));
}

#[test]
fn cache_keeps_sites_apart() {
    let mut cache = RobotsCache::new("Bot/1".to_string(), true);
    cache.store(&address("https://x.com/"), &reply(200, CLOSED));
    assert!(cache.get(&address("http://x.com/")).is_none());
    assert!(cache.get(&address("https://y.com/")).is_none());
}

#[test]
fn cache_that_ignores_robots_allows_everything() {
    let mut cache = RobotsCache::new("Bot/1".to_string(), false);
    let site = address("https://x.com/a");
    assert!(cache.get(&site).unwrap().allowed(&site));
    cache.store(&site, &reply(200, CLOSED));
    assert!(cache.get(&site).unwrap().allowed(&site));
}

#[test]
fn cache_takes_a_failing_robots_txt_as_allow_all() {
    let site = address("https://x.com/a");
    let allows = |reply: RobotsReply| interpret(&reply, "Bot").allowed(&site);
    assert!(allows(RobotsReply::NoReply));
    assert!(allows(RobotsReply::Reply(200, None)));
    assert!(allows(reply(404, CLOSED)));
    assert!(allows(reply(500, CLOSED)));
    assert!(allows(reply(301, CLOSED)));
    assert!(!allows(reply(200, CLOSED)));
    assert!(!allows(reply(299, CLOSED)));
}

#[test]
fn cache_reads_for_its_user_agent() {
    let body = "User-agent: bot\nDisallow: /a\n";
    let site = address("https://x.com/a");
    let mut named = RobotsCache::new("Bot/1".to_string(), true);
    named.store(&site, &reply(200, body));
    assert!(!named.get(&site).unwrap().allowed(&site));
    let mut other = RobotsCache::new("Else/1".to_string(), true);
    other.store(&site, &reply(200, body));
    assert!(other.get(&site).unwrap().allowed(&site));
}
