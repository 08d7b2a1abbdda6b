use web_crawler::fetch::{
    is_html, AfterAttempt, FetchOnce, Fetched, Reply, Retries, Step, MAX_BODY_BYTES,
    MAX_REDIRECTS,
};
use web_crawler::robots::Robots;
use web_crawler::scope::Scope;
use web_crawler::throttle::Throttle;
use web_crawler::web_url::Address;

fn address(s: &str) -> Address {
    match Address::parse(s) {
        Ok(url) => url,
        Err(reason) => panic!("{s}: {reason}"),
    }
}

fn scope() -> Scope {
    Scope::of_seed(&address("https://x.com/"), true)
}

fn reply(status: u16, location: Option<&str>, content_type: Option<&str>) -> Reply {
    Reply {
        status,
        location: location.map(|s| s.to_string()),
        content_type: content_type.map(|s| s.to_string()),
    }
}

/// Takes the slot of the next request, where no delay is asked for.
fn pace(attempt: &mut FetchOnce) {
    let step = attempt.on_pace(&mut Throttle::new(), &Robots::default(), 0);
    assert!(matches!(step, Step::Request(None)));
}

/// An attempt whose first request was sent.
fn start() -> FetchOnce {
    let mut attempt = FetchOnce::new(&address("https://x.com/a"));
    pace(&mut attempt);
    attempt
}

fn done(step: Step) -> Fetched {
    match step {
        Step::Done(fetched) => fetched,
        _ => panic!("not done"),
    }
}

#[test]
fn fetch_reads_an_html_page() {
    let mut attempt = start();
    assert_eq!(attempt.address().text(), "https://x.com/a");
    let step = attempt.on_reply(&scope(), &reply(200, None, Some("Text/HTML; charset=utf-8")));
    assert!(matches!(step, Step::Read));
    assert!(matches!(attempt.on_chunk(b"<ti"), Step::Read));
    assert!(matches!(attempt.on_chunk(b"tle>"), Step::Read));
    let fetched = done(attempt.on_end());
    assert_eq!(fetched.status, 200);
    assert_eq!(fetched.url.text(), "https://x.com/a");
    assert_eq!(fetched.body, Some("<title>".to_string()));
}

#[test]
fn fetch_decodes_lossily() {
    let mut attempt = start();
    attempt.on_reply(&scope(), &reply(200, None, None));
    attempt.on_chunk(b"\xc3");
    attempt.on_chunk(b"\xa9\xff!");
    let fetched = done(attempt.on_end());
    assert_eq!(fetched.body, Some("\u{e9}\u{fffd}!".to_string()));
}

#[test]
fn fetch_reads_only_html() {
    assert!(is_html(&None));
    assert!(is_html(&Some("application/XHTML+xml".to_string())));
    assert!(!is_html(&Some("application/json".to_string())));
    assert!(!is_html(&Some(String::new())));
    let fetched = done(start().on_reply(&scope(), &reply(200, None, Some("image/png"))));
    assert_eq!(fetched.status, 200);
    assert_eq!(fetched.body, None);
}

#[test]
fn fetch_caps_the_body() {
    let mut attempt = start();
    attempt.on_reply(&scope(), &reply(200, None, None));
    assert!(matches!(attempt.on_chunk(&vec![b'a'; MAX_BODY_BYTES - 1]), Step::Read));
    let body = done(attempt.on_chunk(b"bcd")).body.unwrap();
    assert_eq!(body.len(), 2 * 1024 * 1024);
    assert!(body.ends_with("aab"));

    let mut exact = start();
    exact.on_reply(&scope(), &reply(200, None, None));
    let whole = done(exact.on_chunk(&vec![b'a'; MAX_BODY_BYTES])).body.unwrap();
    assert_eq!(whole.len(), MAX_BODY_BYTES);
}

#[test]
fn fetch_retries_what_may_pass() {
    for status in [429, 500, 503, 599] {
        let step = start().on_reply(&scope(), &reply(status, None, None));
        assert!(matches!(step, Step::Retry(s) if s == status));
    }
    assert!(matches!(start().on_no_reply(), Step::Retry(0)));
    let mut reading = start();
    reading.on_reply(&scope(), &reply(206, None, None));
    assert!(matches!(reading.on_read_error(), Step::Retry(206)));
}

#[test]
fn fetch_does_not_retry_other_failures() {
    for status in [100, 199, 400, 404, 428, 499, 600] {
        let fetched = done(start().on_reply(&scope(), &reply(status, None, None)));
        assert_eq!(fetched.status, status);
        assert_eq!(fetched.body, None);
    }
}

#[test]
fn fetch_follows_permitted_redirects() {
    let mut attempt = start();
    let step = attempt.on_reply(&scope(), &reply(302, Some("/b#c"), None));
    assert!(matches!(step, Step::AskRobots));
    assert_eq!(attempt.next_hop().map(|u| u.text()), Some("https://x.com/b#c".to_string()));
    assert_eq!(attempt.address().text(), "https://x.com/a");
    assert!(matches!(attempt.on_robots(&Robots::default()), Step::Pace));
    pace(&mut attempt);
    assert_eq!(attempt.address().text(), "https://x.com/b#c");
    assert!(attempt.next_hop().is_none());
    assert!(matches!(attempt.on_reply(&scope(), &reply(200, None, None)), Step::Read));
    let fetched = done(attempt.on_end());
    assert_eq!(fetched.url.text(), "https://x.com/b#c");
    assert_eq!(fetched.body, Some(String::new()));
}

#[test]
fn fetch_stops_at_redirects_out_of_scope() {
    for location in [None, Some("https://y.com/"), Some("mailto:a@x.com"), Some("http://[")] {
        let fetched = done(start().on_reply(&scope(), &reply(301, location, None)));
        assert_eq!(fetched.status, 301);
        assert_eq!(fetched.url.text(), "https://x.com/a");
        assert_eq!(fetched.body, None);
    }
}

#[test]
fn fetch_stops_at_redirects_that_robots_forbid() {
    let mut attempt = start();
    attempt.on_reply(&scope(), &reply(307, Some("/private"), None));
    let robots = Robots::parse("User-agent: *\nDisallow: /private\n", "Bot");
    let fetched = done(attempt.on_robots(&robots));
    assert_eq!(fetched.status, 307);
    assert_eq!(fetched.url.text(), "https://x.com/a");
}

#[test]
fn fetch_follows_five_redirects() {
    let mut attempt = start();
    for hop in 1..=MAX_REDIRECTS {
        attempt.on_reply(&scope(), &reply(302, Some(&format!("/{hop}")), None));
        assert!(matches!(attempt.on_robots(&Robots::default()), Step::Pace));
        pace(&mut attempt);
    }
    attempt.on_reply(&scope(), &reply(303, Some("/last"), None));
    let fetched = done(attempt.on_robots(&Robots::default()));
    assert_eq!(fetched.status, 303);
    assert_eq!(fetched.url.text(), "https://x.com/last");
    assert_eq!(fetched.body, None);
}

#[test]
fn fetch_backs_off_exponentially() {
    let mut retries = Retries::new(9);
    let waits: Vec<Option<u64>> = (0..10).map(|_| retries.on_failure()).collect();
    assert_eq!(
        waits,
        vec![
            Some(500),
            Some(1000),
            Some(2000),
            Some(4000),
            Some(8000),
            Some(16000),
            Some(32000),
            Some(32000),
            Some(32000),
            None
        ]
    );
    assert_eq!(Retries::new(0).on_failure(), None);
}

#[test]
fn fetch_gives_up_with_the_last_status() {
    let start = address("https://x.com/a");
    let mut retries = Retries::new(1);
    assert!(matches!(retries.on_outcome(&start, Err(0)), AfterAttempt::Wait(500)));
    match retries.on_outcome(&start, Err(503)) {
        AfterAttempt::Done(fetched) => {
            assert_eq!(fetched.status, 503);
            assert_eq!(fetched.url.text(), "https://x.com/a");
            assert_eq!(fetched.body, None);
        }
        AfterAttempt::Wait(_) => panic!("no retry is left"),
    }
}

#[test]
fn fetch_takes_the_first_result() {
    let start = address("https://x.com/a");
    let mut retries = Retries::new(2);
    assert!(matches!(retries.on_outcome(&start, Err(429)), AfterAttempt::Wait(500)));
    assert!(matches!(retries.on_outcome(&start, Err(500)), AfterAttempt::Wait(1000)));
    let result = Fetched {
        status: 404,
        url: address("https://x.com/b"),
        body: None,
    };
    match retries.on_outcome(&start, Ok(result)) {
        AfterAttempt::Done(fetched) => {
            assert_eq!(fetched.status, 404);
            assert_eq!(fetched.url.text(), "https://x.com/b");
        }
        AfterAttempt::Wait(_) => panic!("the attempt had a result"),
    }
}

#[test]
fn fetch_paces_every_request() {
    let robots = Robots::parse("User-agent: *\nCrawl-delay: 2\n", "Bot");
    let mut pace = Throttle::new();
    let mut attempt = FetchOnce::new(&address("https://x.com/a"));
    let first = attempt.on_pace(&mut pace, &robots, 5);
    assert!(matches!(first, Step::Request(Some(5))));
    attempt.on_reply(&scope(), &reply(302, Some("/b"), None));
    assert!(matches!(attempt.on_robots(&robots), Step::Pace));
    let second = attempt.on_pace(&mut pace, &robots, 6);
    assert!(matches!(second, Step::Request(Some(2_000_000_005))));
    assert_eq!(pace.next_slot("https://x.com", 0), 4_000_000_005);
}
