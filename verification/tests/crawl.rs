use web_crawler::crawl::{read_page, Crawl, Task};
use web_crawler::fetch::Fetched;
use web_crawler::page::Page;
use web_crawler::robots::Robots;
use web_crawler::scope::Scope;
use web_crawler::web_url::Address;

fn address(s: &str) -> Address {
    match Address::parse(s) {
        Ok(url) => url,
        Err(reason) => panic!("{s}: {reason}"),
    }
}

fn crawl(max_pages: usize, max_depth: usize) -> Crawl {
    let seed = address("https://x.com/");
    let scope = Scope::of_seed(&seed, true);
    Crawl::new(&seed, max_pages, max_depth, scope)
}

fn task(s: &str, depth: usize) -> Task {
    Task { url: address(s), depth }
}

fn fetched(s: &str, body: Option<&str>) -> Fetched {
    Fetched {
        status: 200,
        url: address(s),
        body: body.map(|b| b.to_string()),
    }
}

fn urls(all: &[&str]) -> Vec<Address> {
    all.iter().map(|s| address(s)).collect()
}

fn texts(tasks: &[Task]) -> Vec<String> {
    tasks.iter().map(|t| t.url.text()).collect()
}

#[test]
fn crawl_page_limit_is_hard() {
    let mut c = crawl(2, 3);
    let robots = Robots::default();
    assert_eq!(c.begin(&task("https://x.com/", 0), &robots), Some(1));
    assert_eq!(c.begin(&task("https://x.com/a", 1), &robots), Some(2));
    assert_eq!(c.begin(&task("https://x.com/b", 1), &robots), None);
    assert_eq!(c.reserve_page(), None);
    assert_eq!(crawl(0, 3).reserve_page(), None);
}

#[test]
fn crawl_takes_on_only_allowed_pages() {
    let mut c = crawl(2, 3);
    let robots = Robots::parse("User-agent: *\nDisallow: /private\n", "Bot");
    assert_eq!(c.begin(&task("https://x.com/private", 1), &robots), None);
    assert_eq!(c.begin(&task("https://y.com/", 1), &robots), None);
    // Neither counted.
    assert_eq!(c.begin(&task("https://x.com/a", 1), &robots), Some(1));
    assert_eq!(c.begin(&task("https://x.com/b", 1), &robots), Some(2));
}

#[test]
fn crawl_queues_each_page_once() {
    let mut c = crawl(10, 3);
    let tasks = c.expand(
        0,
        &urls(&[
            "https://x.com/a",
            "https://x.com/a/",
            "https://x.com/#top",
            "https://x.com/b?y=1&x=2",
            "https://x.com/b?x=2&y=1",
        ]),
    );
    assert_eq!(
        texts(&tasks),
        vec!["https://x.com/a".to_string(), "https://x.com/b?y=1&x=2".to_string()]
    );
    assert_eq!(tasks[0].depth, 1);
    assert!(c.expand(1, &urls(&["https://x.com/a", "https://x.com/"])).is_empty());
    assert_eq!(texts(&c.expand(2, &urls(&["https://x.com/c"]))), vec!["https://x.com/c"]);
}

#[test]
fn crawl_stays_in_scope_and_depth() {
    let mut c = crawl(10, 2);
    let links = urls(&["https://y.com/", "ftp://x.com/", "http://x.com/a"]);
    assert!(c.expand(2, &links).is_empty());
    let tasks = c.expand(1, &links);
    assert_eq!(texts(&tasks), vec!["http://x.com/a".to_string()]);
    assert_eq!(tasks[0].depth, 2);
    assert!(crawl(10, 0).expand(0, &links).is_empty());
}

#[test]
fn crawl_that_is_full_queues_nothing() {
    let mut c = crawl(1, 3);
    assert_eq!(c.reserve_page(), Some(1));
    assert!(c.expand(0, &urls(&["https://x.com/a"])).is_empty());
    assert!(c.consider(0, &address("https://x.com/a")).is_none());
    assert_eq!(c.pending(), 1);
}

#[test]
fn crawl_remembers_where_requests_end() {
    let mut c = crawl(10, 3);
    c.landed(&task("https://x.com/", 0), &fetched("https://x.com/home/", None));
    assert!(c.consider(0, &address("https://x.com/home")).is_none());
    assert!(c.consider(0, &address("https://x.com/other")).is_some());
}

#[test]
fn crawl_closes_after_the_last_task() {
    let mut c = crawl(10, 3);
    assert_eq!(c.pending(), 1);
    assert_eq!(c.expand(0, &urls(&["https://x.com/a", "https://x.com/b"])).len(), 2);
    assert_eq!(c.pending(), 3);
    assert!(!c.finish());
    c.cancel();
    assert_eq!(c.pending(), 1);
    assert!(c.finish());
    assert_eq!(c.pending(), 0);
}

#[test]
fn crawl_completes_a_page() {
    let mut c = crawl(10, 3);
    let seed = task("https://x.com/", 0);
    let body = "<title>Home</title><meta name=description content=d><a href=a>a</a>";
    let result = fetched("https://x.com/sub/", Some(body));
    let page = read_page(&result);
    let (item, tasks) = c.complete(&seed, &result, page);
    assert_eq!(item.url, "https://x.com/");
    assert_eq!(item.title, Some("Home".to_string()));
    assert_eq!(item.description, Some("d".to_string()));
    assert_eq!(item.status, 200);
    assert_eq!(item.depth, 0);
    // Links are resolved against the URL where the request ended.
    assert_eq!(texts(&tasks), vec!["https://x.com/sub/a".to_string()]);
}

#[test]
fn crawl_writes_pages_that_were_not_read() {
    let mut c = crawl(10, 3);
    let result = Fetched {
        status: 0,
        url: address("https://x.com/a"),
        body: None,
    };
    let empty = read_page(&result);
    assert!(empty.title.is_none() && empty.links.is_empty());
    let page = Page {
        title: None,
        description: None,
        links: urls(&["https://x.com/b"]),
    };
    let (item, tasks) = c.complete(&task("https://x.com/a", 2), &result, page);
    assert_eq!(item.status, 0);
    assert_eq!(item.depth, 2);
    assert_eq!(item.title, None);
    assert_eq!(item.description, None);
    assert!(tasks.is_empty());
}

#[test]
fn crawl_by_one_worker_goes_breadth_first() {
    let mut c = crawl(100, 3);
    let mut queue = vec![task("https://x.com/", 0)];
    let mut at = 0;
    let mut written = 0;
    while at < queue.len() {
        let current = task(&queue[at].url.text(), queue[at].depth);
        if c.begin(&current, &Robots::default()).is_some() {
            let body = "<a href=a/>a</a><a href=b/>b</a><a href=/>home</a>";
            let result = fetched(&current.url.text(), Some(body));
            c.landed(&current, &result);
            let page = read_page(&result);
            let (_, tasks) = c.complete(&current, &result, page);
            queue.extend(tasks);
            written += 1;
        }
        let last = c.finish();
        at += 1;
        assert_eq!(last, at == queue.len());
    }
    // A binary tree of depth three.
    assert_eq!(queue.len(), 15);
    assert_eq!(written, 15);
    assert!(queue.windows(2).all(|w| w[0].depth <= w[1].depth));
    assert_eq!(queue[14].depth, 3);
}

#[test]
fn crawl_by_many_workers_writes_as_many_pages_as_it_takes_on() {
    let mut c = crawl(2, 3);
    let robots = Robots::default();
    let tasks = [
        task("https://x.com/", 0),
        task("https://x.com/a", 1),
        task("https://x.com/b", 1),
    ];
    // All begin before one is completed.
    let begun: Vec<bool> = tasks.iter().map(|t| c.begin(t, &robots).is_some()).collect();
    assert_eq!(begun, vec![true, true, false]);
    let mut items = Vec::new();
    for (t, taken_on) in tasks.iter().zip(begun) {
        if taken_on {
            let result = fetched(&t.url.text(), Some("<title>t</title>"));
            let page = read_page(&result);
            items.push(c.complete(t, &result, page).0);
        }
    }
    assert_eq!(items.len(), 2);
    assert_eq!(items[1].url, "https://x.com/a");
}
