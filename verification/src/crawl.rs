//! The state that the workers of a crawl share: which pages are known, how
//! many were fetched, and how much work is left.
use crate::fetch::{Fetched, FetchedView};
use crate::normalize::{has_key, normalize_url, normalized};
use crate::page::{parse_page, parsed_page, unread, url_views, Page, PageView, MAX_PAGE_BYTES};
use crate::robots::{permits, target_of, Robots, RobotsView};
use crate::scope::{host_ok, in_scope, Scope, ScopeView};
use crate::web_url::{option_text, Address, UrlView};
use vstd::hash_set::StringHashSet;
use vstd::prelude::*;
use vstd::utf8::encode_utf8;

verus! {

/// A page to fetch, and its distance from the seed.
pub struct Task {
    pub url: Address,
    pub depth: usize,
}

/// A task, over views.
#[verifier::ext_equal]
pub struct TaskView {
    pub url: UrlView,
    pub depth: nat,
}

impl View for Task {
    type V = TaskView;

    open spec fn view(&self) -> TaskView {
        TaskView { url: self.url@, depth: self.depth as nat }
    }
}

/// The tasks that a vector holds, over views.
pub open spec fn task_views(tasks: Seq<Task>) -> Seq<TaskView> {
    tasks.map_values(|t: Task| t@)
}

/// What is written about a page.
pub struct Item {
    pub url: String,
    pub title: Option<String>,
    pub description: Option<String>,
    pub status: u16,
    pub depth: usize,
}

/// What is written about a page, over views.
#[verifier::ext_equal]
pub struct ItemView {
    pub url: Seq<char>,
    pub title: Option<Seq<char>>,
    pub description: Option<Seq<char>>,
    pub status: u16,
    pub depth: nat,
}

impl View for Item {
    type V = ItemView;

    open spec fn view(&self) -> ItemView {
        ItemView {
            url: self.url@,
            title: option_text(self.title),
            description: option_text(self.description),
            status: self.status,
            depth: self.depth as nat,
        }
    }
}

/// What there is to read in what a fetch brought back.
pub open spec fn page_in(fetched: FetchedView) -> PageView {
    match fetched.body {
        Some(body) => parsed_page(fetched.url, body),
        None => unread(),
    }
}

/// What is written about the page of a task.
pub open spec fn item_of(task: TaskView, fetched: FetchedView, page: PageView) -> ItemView {
    ItemView {
        url: task.url.text(),
        title: page.title,
        description: page.description,
        status: fetched.status,
        depth: task.depth,
    }
}

/// Reads what a fetch brought back.
pub fn read_page(fetched: &Fetched) -> (page: Page)
    requires
        fetched@.body matches Some(body) ==> encode_utf8(body).len() <= MAX_PAGE_BYTES,
    ensures
        page@ == page_in(fetched@),
{
    match &fetched.body {
        Some(body) => parse_page(&fetched.url, body.as_str()),
        None => Page::empty(),
    }
}

/// The state of a crawl.
pub struct Crawl {
    max_pages: usize,
    max_depth: usize,
    scope: Scope,
    visited: StringHashSet,
    pending: usize,
    pages: usize,
}

/// The state of a crawl, over views: its limits, the keys of the pages that
/// are known, the tasks that are queued or being worked on, and the pages that
/// were taken on so far.
#[verifier::ext_equal]
pub struct CrawlView {
    pub max_pages: nat,
    pub max_depth: nat,
    pub scope: ScopeView,
    pub visited: Set<Seq<char>>,
    pub pending: nat,
    pub pages: nat,
}

impl View for Crawl {
    type V = CrawlView;

    closed spec fn view(&self) -> CrawlView {
        CrawlView {
            max_pages: self.max_pages as nat,
            max_depth: self.max_depth as nat,
            scope: self.scope@,
            visited: self.visited@,
            pending: self.pending as nat,
            pages: self.pages as nat,
        }
    }
}

impl CrawlView {
    /// A crawl at its beginning, with the seed as its only task.
    pub open spec fn start(
        seed: UrlView,
        max_pages: nat,
        max_depth: nat,
        scope: ScopeView,
    ) -> CrawlView {
        CrawlView {
            max_pages,
            max_depth,
            scope,
            visited: Set::empty().insert(normalized(seed)),
            pending: 1,
            pages: 0,
        }
    }

    /// What holds of every crawl: the page limit is kept, and each task that
    /// is left has a key of its own among the known pages.
    pub open spec fn valid(self) -> bool {
        &&& self.pages <= self.max_pages
        &&& self.visited.finite()
        &&& self.pending <= self.visited.len()
    }

    /// Whether no more pages may be taken on.
    pub open spec fn full(self) -> bool {
        self.pages >= self.max_pages
    }
}

/// Takes on a page, if the limit leaves room: the crawl after it, and the
/// number of the page.
pub open spec fn reserve_step(c: CrawlView) -> (CrawlView, Option<nat>) {
    if c.full() {
        (c, None)
    } else {
        (CrawlView { pages: c.pages + 1, ..c }, Some(c.pages + 1))
    }
}

/// Whether the crawl and the site's `robots.txt` let a URL be fetched.
pub open spec fn is_allowed(scope: ScopeView, robots: RobotsView, v: UrlView) -> bool {
    in_scope(scope, v) && permits(robots.rules, target_of(v))
}

/// Begins a task: a page that may be fetched is taken on.
pub open spec fn begin_step(c: CrawlView, v: UrlView, robots: RobotsView) -> (
    CrawlView,
    Option<nat>,
) {
    if is_allowed(c.scope, robots, v) {
        reserve_step(c)
    } else {
        (c, None)
    }
}

/// The crawl after a request ended at `reached`: if that is another URL, it is
/// known from then on.
pub open spec fn landed_step(c: CrawlView, requested: UrlView, reached: UrlView) -> CrawlView {
    if reached.text() == requested.text() {
        c
    } else {
        CrawlView { visited: c.visited.insert(normalized(reached)), ..c }
    }
}

/// Whether a link becomes a task: the page limit leaves room, the link is in
/// scope, and its page is not known yet.
pub open spec fn is_new(c: CrawlView, child: UrlView) -> bool {
    !c.full() && in_scope(c.scope, child) && !c.visited.contains(normalized(child))
}

/// The crawl after a link was looked at.
pub open spec fn consider_step(c: CrawlView, child: UrlView) -> CrawlView {
    if is_new(c, child) {
        CrawlView {
            visited: c.visited.insert(normalized(child)),
            pending: c.pending + 1,
            ..c
        }
    } else {
        c
    }
}

/// The crawl after the links of a page at `depth` were looked at in turn, and
/// the tasks that came of them.
pub open spec fn expand_step(c: CrawlView, depth: nat, children: Seq<UrlView>) -> (
    CrawlView,
    Seq<TaskView>,
)
    decreases children.len(),
{
    if children.len() == 0 || depth >= c.max_depth {
        (c, Seq::empty())
    } else {
        let (d, tasks) = expand_step(c, depth, children.drop_last());
        let child = children.last();
        (
            consider_step(d, child),
            if is_new(d, child) {
                tasks.push(TaskView { url: child, depth: depth + 1 })
            } else {
                tasks
            },
        )
    }
}

/// Whether the links on a page at `depth` have keys, as far as keys are made of
/// them.
pub open spec fn keyed(c: CrawlView, depth: nat, children: Seq<UrlView>) -> bool {
    depth < c.max_depth && !c.full() ==> forall|i: int|
        0 <= i < children.len() && in_scope(c.scope, #[trigger] children[i]) ==> has_key(
            children[i],
        )
}

/// The crawl after the page of a task was read, and the tasks that came of it.
/// Only a page that was read has links to follow.
pub open spec fn complete_step(
    c: CrawlView,
    task: TaskView,
    fetched: FetchedView,
    page: PageView,
) -> (CrawlView, Seq<TaskView>) {
    if fetched.body is Some {
        expand_step(c, task.depth, page.links)
    } else {
        (c, Seq::empty())
    }
}

/// The crawl after a task was done with, and whether it was the last.
pub open spec fn finish_step(c: CrawlView) -> (CrawlView, bool) {
    (CrawlView { pending: (c.pending - 1) as nat, ..c }, c.pending == 1)
}

impl Crawl {
    /// Begins a crawl, with the seed as its only task.
    pub fn new(seed: &Address, max_pages: usize, max_depth: usize, scope: Scope) -> (res: Crawl)
        requires
            has_key(seed@),
        ensures
            res@ == CrawlView::start(seed@, max_pages as nat, max_depth as nat, scope@),
            res@.valid(),
    {
        let mut visited = StringHashSet::new();
        visited.insert(normalize_url(seed.clone()));
        Crawl { max_pages, max_depth, scope, visited, pending: 1, pages: 0 }
    }

    /// The tasks that are queued or being worked on.
    pub fn pending(&self) -> (res: usize)
        ensures
            res == self@.pending,
    {
        self.pending
    }

    /// Takes on a page, if the limit leaves room, and gives its number. It is
    /// done before the fetch, so that the limit is a hard one.
    pub fn reserve_page(&mut self) -> (res: Option<usize>)
        requires
            old(self)@.valid(),
        ensures
            final(self)@ == reserve_step(old(self)@).0,
            match res {
                Some(count) => reserve_step(old(self)@).1 == Some(count as nat),
                None => reserve_step(old(self)@).1 is None,
            },
            final(self)@.valid(),
    {
        if self.pages < self.max_pages {
            self.pages = self.pages + 1;
            Some(self.pages)
        } else {
            None
        }
    }

    /// Begins a task, given what the page's site asks: a page that may be
    /// fetched is taken on, and its number given.
    pub fn begin(&mut self, task: &Task, robots: &Robots) -> (res: Option<usize>)
        requires
            old(self)@.valid(),
        ensures
            final(self)@ == begin_step(old(self)@, task@.url, robots@).0,
            match res {
                Some(count) => begin_step(old(self)@, task@.url, robots@).1 == Some(count as nat),
                None => begin_step(old(self)@, task@.url, robots@).1 is None,
            },
            final(self)@.valid(),
    {
        if url_allowed(&self.scope, robots, &task.url) {
            self.reserve_page()
        } else {
            None
        }
    }

    /// Notes where the request of a task ended, so that the page is not
    /// fetched again under that URL.
    pub fn landed(&mut self, task: &Task, fetched: &Fetched)
        requires
            old(self)@.valid(),
            fetched@.url.text() != task@.url.text() ==> has_key(fetched@.url),
        ensures
            final(self)@ == landed_step(old(self)@, task@.url, fetched@.url),
            final(self)@.valid(),
    {
        if !fetched.url.same(&task.url) {
            let key = normalize_url(fetched.url.clone());
            self.remember(key);
        }
    }

    /// Adds a key to the known pages, and says whether it is new.
    fn remember(&mut self, key: String) -> (res: bool)
        requires
            old(self)@.valid(),
        ensures
            final(self)@ == (CrawlView {
                visited: old(self)@.visited.insert(key@),
                ..old(self)@
            }),
            final(self)@.valid(),
            res == !old(self)@.visited.contains(key@),
    {
        self.visited.insert(key)
    }

    /// Makes a task of a link on a page at `depth`, if the limits and the scope
    /// allow it and its page is not known yet.
    pub fn consider(&mut self, depth: usize, child: &Address) -> (res: Option<Task>)
        requires
            old(self)@.valid(),
            depth < old(self)@.max_depth,
            !old(self)@.full() && in_scope(old(self)@.scope, child@) ==> has_key(child@),
        ensures
            final(self)@ == consider_step(old(self)@, child@),
            match res {
                Some(task) => is_new(old(self)@, child@) && task@ == (TaskView {
                    url: child@,
                    depth: depth as nat + 1,
                }),
                None => !is_new(old(self)@, child@),
            },
            final(self)@.valid(),
    {
        if self.pages >= self.max_pages || !host_ok(&self.scope, child) {
            return None;
        }
        if !self.remember(normalize_url(child.clone())) {
            assert(old(self)@.visited.insert(normalized(child@)) =~= old(self)@.visited);
            return None;
        }
        // The tasks that are left are no more than the known pages.
        let _known = self.visited.len();
        self.pending = self.pending + 1;
        Some(Task { url: child.clone(), depth: depth + 1 })
    }

    /// Makes tasks of the links on a page at `depth`, as far as the limits and
    /// the scope allow and their pages are not known yet.
    pub fn expand(&mut self, depth: usize, children: &Vec<Address>) -> (res: Vec<Task>)
        requires
            old(self)@.valid(),
            keyed(old(self)@, depth as nat, url_views(children@)),
        ensures
            final(self)@ == expand_step(old(self)@, depth as nat, url_views(children@)).0,
            task_views(res@) == expand_step(old(self)@, depth as nat, url_views(children@)).1,
            final(self)@.valid(),
    {
        proof {
            assert(task_views(Seq::empty()) =~= Seq::empty());
        }
        let ghost start = self@;
        let ghost links = url_views(children@);
        let mut tasks: Vec<Task> = Vec::new();
        if depth >= self.max_depth {
            return tasks;
        }
        proof {
            assert(links.take(0) =~= Seq::empty());
        }
        for i in 0..children.len()
            invariant
                depth < start.max_depth,
                links == url_views(children@),
                self@.max_depth == start.max_depth,
                self@.valid(),
                keyed(start, depth as nat, links),
                self@.scope == start.scope,
                self@.full() == start.full(),
                self@ == expand_step(start, depth as nat, links.take(i as int)).0,
                task_views(tasks@) == expand_step(start, depth as nat, links.take(i as int)).1,
        {
            proof {
                assert(links.take(i + 1).drop_last() =~= links.take(i as int));
                assert(links.take(i + 1).last() == children[i as int]@);
                assert(links[i as int] == children[i as int]@);
            }
            if let Some(task) = self.consider(depth, &children[i]) {
                proof {
                    assert(task_views(tasks@.push(task)) =~= task_views(tasks@).push(task@));
                }
                tasks.push(task);
            }
        }
        proof {
            assert(links.take(children@.len() as int) =~= links);
        }
        tasks
    }

    /// Completes the page of a task: what is written about it, and the tasks
    /// that come of its links.
    pub fn complete(&mut self, task: &Task, fetched: &Fetched, page: Page) -> (res: (
        Item,
        Vec<Task>,
    ))
        requires
            old(self)@.valid(),
            fetched@.body is Some ==> keyed(old(self)@, task@.depth, page@.links),
        ensures
            res.0@ == item_of(task@, fetched@, page@),
            final(self)@ == complete_step(old(self)@, task@, fetched@, page@).0,
            task_views(res.1@) == complete_step(old(self)@, task@, fetched@, page@).1,
            final(self)@.valid(),
    {
        let mut tasks: Vec<Task> = Vec::new();
        assert(task_views(tasks@) =~= Seq::empty());
        if fetched.body.is_some() {
            tasks = self.expand(task.depth, &page.links);
        }
        let item = Item {
            url: task.url.text(),
            title: page.title,
            description: page.description,
            status: fetched.status,
            depth: task.depth,
        };
        (item, tasks)
    }

    /// Takes back a task that could not be queued.
    pub fn cancel(&mut self)
        requires
            old(self)@.valid(),
            old(self)@.pending > 0,
        ensures
            final(self)@ == finish_step(old(self)@).0,
            final(self)@.valid(),
    {
        self.pending = self.pending - 1;
    }

    /// Notes that a task is done with, and says whether it was the last one,
    /// so that the queue is to be closed.
    pub fn finish(&mut self) -> (last: bool)
        requires
            old(self)@.valid(),
            old(self)@.pending > 0,
        ensures
            final(self)@ == finish_step(old(self)@).0,
            last == finish_step(old(self)@).1,
            final(self)@.valid(),
    {
        self.pending = self.pending - 1;
        self.pending == 0
    }
}

/// Whether the crawl and the site's `robots.txt` let a URL be fetched.
pub fn url_allowed(scope: &Scope, robots: &Robots, url: &Address) -> (res: bool)
    ensures
        res == is_allowed(scope@, robots@, url@),
{
    host_ok(scope, url) && robots.allowed(url)
}

} // verus!
