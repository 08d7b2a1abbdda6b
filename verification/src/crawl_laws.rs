//! What holds of every crawl, however its workers take turns.
use crate::crawl::{
    begin_step, complete_step, expand_step, finish_step, is_allowed, is_new, item_of, landed_step,
    page_in, reserve_step, CrawlView, ItemView, TaskView,
};
use crate::fetch::FetchedView;
use crate::normalize::normalized;
use crate::page::{parsed_page, PageView};
use crate::robots::{permits, target_of, RobotsView};
use crate::scope::{in_scope, ScopeView};
use crate::web_url::UrlView;
use vstd::multiset::Multiset;
use vstd::prelude::*;

verus! {

/// What a worker does to the state of a crawl.
pub enum CrawlEvent {
    Begin(TaskView, RobotsView),
    Landed(UrlView, UrlView),
    Complete(TaskView, FetchedView, PageView),
    Cancel,
    Finish,
}

/// The crawl after an event.
pub open spec fn crawl_step(c: CrawlView, e: CrawlEvent) -> CrawlView {
    match e {
        CrawlEvent::Begin(task, robots) => begin_step(c, task.url, robots).0,
        CrawlEvent::Landed(requested, reached) => landed_step(c, requested, reached),
        CrawlEvent::Complete(task, fetched, page) => complete_step(c, task, fetched, page).0,
        CrawlEvent::Cancel | CrawlEvent::Finish => finish_step(c).0,
    }
}

/// The tasks that an event queues.
pub open spec fn tasks_of(c: CrawlView, e: CrawlEvent) -> Seq<TaskView> {
    match e {
        CrawlEvent::Complete(task, fetched, page) => complete_step(c, task, fetched, page).1,
        _ => Seq::empty(),
    }
}

/// The crawl after a run of events.
pub open spec fn after(c: CrawlView, run: Seq<CrawlEvent>) -> CrawlView
    decreases run.len(),
{
    if run.len() == 0 {
        c
    } else {
        crawl_step(after(c, run.drop_last()), run.last())
    }
}

/// The tasks that were queued in a run of events, after `first`.
pub open spec fn queued(c: CrawlView, first: Seq<TaskView>, run: Seq<CrawlEvent>) -> Seq<TaskView>
    decreases run.len(),
{
    if run.len() == 0 {
        first
    } else {
        queued(c, first, run.drop_last()) + tasks_of(after(c, run.drop_last()), run.last())
    }
}

/// The tasks that were done with in a run of events.
pub open spec fn done(run: Seq<CrawlEvent>) -> nat
    decreases run.len(),
{
    if run.len() == 0 {
        0
    } else {
        done(run.drop_last()) + if run.last() is Cancel || run.last() is Finish {
            1nat
        } else {
            0
        }
    }
}

/// The tasks whose pages were taken on in a run of events and are not completed.
pub open spec fn in_hand(c: CrawlView, run: Seq<CrawlEvent>) -> Multiset<TaskView>
    decreases run.len(),
{
    if run.len() == 0 {
        Multiset::empty()
    } else {
        let before = in_hand(c, run.drop_last());
        match run.last() {
            CrawlEvent::Begin(task, robots) => if begin_step(
                after(c, run.drop_last()),
                task.url,
                robots,
            ).1 is Some {
                before.insert(task)
            } else {
                before
            },
            CrawlEvent::Complete(task, _, _) => before.remove(task),
            _ => before,
        }
    }
}

/// What was written in a run of events.
pub open spec fn written(run: Seq<CrawlEvent>) -> Seq<ItemView>
    decreases run.len(),
{
    if run.len() == 0 {
        Seq::empty()
    } else {
        let before = written(run.drop_last());
        match run.last() {
            CrawlEvent::Complete(task, fetched, page) => before.push(item_of(task, fetched, page)),
            _ => before,
        }
    }
}

/// Whether a task is left wherever one is done with, and a page was taken on
/// wherever one is completed.
pub open spec fn in_order(c: CrawlView, run: Seq<CrawlEvent>) -> bool
    decreases run.len(),
{
    run.len() == 0 || {
        &&& in_order(c, run.drop_last())
        &&& run.last() is Cancel || run.last() is Finish ==> after(c, run.drop_last()).pending > 0
        &&& run.last() matches CrawlEvent::Complete(task, _, _) ==> in_hand(
            c,
            run.drop_last(),
        ).contains(task)
    }
}

/// The tasks that were begun in a run of events with a page that may be
/// fetched.
pub open spec fn begun(scope: ScopeView, run: Seq<CrawlEvent>) -> nat
    decreases run.len(),
{
    if run.len() == 0 {
        0
    } else {
        begun(scope, run.drop_last()) + match run.last() {
            CrawlEvent::Begin(task, robots) => if is_allowed(scope, robots, task.url) {
                1nat
            } else {
                0
            },
            _ => 0,
        }
    }
}

/// A crawl at its beginning.
pub open spec fn seeded(seed: UrlView, max_pages: nat, max_depth: nat, scope: ScopeView) -> (
    CrawlView,
    Seq<TaskView>,
) {
    (
        CrawlView::start(seed, max_pages, max_depth, scope),
        seq![TaskView { url: seed, depth: 0 }],
    )
}

proof fn lemma_expand(c: CrawlView, depth: nat, children: Seq<UrlView>)
    requires
        c.valid(),
    ensures
        expand_step(c, depth, children).0.valid(),
        expand_step(c, depth, children).0 == (CrawlView {
            visited: expand_step(c, depth, children).0.visited,
            pending: c.pending + expand_step(c, depth, children).1.len(),
            ..c
        }),
        c.visited.subset_of(expand_step(c, depth, children).0.visited),
        c.full() ==> expand_step(c, depth, children).1.len() == 0,
        forall|i: int|
            0 <= i < expand_step(c, depth, children).1.len() ==> {
                let task = #[trigger] expand_step(c, depth, children).1[i];
                &&& task.depth == depth + 1
                &&& task.depth <= c.max_depth
                &&& in_scope(c.scope, task.url)
                &&& !c.visited.contains(normalized(task.url))
                &&& expand_step(c, depth, children).0.visited.contains(normalized(task.url))
            },
        forall|i: int, j: int|
            0 <= i < j < expand_step(c, depth, children).1.len() ==> normalized(
                (#[trigger] expand_step(c, depth, children).1[i]).url,
            ) != normalized((#[trigger] expand_step(c, depth, children).1[j]).url),
    decreases children.len(),
{
    if children.len() > 0 && depth < c.max_depth {
        lemma_expand(c, depth, children.drop_last());
    }
}

proof fn lemma_after_keeps(c: CrawlView, run: Seq<CrawlEvent>)
    requires
        c.valid(),
        in_order(c, run),
    ensures
        after(c, run).valid(),
        after(c, run) == (CrawlView {
            visited: after(c, run).visited,
            pending: after(c, run).pending,
            pages: after(c, run).pages,
            ..c
        }),
    decreases run.len(),
{
    if run.len() > 0 {
        let before = after(c, run.drop_last());
        lemma_after_keeps(c, run.drop_last());
        if let CrawlEvent::Complete(task, _, page) = run.last() {
            lemma_expand(before, task.depth, page.links);
        }
    }
}

/// A crawl stays valid: whatever its workers do, in whatever order.
pub proof fn law_crawl_stays_valid(
    seed: UrlView,
    max_pages: nat,
    max_depth: nat,
    scope: ScopeView,
    run: Seq<CrawlEvent>,
)
    requires
        in_order(CrawlView::start(seed, max_pages, max_depth, scope), run),
    ensures
        after(CrawlView::start(seed, max_pages, max_depth, scope), run).valid(),
{
    lemma_after_keeps(CrawlView::start(seed, max_pages, max_depth, scope), run);
}

/// The page limit is hard and exact: as many pages are taken on as there are
/// tasks begun whose pages may be fetched, until the limit is reached.
pub proof fn law_page_limit_is_exact(
    seed: UrlView,
    max_pages: nat,
    max_depth: nat,
    scope: ScopeView,
    run: Seq<CrawlEvent>,
)
    requires
        in_order(CrawlView::start(seed, max_pages, max_depth, scope), run),
    ensures
        after(CrawlView::start(seed, max_pages, max_depth, scope), run).pages == if begun(
            scope,
            run,
        ) <= max_pages {
            begun(scope, run)
        } else {
            max_pages
        },
    decreases run.len(),
{
    let c = CrawlView::start(seed, max_pages, max_depth, scope);
    if run.len() > 0 {
        law_page_limit_is_exact(seed, max_pages, max_depth, scope, run.drop_last());
        lemma_after_keeps(c, run.drop_last());
        if let CrawlEvent::Complete(task, _, page) = run.last() {
            lemma_expand(after(c, run.drop_last()), task.depth, page.links);
        }
    }
}

/// However many workers there are: each page that is written was taken on
/// before, no page is written twice for one slot, and so no more are written
/// than the page limit allows.
pub proof fn law_items_keep_to_the_page_limit(
    seed: UrlView,
    max_pages: nat,
    max_depth: nat,
    scope: ScopeView,
    run: Seq<CrawlEvent>,
)
    requires
        in_order(CrawlView::start(seed, max_pages, max_depth, scope), run),
    ensures
        ({
            let c = CrawlView::start(seed, max_pages, max_depth, scope);
            &&& written(run).len() + in_hand(c, run).len() == after(c, run).pages
            &&& written(run).len() <= after(c, run).pages
            &&& written(run).len() <= max_pages
        }),
    decreases run.len(),
{
    broadcast use vstd::multiset::group_multiset_axioms;

    let c = CrawlView::start(seed, max_pages, max_depth, scope);
    lemma_after_keeps(c, run);
    if run.len() > 0 {
        law_items_keep_to_the_page_limit(seed, max_pages, max_depth, scope, run.drop_last());
        lemma_after_keeps(c, run.drop_last());
        if let CrawlEvent::Complete(task, _, page) = run.last() {
            lemma_expand(after(c, run.drop_last()), task.depth, page.links);
        }
    }
}

/// What is known after the links of a page were looked at: a link becomes a
/// task only if it is new, and, below the limits, every link in scope is known
/// from then on, so that none is passed over.
pub proof fn law_new_links_become_tasks(c: CrawlView, depth: nat, children: Seq<UrlView>)
    requires
        c.valid(),
        depth < c.max_depth,
        !c.full(),
    ensures
        ({
            let (d, tasks) = expand_step(c, depth, children);
            &&& forall|i: int|
                0 <= i < children.len() && in_scope(c.scope, #[trigger] children[i])
                    ==> d.visited.contains(normalized(children[i]))
            &&& forall|key: Seq<char>| #[trigger]
                d.visited.contains(key) && !c.visited.contains(key) ==> exists|j: int|
                    0 <= j < tasks.len() && normalized((#[trigger] tasks[j]).url) == key
            &&& forall|j: int|
                0 <= j < tasks.len() ==> children.contains((#[trigger] tasks[j]).url)
                    && !c.visited.contains(normalized(tasks[j].url))
        }),
    decreases children.len(),
{
    lemma_expand(c, depth, children);
    if children.len() > 0 {
        let earlier = children.drop_last();
        let child = children.last();
        law_new_links_become_tasks(c, depth, earlier);
        lemma_expand(c, depth, earlier);
        let (b, before) = expand_step(c, depth, earlier);
        let (d, tasks) = expand_step(c, depth, children);
        assert forall|i: int|
            0 <= i < children.len() && in_scope(
                c.scope,
                #[trigger] children[i],
            ) implies d.visited.contains(normalized(children[i])) by {
            if i < earlier.len() {
                assert(earlier[i] == children[i]);
            }
        }
        assert forall|key: Seq<char>| #[trigger]
            d.visited.contains(key) && !c.visited.contains(key) implies exists|j: int|
            0 <= j < tasks.len() && normalized((#[trigger] tasks[j]).url) == key by {
            if b.visited.contains(key) {
                let j = choose|j: int|
                    0 <= j < before.len() && normalized((#[trigger] before[j]).url) == key;
                assert(tasks[j] == before[j]);
            } else {
                assert(normalized(tasks[before.len() as int].url) == key);
            }
        }
        assert forall|j: int| 0 <= j < tasks.len() implies children.contains(
            (#[trigger] tasks[j]).url,
        ) && !c.visited.contains(normalized(tasks[j].url)) by {
            if j < before.len() {
                assert(tasks[j] == before[j]);
                let k = choose|k: int| 0 <= k < earlier.len() && earlier[k] == before[j].url;
                assert(children[k] == before[j].url);
            } else {
                assert(children[children.len() - 1] == child);
            }
        }
    }
}

/// What a task leaves behind: itself done with, and as many tasks more as came
/// of its page.
pub proof fn law_task_leaves_its_links(
    c: CrawlView,
    task: TaskView,
    fetched: FetchedView,
    page: PageView,
)
    requires
        c.valid(),
        c.pending > 0,
    ensures
        ({
            let (d, tasks) = complete_step(c, task, fetched, page);
            finish_step(d).0.pending == c.pending + tasks.len() - 1
        }),
{
    lemma_expand(c, task.depth, page.links);
}

/// Once the page limit is reached, no more tasks are queued.
pub proof fn law_full_crawl_queues_nothing(c: CrawlView, depth: nat, children: Seq<UrlView>)
    requires
        c.valid(),
        c.full(),
    ensures
        expand_step(c, depth, children).1 == Seq::<TaskView>::empty(),
{
    lemma_expand(c, depth, children);
}

/// No page is queued twice: the tasks of a crawl have keys of their own.
pub proof fn law_no_page_is_queued_twice(
    seed: UrlView,
    max_pages: nat,
    max_depth: nat,
    scope: ScopeView,
    run: Seq<CrawlEvent>,
)
    requires
        in_order(CrawlView::start(seed, max_pages, max_depth, scope), run),
    ensures
        ({
            let (c, first) = seeded(seed, max_pages, max_depth, scope);
            let tasks = queued(c, first, run);
            &&& forall|i: int|
                0 <= i < tasks.len() ==> after(c, run).visited.contains(
                    normalized((#[trigger] tasks[i]).url),
                )
            &&& forall|i: int, j: int|
                0 <= i < j < tasks.len() ==> normalized((#[trigger] tasks[i]).url) != normalized(
                    (#[trigger] tasks[j]).url,
                )
        }),
    decreases run.len(),
{
    let (c, first) = seeded(seed, max_pages, max_depth, scope);
    if run.len() > 0 {
        law_no_page_is_queued_twice(seed, max_pages, max_depth, scope, run.drop_last());
        lemma_after_keeps(c, run.drop_last());
        if let CrawlEvent::Complete(task, _, page) = run.last() {
            lemma_expand(after(c, run.drop_last()), task.depth, page.links);
        }
    }
}

/// A page that a request was redirected to is not queued later.
pub proof fn law_landing_pages_are_not_queued(
    c: CrawlView,
    requested: UrlView,
    reached: UrlView,
    run: Seq<CrawlEvent>,
    child: UrlView,
)
    requires
        c.valid(),
        reached.text() != requested.text(),
        in_order(landed_step(c, requested, reached), run),
        normalized(child) == normalized(reached),
    ensures
        !is_new(after(landed_step(c, requested, reached), run), child),
    decreases run.len(),
{
    let d = landed_step(c, requested, reached);
    lemma_visited_grows(d, run);
}

proof fn lemma_visited_grows(c: CrawlView, run: Seq<CrawlEvent>)
    requires
        c.valid(),
        in_order(c, run),
    ensures
        c.visited.subset_of(after(c, run).visited),
    decreases run.len(),
{
    if run.len() > 0 {
        lemma_visited_grows(c, run.drop_last());
        lemma_after_keeps(c, run.drop_last());
        if let CrawlEvent::Complete(task, _, page) = run.last() {
            lemma_expand(after(c, run.drop_last()), task.depth, page.links);
        }
    }
}

/// Every task but the seed is in scope and within the depth limit, and has a
/// depth of at least one.
pub proof fn law_tasks_keep_to_scope_and_depth(
    seed: UrlView,
    max_pages: nat,
    max_depth: nat,
    scope: ScopeView,
    run: Seq<CrawlEvent>,
)
    requires
        in_order(CrawlView::start(seed, max_pages, max_depth, scope), run),
    ensures
        ({
            let (c, first) = seeded(seed, max_pages, max_depth, scope);
            let tasks = queued(c, first, run);
            &&& tasks.len() >= 1
            &&& tasks[0] == first[0]
            &&& forall|i: int|
                1 <= i < tasks.len() ==> {
                    &&& 1 <= (#[trigger] tasks[i]).depth <= max_depth
                    &&& in_scope(scope, tasks[i].url)
                }
        }),
    decreases run.len(),
{
    let (c, first) = seeded(seed, max_pages, max_depth, scope);
    if run.len() > 0 {
        law_tasks_keep_to_scope_and_depth(seed, max_pages, max_depth, scope, run.drop_last());
        lemma_after_keeps(c, run.drop_last());
        if let CrawlEvent::Complete(task, _, page) = run.last() {
            lemma_expand(after(c, run.drop_last()), task.depth, page.links);
        }
    }
}

/// The work that is left is counted exactly, so that the queue is closed when
/// the last task is done with, and not before.
pub proof fn law_queue_closes_after_the_last_task(
    seed: UrlView,
    max_pages: nat,
    max_depth: nat,
    scope: ScopeView,
    run: Seq<CrawlEvent>,
)
    requires
        in_order(CrawlView::start(seed, max_pages, max_depth, scope), run),
    ensures
        ({
            let (c, first) = seeded(seed, max_pages, max_depth, scope);
            let left = queued(c, first, run).len() - done(run);
            &&& after(c, run).pending == left
            &&& finish_step(after(c, run)).1 <==> left == 1
        }),
    decreases run.len(),
{
    let (c, first) = seeded(seed, max_pages, max_depth, scope);
    if run.len() > 0 {
        law_queue_closes_after_the_last_task(seed, max_pages, max_depth, scope, run.drop_last());
        lemma_after_keeps(c, run.drop_last());
        if let CrawlEvent::Complete(task, _, page) = run.last() {
            lemma_expand(after(c, run.drop_last()), task.depth, page.links);
        }
    }
}

/// What a worker learns on a task: what the site asks, what the fetch brought
/// back, and what was read in it.
pub struct VisitView {
    pub robots: RobotsView,
    pub fetched: FetchedView,
    pub page: PageView,
}

/// A crawl that one worker does: its state, all tasks in the order in which
/// they were queued, and what was written.
pub struct WorkView {
    pub crawl: CrawlView,
    pub queue: Seq<TaskView>,
    pub items: Seq<ItemView>,
}

/// The work after a task was taken from the queue and seen through.
pub open spec fn handled(w: WorkView, task: TaskView, visit: VisitView) -> WorkView {
    let (begun, slot) = begin_step(w.crawl, task.url, visit.robots);
    if slot is None {
        WorkView { crawl: finish_step(begun).0, ..w }
    } else {
        let landed = landed_step(begun, task.url, visit.fetched.url);
        let (completed, tasks) = complete_step(landed, task, visit.fetched, visit.page);
        WorkView {
            crawl: finish_step(completed).0,
            queue: w.queue + tasks,
            items: w.items.push(item_of(task, visit.fetched, visit.page)),
        }
    }
}

/// The work after the tasks in the queue were seen through in turn, one for
/// each visit, as far as there are tasks.
pub open spec fn worked(
    seed: UrlView,
    max_pages: nat,
    max_depth: nat,
    scope: ScopeView,
    visits: Seq<VisitView>,
) -> WorkView
    decreases visits.len(),
{
    if visits.len() == 0 {
        let (crawl, queue) = seeded(seed, max_pages, max_depth, scope);
        WorkView { crawl, queue, items: Seq::empty() }
    } else {
        let w = worked(seed, max_pages, max_depth, scope, visits.drop_last());
        let i = visits.len() - 1;
        if i < w.queue.len() {
            handled(w, w.queue[i], visits.last())
        } else {
            w
        }
    }
}

/// The tasks that are left to one worker.
pub open spec fn left(queue: Seq<TaskView>, visits: Seq<VisitView>) -> int {
    if visits.len() <= queue.len() {
        queue.len() - visits.len()
    } else {
        0
    }
}

/// One worker goes breadth-first: the depths of the tasks in its queue never
/// decrease, and no task is more than one level below the one that was seen
/// through last.
pub proof fn law_one_worker_goes_breadth_first(
    seed: UrlView,
    max_pages: nat,
    max_depth: nat,
    scope: ScopeView,
    visits: Seq<VisitView>,
)
    ensures
        ({
            let w = worked(seed, max_pages, max_depth, scope, visits);
            &&& forall|i: int, j: int|
                0 <= i <= j < w.queue.len() ==> (#[trigger] w.queue[i]).depth <= (
                #[trigger] w.queue[j]).depth
            &&& 0 < visits.len() <= w.queue.len() ==> forall|j: int|
                0 <= j < w.queue.len() ==> (#[trigger] w.queue[j]).depth <= w.queue[visits.len()
                    - 1].depth + 1
        }),
    decreases visits.len(),
{
    if visits.len() > 0 {
        let w = worked(seed, max_pages, max_depth, scope, visits.drop_last());
        let i = visits.len() - 1;
        law_one_worker_goes_breadth_first(
            seed,
            max_pages,
            max_depth,
            scope,
            visits.drop_last(),
        );
        lemma_worked(seed, max_pages, max_depth, scope, visits.drop_last());
        if i < w.queue.len() {
            lemma_handled(w, w.queue[i], visits.last());
            let after = worked(seed, max_pages, max_depth, scope, visits);
            assert(after.queue[i] == w.queue[i]);
        }
    }
}

proof fn lemma_handled(w: WorkView, task: TaskView, visit: VisitView)
    requires
        w.crawl.valid(),
        w.crawl.pending > 0,
    ensures
        ({
            let after = handled(w, task, visit);
            &&& after.crawl.valid()
            &&& after.crawl.max_pages == w.crawl.max_pages
            &&& after.queue.len() >= w.queue.len()
            &&& after.queue.take(w.queue.len() as int) == w.queue
            &&& forall|i: int|
                w.queue.len() <= i < after.queue.len() ==> (#[trigger] after.queue[i]).depth
                    == task.depth + 1
            &&& after.crawl.pending == w.crawl.pending - 1 + after.queue.len() - w.queue.len()
            &&& after.items.len() - w.items.len() == after.crawl.pages - w.crawl.pages
            &&& forall|i: int|
                0 <= i < w.queue.len() ==> #[trigger] after.queue[i] == w.queue[i]
        }),
{
    let (begun, slot) = begin_step(w.crawl, task.url, visit.robots);
    let landed = landed_step(begun, task.url, visit.fetched.url);
    lemma_expand(landed, task.depth, visit.page.links);
    assert(handled(w, task, visit).queue.take(w.queue.len() as int) =~= w.queue);
}

proof fn lemma_worked(
    seed: UrlView,
    max_pages: nat,
    max_depth: nat,
    scope: ScopeView,
    visits: Seq<VisitView>,
)
    ensures
        ({
            let w = worked(seed, max_pages, max_depth, scope, visits);
            &&& w.crawl.valid()
            &&& w.crawl.max_pages == max_pages
            &&& w.items.len() == w.crawl.pages
            &&& w.crawl.pending == left(w.queue, visits)
        }),
    decreases visits.len(),
{
    if visits.len() > 0 {
        let w = worked(seed, max_pages, max_depth, scope, visits.drop_last());
        lemma_worked(seed, max_pages, max_depth, scope, visits.drop_last());
        if visits.len() - 1 < w.queue.len() {
            lemma_handled(w, w.queue[visits.len() - 1], visits.last());
        }
    }
}

/// Every page that is written counts toward the page limit, no more are
/// written than it allows, and the work that is left is counted exactly.
pub proof fn law_every_page_written_counts(
    seed: UrlView,
    max_pages: nat,
    max_depth: nat,
    scope: ScopeView,
    visits: Seq<VisitView>,
)
    ensures
        ({
            let w = worked(seed, max_pages, max_depth, scope, visits);
            &&& w.items.len() == w.crawl.pages
            &&& w.items.len() <= max_pages
            &&& w.crawl.pending == left(w.queue, visits)
        }),
{
    lemma_worked(seed, max_pages, max_depth, scope, visits);
}

/// A page that the scope or `robots.txt` rules out is skipped: it is not
/// written, does not count toward the page limit, and leads nowhere.
pub proof fn law_blocked_pages_are_skipped(w: WorkView, task: TaskView, visit: VisitView)
    requires
        !is_allowed(w.crawl.scope, visit.robots, task.url),
    ensures
        handled(w, task, visit).items == w.items,
        handled(w, task, visit).queue == w.queue,
        handled(w, task, visit).crawl.pages == w.crawl.pages,
{
}

/// A page that was taken on is written under the URL that was requested, with
/// the status of its last reply; if it was not read, without title and
/// description.
pub proof fn law_pages_taken_on_are_written(
    w: WorkView,
    task: TaskView,
    robots: RobotsView,
    fetched: FetchedView,
)
    requires
        is_allowed(w.crawl.scope, robots, task.url),
        !w.crawl.full(),
    ensures
        ({
            let visit = VisitView { robots, fetched, page: page_in(fetched) };
            let items = handled(w, task, visit).items;
            &&& items.len() == w.items.len() + 1
            &&& items.drop_last() == w.items
            &&& items.last().url == task.url.text()
            &&& items.last().status == fetched.status
            &&& items.last().depth == task.depth
            &&& fetched.body is None ==> items.last().title is None && items.last().description
                is None
        }),
{
    let visit = VisitView { robots, fetched, page: page_in(fetched) };
    assert(handled(w, task, visit).items.drop_last() =~= w.items);
}

/// Completing a page that was read looks at its links one after the other,
/// whatever the task's URL: below the limits each link in scope that is not
/// known yet becomes a task one level deeper, and is known from then on, and
/// every other link changes nothing. A page that was not read, or that is at
/// one of the limits, leads nowhere.
pub proof fn law_completing_follows_each_link(
    c: CrawlView,
    task: TaskView,
    fetched: FetchedView,
    page: PageView,
    link: UrlView,
)
    ensures
        ({
            let more = PageView {
                title: page.title,
                description: page.description,
                links: page.links.push(link),
            };
            let (d, tasks) = complete_step(c, task, fetched, page);
            let (e, more_tasks) = complete_step(c, task, fetched, more);
            let follows = fetched.body is Some && task.depth < c.max_depth && c.pages
                < c.max_pages;
            let fresh = in_scope(c.scope, link) && !d.visited.contains(normalized(link));
            &&& follows && page.links.len() == 0 ==> d == c && tasks.len() == 0
            &&& follows && fresh ==> {
                &&& more_tasks == tasks + seq![TaskView { url: link, depth: task.depth + 1 }]
                &&& e.visited == d.visited.insert(normalized(link))
                &&& e.pending == d.pending + 1
            }
            &&& follows && !fresh ==> more_tasks == tasks && e == d
            &&& !follows ==> d == c && tasks.len() == 0
            &&& d.pages == c.pages && d.max_pages == c.max_pages && d.max_depth == c.max_depth
                && d.scope == c.scope
        }),
{
    let more = page.links.push(link);
    assert(more.drop_last() =~= page.links);
    assert(more.last() == link);
    lemma_expand_frame(c, task.depth, page.links);
    lemma_expand_frame(c, task.depth, more);
    let tasks = expand_step(c, task.depth, page.links).1;
    let new = TaskView { url: link, depth: task.depth + 1 };
    assert(tasks.push(new) =~= tasks + seq![new]);
}

proof fn lemma_expand_frame(c: CrawlView, depth: nat, children: Seq<UrlView>)
    ensures
        ({
            let (d, tasks) = expand_step(c, depth, children);
            &&& d.pages == c.pages && d.max_pages == c.max_pages && d.max_depth == c.max_depth
                && d.scope == c.scope
            &&& c.pages >= c.max_pages ==> d == c && tasks.len() == 0
        }),
    decreases children.len(),
{
    if children.len() > 0 && depth < c.max_depth {
        lemma_expand_frame(c, depth, children.drop_last());
    }
}

/// After a page was read and completed below the limits, every link of it in
/// scope is known, and each that was new is a task, one level deeper than the
/// page; no other task comes of it.
pub proof fn law_links_of_read_pages_are_known(
    c: CrawlView,
    task: TaskView,
    fetched: FetchedView,
    page: PageView,
)
    requires
        c.valid(),
        fetched.body is Some,
        task.depth < c.max_depth,
        c.pages < c.max_pages,
    ensures
        ({
            let (d, tasks) = complete_step(c, task, fetched, page);
            &&& forall|i: int|
                0 <= i < page.links.len() && in_scope(c.scope, #[trigger] page.links[i])
                    ==> d.visited.contains(normalized(page.links[i]))
            &&& forall|i: int|
                0 <= i < page.links.len() && in_scope(c.scope, #[trigger] page.links[i])
                    && !c.visited.contains(normalized(page.links[i])) ==> exists|j: int|
                    0 <= j < tasks.len() && normalized((#[trigger] tasks[j]).url) == normalized(
                        page.links[i],
                    )
            &&& forall|j: int|
                0 <= j < tasks.len() ==> {
                    &&& page.links.contains((#[trigger] tasks[j]).url)
                    &&& in_scope(c.scope, tasks[j].url)
                    &&& !c.visited.contains(normalized(tasks[j].url))
                    &&& tasks[j].depth == task.depth + 1
                }
        }),
{
    law_new_links_become_tasks(c, task.depth, page.links);
    lemma_expand(c, task.depth, page.links);
}

/// A page is taken on exactly if its URL is in scope, the rules of its site
/// permit it, and fewer pages than the limit were taken on; it is given the next
/// number. Otherwise nothing changes.
pub proof fn law_which_pages_are_taken_on(c: CrawlView, v: UrlView, robots: RobotsView)
    ensures
        ({
            let (d, number) = begin_step(c, v, robots);
            let taken_on = in_scope(c.scope, v) && permits(robots.rules, target_of(v)) && c.pages
                < c.max_pages;
            &&& taken_on ==> number == Some(c.pages + 1) && d == CrawlView {
                pages: c.pages + 1,
                ..c
            }
            &&& !taken_on ==> number is None && d == c
        }),
        ({
            let (d, number) = reserve_step(c);
            &&& c.pages < c.max_pages ==> number == Some(c.pages + 1) && d == CrawlView {
                pages: c.pages + 1,
                ..c
            }
            &&& c.pages >= c.max_pages ==> number is None && d == c
        }),
{
}

/// A crawl begins with its seed, known and as its only task. A request that ends
/// at another URL makes that one known, and a task that is done with is one
/// less; the last closes the queue.
pub proof fn law_what_a_crawl_keeps(
    seed: UrlView,
    max_pages: nat,
    max_depth: nat,
    scope: ScopeView,
    c: CrawlView,
    requested: UrlView,
    reached: UrlView,
    key: Seq<char>,
)
    ensures
        ({
            let s = CrawlView::start(seed, max_pages, max_depth, scope);
            &&& s.visited.contains(key) <==> key == normalized(seed)
            &&& s.pending == 1 && s.pages == 0
            &&& s.max_pages == max_pages && s.max_depth == max_depth && s.scope == scope
        }),
        ({
            let d = landed_step(c, requested, reached);
            &&& reached.text() != requested.text() ==> (d.visited.contains(key)
                <==> c.visited.contains(key) || key == normalized(reached))
            &&& reached.text() == requested.text() ==> d.visited == c.visited
            &&& d.pending == c.pending && d.pages == c.pages && d.max_pages == c.max_pages
                && d.max_depth == c.max_depth && d.scope == c.scope
        }),
        c.pending > 0 ==> {
            let (d, last) = finish_step(c);
            &&& d == CrawlView { pending: (c.pending - 1) as nat, ..c }
            &&& last <==> c.pending == 1
        },
{
}

/// What is written of a page is the URL that was asked for, the task's depth, the
/// status of the fetch, and the title and the description that were read. They
/// are read in the text that was brought back, at the URL that it came from.
pub proof fn law_what_is_written(
    task: TaskView,
    status: u16,
    url: UrlView,
    body: Option<Seq<char>>,
)
    ensures
        ({
            let fetched = FetchedView { status, url, body };
            let page = page_in(fetched);
            let item = item_of(task, fetched, page);
            &&& item.url == task.url.text() && item.depth == task.depth && item.status == status
            &&& body matches Some(text) ==> {
                &&& page == parsed_page(url, text)
                &&& item.title == parsed_page(url, text).title
                &&& item.description == parsed_page(url, text).description
            }
            &&& body is None ==> item.title is None && item.description is None
                && page.links.len() == 0
        }),
{
}

} // verus!
