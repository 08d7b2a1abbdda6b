//! The pace of requests to one site.
use crate::directive::Delay;
use crate::robots::{Robots, RobotsView};
use crate::web_url::{Address, UrlView};
use vstd::hash_map::StringHashMap;
use vstd::prelude::*;

verus! {

/// When the next request to each site may be sent. Times are nanoseconds from
/// a fixed point.
pub struct Throttle {
    next: StringHashMap<u64>,
}

impl View for Throttle {
    type V = Map<Seq<char>, int>;

    closed spec fn view(&self) -> Map<Seq<char>, int> {
        self.next@.map_values(|t: u64| t as int)
    }
}

/// When a request to `origin` may be sent that is asked for at `now`.
pub open spec fn slot(next: Map<Seq<char>, int>, origin: Seq<char>, now: int) -> int {
    if next.contains_key(origin) && next[origin] > now {
        next[origin]
    } else {
        now
    }
}

/// The times of the next requests after one to `origin` is asked for at `now`
/// and is to be followed by a delay.
pub open spec fn reserved(
    next: Map<Seq<char>, int>,
    origin: Seq<char>,
    now: int,
    delay: int,
) -> Map<Seq<char>, int> {
    next.insert(origin, slot(next, origin, now) + delay)
}

/// When a request to `origin` may be sent that is asked for at `now`, given what
/// the site asks: nothing where it asks for no delay.
pub open spec fn slot_for(
    next: Map<Seq<char>, int>,
    origin: Seq<char>,
    robots: RobotsView,
    now: int,
) -> Option<int> {
    match robots.crawl_delay {
        Some(delay) => Some(slot(next, origin, now)),
        None => None,
    }
}

/// The times of the next requests after one to `origin` is asked for at `now`,
/// given what the site asks.
pub open spec fn paced(
    next: Map<Seq<char>, int>,
    origin: Seq<char>,
    robots: RobotsView,
    now: int,
) -> Map<Seq<char>, int> {
    match robots.crawl_delay {
        Some(delay) => reserved(next, origin, now, delay.nanos as int),
        None => next,
    }
}

/// Whether a request to a URL can be given a slot: where the site asks for a
/// delay, the URL has an origin, and the slot after it is a time that can be
/// held.
pub open spec fn can_be_paced(
    next: Map<Seq<char>, int>,
    v: UrlView,
    robots: RobotsView,
    now: int,
) -> bool {
    robots.crawl_delay matches Some(delay) ==> {
        &&& v.has_origin()
        &&& slot(next, v.origin(), now) + delay.nanos <= u64::MAX
    }
}

/// A time that may be missing, over views.
pub open spec fn time_view(time: Option<u64>) -> Option<int> {
    match time {
        Some(t) => Some(t as int),
        None => None,
    }
}

impl Throttle {
    /// A pace without any request so far.
    pub fn new() -> (res: Throttle)
        ensures
            res@ == Map::<Seq<char>, int>::empty(),
    {
        let res = Throttle { next: StringHashMap::new() };
        assert(res@ =~= Map::<Seq<char>, int>::empty());
        res
    }

    /// When a request to `origin` may be sent that is asked for at `now`.
    pub fn next_slot(&self, origin: &str, now: u64) -> (res: u64)
        ensures
            res == slot(self@, origin@, now as int),
    {
        match self.next.get(origin) {
            Some(t) => if *t > now {
                *t
            } else {
                now
            },
            None => now,
        }
    }

    /// Reserves the time for a request to `origin`, so that the next one waits
    /// for the delay after it.
    pub fn reserve(&mut self, origin: String, now: u64, delay: Delay) -> (res: u64)
        requires
            slot(old(self)@, origin@, now as int) + delay.nanos <= u64::MAX,
        ensures
            res == slot(old(self)@, origin@, now as int),
            final(self)@ == reserved(old(self)@, origin@, now as int, delay.nanos as int),
    {
        let slot = self.next_slot(origin.as_str(), now);
        self.next.insert(origin, slot + delay.nanos);
        assert(self@ =~= reserved(old(self)@, origin@, now as int, delay.nanos as int));
        slot
    }

    /// When a request to a URL may be sent that is asked for at `now`: where
    /// the site asks for a delay, the time is reserved; where it does not, the
    /// request may be sent at once.
    pub fn throttle(&mut self, url: &Address, robots: &Robots, now: u64) -> (res: Option<u64>)
        requires
            can_be_paced(old(self)@, url@, robots@, now as int),
        ensures
            time_view(res) == slot_for(old(self)@, url@.origin(), robots@, now as int),
            final(self)@ == paced(old(self)@, url@.origin(), robots@, now as int),
    {
        match robots.crawl_delay {
            Some(delay) => Some(self.reserve(url.origin(), now, delay)),
            None => None,
        }
    }
}

/// A request that a site's pace was asked for.
pub struct Asked {
    pub origin: Seq<char>,
    pub now: int,
    pub delay: int,
}

/// The times of the next requests after a run of requests.
pub open spec fn after(next: Map<Seq<char>, int>, run: Seq<Asked>) -> Map<Seq<char>, int>
    decreases run.len(),
{
    if run.len() == 0 {
        next
    } else {
        reserved(after(next, run.drop_last()), run.last().origin, run.last().now, run.last().delay)
    }
}

/// When request `i` of a run is sent.
pub open spec fn slot_of(next: Map<Seq<char>, int>, run: Seq<Asked>, i: int) -> int {
    slot(after(next, run.take(i)), run[i].origin, run[i].now)
}

proof fn lemma_reserved_stays(next: Map<Seq<char>, int>, run: Seq<Asked>, i: int, j: int)
    requires
        0 <= i < j <= run.len(),
        forall|k: int| 0 <= k < run.len() ==> (#[trigger] run[k]).delay >= 0,
    ensures
        after(next, run.take(j)).contains_key(run[i].origin),
        after(next, run.take(j))[run[i].origin] >= slot_of(next, run, i) + run[i].delay,
    decreases j,
{
    assert(run.take(j).drop_last() =~= run.take(j - 1));
    assert(run.take(j).last() == run[j - 1]);
    if j > i + 1 {
        lemma_reserved_stays(next, run, i, j - 1);
    }
}

/// Requests to one site are at least the delay apart that the site asks for,
/// whatever other requests, to this site or others, are asked for in between.
pub proof fn law_requests_are_a_delay_apart(
    next: Map<Seq<char>, int>,
    run: Seq<Asked>,
    i: int,
    j: int,
)
    requires
        0 <= i < j < run.len(),
        forall|k: int| 0 <= k < run.len() ==> (#[trigger] run[k]).delay >= 0,
        run[i].origin == run[j].origin,
    ensures
        slot_of(next, run, j) >= slot_of(next, run, i) + run[i].delay,
{
    lemma_reserved_stays(next, run, i, j);
}

/// No request is sent before it is asked for, and the first to a site is sent
/// at once.
pub proof fn law_first_request_is_sent_at_once(
    next: Map<Seq<char>, int>,
    origin: Seq<char>,
    now: int,
)
    ensures
        slot(next, origin, now) >= now,
        !next.contains_key(origin) ==> slot(next, origin, now) == now,
{
}

/// A request to a site, and what the site asks.
pub struct PacedRequest {
    pub origin: Seq<char>,
    pub robots: RobotsView,
    pub now: int,
}

/// The pace after a run of requests.
pub open spec fn pace_after(next: Map<Seq<char>, int>, run: Seq<PacedRequest>) -> Map<
    Seq<char>,
    int,
>
    decreases run.len(),
{
    if run.len() == 0 {
        next
    } else {
        paced(
            pace_after(next, run.drop_last()),
            run.last().origin,
            run.last().robots,
            run.last().now,
        )
    }
}

/// The slot that request `i` of a run is given.
pub open spec fn slot_given(next: Map<Seq<char>, int>, run: Seq<PacedRequest>, i: int) -> Option<
    int,
> {
    slot_for(pace_after(next, run.take(i)), run[i].origin, run[i].robots, run[i].now)
}

/// Whoever asks in between, and whatever other sites ask: if a site asks for a
/// delay, each request to it is given a slot, and a later one at least the delay
/// after an earlier one.
pub proof fn law_slots_are_a_delay_apart(
    next: Map<Seq<char>, int>,
    run: Seq<PacedRequest>,
    i: int,
    j: int,
)
    requires
        0 <= i < j < run.len(),
        run[i].origin == run[j].origin,
        run[i].robots.crawl_delay is Some,
        run[j].robots.crawl_delay is Some,
    ensures
        slot_given(next, run, i) is Some,
        slot_given(next, run, j) is Some,
        slot_given(next, run, j)->0 >= slot_given(next, run, i)->0
            + run[i].robots.crawl_delay->0.nanos,
{
    lemma_slot_stays(next, run, i, j);
}

proof fn lemma_slot_stays(next: Map<Seq<char>, int>, run: Seq<PacedRequest>, i: int, j: int)
    requires
        0 <= i < j <= run.len(),
        run[i].robots.crawl_delay is Some,
    ensures
        pace_after(next, run.take(j)).contains_key(run[i].origin),
        pace_after(next, run.take(j))[run[i].origin] >= slot_given(next, run, i)->0
            + run[i].robots.crawl_delay->0.nanos,
        slot_given(next, run, i) is Some,
    decreases j,
{
    assert(run.take(j).drop_last() =~= run.take(j - 1));
    assert(run.take(j).last() == run[j - 1]);
    if j > i + 1 {
        lemma_slot_stays(next, run, i, j - 1);
    }
}

/// No request waits longer than it has to: its slot is the time at which it was
/// asked for, or a delay after that of an earlier request to the same site. A
/// site that asks for no delay is given no slot.
pub proof fn law_slots_are_the_earliest(run: Seq<PacedRequest>, j: int)
    requires
        0 <= j < run.len(),
    ensures
        ({
            let given = slot_given(Map::empty(), run, j);
            &&& given is Some <==> run[j].robots.crawl_delay is Some
            &&& given matches Some(t) ==> {
                &&& t >= run[j].now
                &&& t == run[j].now || exists|i: int|
                    {
                        &&& 0 <= i < j
                        &&& (#[trigger] run[i]).origin == run[j].origin
                        &&& run[i].robots.crawl_delay is Some
                        &&& t == slot_given(Map::empty(), run, i)->0
                            + run[i].robots.crawl_delay->0.nanos
                    }
            }
        }),
{
    lemma_slots_come_from_requests(run, j, run[j].origin);
}

proof fn lemma_slots_come_from_requests(run: Seq<PacedRequest>, j: int, origin: Seq<char>)
    requires
        0 <= j <= run.len(),
    ensures
        pace_after(Map::empty(), run.take(j)).contains_key(origin) ==> exists|i: int|
            {
                &&& 0 <= i < j
                &&& (#[trigger] run[i]).origin == origin
                &&& run[i].robots.crawl_delay is Some
                &&& pace_after(Map::empty(), run.take(j))[origin] == slot_given(
                    Map::empty(),
                    run,
                    i,
                )->0 + run[i].robots.crawl_delay->0.nanos
            },
    decreases j,
{
    if j > 0 {
        assert(run.take(j).drop_last() =~= run.take(j - 1));
        assert(run.take(j).last() == run[j - 1]);
        lemma_slots_come_from_requests(run, j - 1, origin);
        if run[j - 1].origin == origin && run[j - 1].robots.crawl_delay is Some {
            assert(run[j - 1].origin == origin);
        }
    }
}

/// The next slot is the later of now and the time that is kept for the site, and
/// taking it keeps the time a delay later for this site alone.
pub proof fn law_next_slot(
    next: Map<Seq<char>, int>,
    origin: Seq<char>,
    other: Seq<char>,
    now: int,
    delay: int,
)
    ensures
        slot(next, origin, now) >= now,
        next.contains_key(origin) ==> slot(next, origin, now) >= next[origin],
        slot(next, origin, now) == now || next.contains_key(origin) && slot(next, origin, now)
            == next[origin],
        reserved(next, origin, now, delay).contains_key(origin),
        reserved(next, origin, now, delay)[origin] == slot(next, origin, now) + delay,
        other != origin ==> (reserved(next, origin, now, delay).contains_key(other)
            <==> next.contains_key(other)),
        other != origin && next.contains_key(other) ==> reserved(next, origin, now, delay)[other]
            == next[other],
{
}

} // verus!
