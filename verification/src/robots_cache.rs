//! What each site asks, read once and remembered.
use crate::fetch::{is_success, status_is_success};
use crate::robots::{no_robots, robots_of, Robots, RobotsView};
use crate::web_url::{option_text, Address, UrlView};
use vstd::hash_map::StringHashMap;
use vstd::prelude::*;

verus! {

/// The outcome of asking a site for its `robots.txt`: no reply, or a status
/// and, if it could be read, the text.
pub enum RobotsReply {
    NoReply,
    Reply(u16, Option<String>),
}

/// The outcome of asking for a `robots.txt`, over views.
pub enum RobotsReplyView {
    NoReply,
    Reply(u16, Option<Seq<char>>),
}

impl View for RobotsReply {
    type V = RobotsReplyView;

    open spec fn view(&self) -> RobotsReplyView {
        match *self {
            RobotsReply::NoReply => RobotsReplyView::NoReply,
            RobotsReply::Reply(status, body) => RobotsReplyView::Reply(status, option_text(body)),
        }
    }
}

/// What a site asks, going by the outcome of asking for its `robots.txt`. One
/// that fails to load asks nothing.
pub open spec fn interpreted(reply: RobotsReplyView, user_agent: Seq<char>) -> RobotsView {
    match reply {
        RobotsReplyView::Reply(status, Some(body)) => if is_success(status) {
            robots_of(body, user_agent)
        } else {
            no_robots()
        },
        _ => no_robots(),
    }
}

/// Says what a site asks, going by the outcome of asking for its `robots.txt`.
pub fn interpret(reply: &RobotsReply, user_agent: &str) -> (res: Robots)
    ensures
        res@ == interpreted(reply@, user_agent@),
{
    match reply {
        RobotsReply::Reply(status, Some(body)) => if status_is_success(*status) {
            Robots::parse(body.as_str(), user_agent)
        } else {
            Robots::default()
        },
        _ => Robots::default(),
    }
}

/// What each site asks of the crawler, by origin. If the crawler is not to
/// heed `robots.txt`, no site asks anything.
pub struct RobotsCache {
    user_agent: String,
    enabled: bool,
    nothing: Robots,
    cells: StringHashMap<Robots>,
}

/// The cache over views: the sites that were asked, by origin, and what they
/// ask.
#[verifier::ext_equal]
pub struct CacheView {
    pub user_agent: Seq<char>,
    pub enabled: bool,
    pub cells: Map<Seq<char>, RobotsView>,
}

impl View for RobotsCache {
    type V = CacheView;

    closed spec fn view(&self) -> CacheView {
        CacheView {
            user_agent: self.user_agent@,
            enabled: self.enabled,
            cells: self.cells@.map_values(|r: Robots| r@),
        }
    }
}

impl CacheView {
    /// What is known of the site that a URL is on.
    pub open spec fn known(self, v: UrlView) -> Option<RobotsView> {
        if !self.enabled {
            Some(no_robots())
        } else if self.cells.contains_key(v.origin()) {
            Some(self.cells[v.origin()])
        } else {
            None
        }
    }

    /// The cache after the site that a URL is on was asked. Of a site that is
    /// known already nothing changes.
    pub open spec fn stored(self, v: UrlView, reply: RobotsReplyView) -> CacheView {
        if self.known(v) is Some {
            self
        } else {
            CacheView {
                cells: self.cells.insert(v.origin(), interpreted(reply, self.user_agent)),
                ..self
            }
        }
    }
}

impl RobotsCache {
    #[verifier::type_invariant]
    spec fn nothing_is_asked(self) -> bool {
        self.nothing@ == no_robots()
    }

    /// A cache that knows no site yet.
    pub fn new(user_agent: String, enabled: bool) -> (res: RobotsCache)
        ensures
            res@ == (CacheView { user_agent: user_agent@, enabled, cells: Map::empty() }),
    {
        let res = RobotsCache {
            user_agent,
            enabled,
            nothing: Robots::default(),
            cells: StringHashMap::new(),
        };
        assert(res@.cells =~= Map::empty());
        res
    }

    /// What is known of the site that a URL is on. Where nothing is known, the
    /// site is to be asked.
    pub fn get(&self, url: &Address) -> (res: Option<&Robots>)
        requires
            self@.enabled ==> url@.has_origin(),
        ensures
            match res {
                Some(robots) => self@.known(url@) == Some(robots@),
                None => self@.known(url@) is None,
            },
    {
        proof {
            use_type_invariant(self);
        }
        if !self.enabled {
            return Some(&self.nothing);
        }
        self.cells.get(url.origin().as_str())
    }

    /// Remembers what the site that a URL is on asks, going by the outcome of
    /// asking for its `robots.txt`.
    pub fn store(&mut self, url: &Address, reply: &RobotsReply)
        requires
            old(self)@.enabled ==> url@.has_origin(),
        ensures
            final(self)@ == old(self)@.stored(url@, reply@),
    {
        proof {
            use_type_invariant(&*self);
        }
        if self.get(url).is_some() {
            return;
        }
        let robots = interpret(reply, self.user_agent.as_str());
        let mut cells = StringHashMap::new();
        std::mem::swap(&mut cells, &mut self.cells);
        cells.insert(url.origin(), robots);
        self.cells = cells;
        assert(self@ =~= old(self)@.stored(url@, reply@));
    }
}

/// A site is asked once: what it asks is known from then on, for every URL on
/// it, and does not change.
pub proof fn law_sites_are_asked_once(
    cache: CacheView,
    first: UrlView,
    reply: RobotsReplyView,
    other: UrlView,
    later: RobotsReplyView,
)
    requires
        first.origin() == other.origin(),
    ensures
        cache.stored(first, reply).known(other) is Some,
        cache.stored(first, reply).stored(other, later) == cache.stored(first, reply),
        cache.known(first) is None ==> cache.stored(first, reply).known(other) == Some(
            interpreted(reply, cache.user_agent),
        ),
{
}

/// What one site asks does not touch another.
pub proof fn law_sites_do_not_mix(
    cache: CacheView,
    site: UrlView,
    reply: RobotsReplyView,
    other: UrlView,
)
    requires
        site.origin() != other.origin(),
    ensures
        cache.stored(site, reply).known(other) == cache.known(other),
{
}

/// A crawler that does not heed `robots.txt` never asks a site for it.
pub proof fn law_ignoring_robots_asks_nothing(cache: CacheView, v: UrlView)
    requires
        !cache.enabled,
    ensures
        cache.known(v) == Some(no_robots()),
{
}

/// A `robots.txt` counts if it was sent with a status from 200 to 299 and could
/// be read. Otherwise the site asks for nothing: no rule and no delay.
pub proof fn law_which_replies_count(
    status: u16,
    body: Seq<char>,
    user_agent: Seq<char>,
)
    ensures
        ({
            let told = interpreted(RobotsReplyView::Reply(status, Some(body)), user_agent);
            let unread = interpreted(RobotsReplyView::Reply(status, None), user_agent);
            let silent = interpreted(RobotsReplyView::NoReply, user_agent);
            &&& 200 <= status < 300 ==> told == robots_of(body, user_agent)
            &&& !(200 <= status < 300) ==> told.rules.len() == 0 && told.crawl_delay is None
            &&& unread.rules.len() == 0 && unread.crawl_delay is None
            &&& silent.rules.len() == 0 && silent.crawl_delay is None
        }),
{
}

/// Of a site that was not asked nothing is known, so that it has to be asked,
/// unless the crawler is not to heed `robots.txt`.
pub proof fn law_unknown_sites_have_to_be_asked(cache: CacheView, v: UrlView)
    ensures
        cache.enabled && !cache.cells.contains_key(v.origin()) ==> cache.known(v) is None,
        cache.enabled && cache.cells.contains_key(v.origin()) ==> cache.known(v) == Some(
            cache.cells[v.origin()],
        ),
        !cache.enabled ==> cache.known(v) is Some && cache.known(v)->0.rules.len() == 0
            && cache.known(v)->0.crawl_delay is None,
{
}

/// What is kept of an answer: that of a site which was not known, under its
/// origin, and nothing else changes; a crawler that does not heed `robots.txt`
/// keeps nothing.
pub proof fn law_what_is_kept(cache: CacheView, v: UrlView, reply: RobotsReplyView)
    ensures
        ({
            let kept = cache.stored(v, reply);
            let new = cache.enabled && !cache.cells.contains_key(v.origin());
            &&& kept.user_agent == cache.user_agent && kept.enabled == cache.enabled
            &&& new ==> kept.cells == cache.cells.insert(
                v.origin(),
                interpreted(reply, cache.user_agent),
            )
            &&& !new ==> kept.cells == cache.cells
        }),
{
}

} // verus!
