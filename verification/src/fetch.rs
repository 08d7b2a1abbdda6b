//! How a page is fetched: redirects, retries, and what is kept of a reply.
use crate::robots::{permits, target_of, Robots};
use crate::scope::{host_ok, in_scope, Scope, ScopeView};
use crate::text::{chars_of, contains, lowercase, lowered, occurs};
use crate::throttle::{can_be_paced, paced, slot_for, time_view, Throttle};
use crate::web_url::{joined, option_text, url_view, Address, UrlView, MAX_TEXT_BYTES};
use vstd::prelude::*;
use vstd::slice::slice_subrange;
use vstd::utf8::{decode_utf8, encode_utf8, valid_utf8};

verus! {

/// The redirects that are followed from one page.
pub const MAX_REDIRECTS: usize = 5;

/// The bytes that are read of one page: two mebibytes.
pub const MAX_BODY_BYTES: usize = 2_097_152;

/// What a fetch brought back: the last status, the URL that it came from, and
/// the text of the page, if it is one to read.
pub struct Fetched {
    pub status: u16,
    pub url: Address,
    pub body: Option<String>,
}

/// What a fetch brought back, over views.
#[verifier::ext_equal]
pub struct FetchedView {
    pub status: u16,
    pub url: UrlView,
    pub body: Option<Seq<char>>,
}

impl View for Fetched {
    type V = FetchedView;

    open spec fn view(&self) -> FetchedView {
        FetchedView { status: self.status, url: self.url@, body: option_text(self.body) }
    }
}

/// The head of a reply to a request.
pub struct Reply {
    pub status: u16,
    pub location: Option<String>,
    pub content_type: Option<String>,
}

/// The head of a reply, over views.
pub struct ReplyView {
    pub status: u16,
    pub location: Option<Seq<char>>,
    pub content_type: Option<Seq<char>>,
}

impl View for Reply {
    type V = ReplyView;

    open spec fn view(&self) -> ReplyView {
        ReplyView {
            status: self.status,
            location: option_text(self.location),
            content_type: option_text(self.content_type),
        }
    }
}

/// What there is to do next in a fetch attempt: ask for the pace that the site
/// sets, send a request, not before a given time if there is one, ask whether
/// the `robots.txt` of the next hop permits it, read on, or stop with a result
/// or with a failure that is worth a retry.
pub enum Step {
    Pace,
    Request(Option<u64>),
    AskRobots,
    Read,
    Done(Fetched),
    Retry(u16),
}

/// A step, over views.
pub enum StepView {
    Pace,
    Request(Option<int>),
    AskRobots,
    Read,
    Done(FetchedView),
    Retry(u16),
}

impl View for Step {
    type V = StepView;

    open spec fn view(&self) -> StepView {
        match *self {
            Step::Pace => StepView::Pace,
            Step::Request(time) => StepView::Request(time_view(time)),
            Step::AskRobots => StepView::AskRobots,
            Step::Read => StepView::Read,
            Step::Done(fetched) => StepView::Done(fetched@),
            Step::Retry(status) => StepView::Retry(status),
        }
    }
}

/// How far a fetch attempt is.
enum Phase {
    Pacing,
    Requesting,
    Asking(Address),
    Reading(Vec<u8>),
    Finished,
}

/// How far a fetch attempt is, over views.
pub enum PhaseView {
    Pacing,
    Requesting,
    Asking(UrlView),
    Reading(Seq<u8>),
    Finished,
}

/// One fetch attempt, following redirects by hand so that every hop can be
/// checked against the scope of the crawl and `robots.txt`.
pub struct FetchOnce {
    url: Address,
    status: u16,
    hops: usize,
    phase: Phase,
}

/// A fetch attempt, over views: the URL to request, the last status, the
/// redirects that were followed, and how far it is.
#[verifier::ext_equal]
pub struct FetchView {
    pub url: UrlView,
    pub status: u16,
    pub hops: nat,
    pub phase: PhaseView,
}

impl View for FetchOnce {
    type V = FetchView;

    closed spec fn view(&self) -> FetchView {
        FetchView {
            url: self.url@,
            status: self.status,
            hops: self.hops as nat,
            phase: match self.phase {
                Phase::Pacing => PhaseView::Pacing,
                Phase::Requesting => PhaseView::Requesting,
                Phase::Asking(next) => PhaseView::Asking(next@),
                Phase::Reading(buf) => PhaseView::Reading(buf@),
                Phase::Finished => PhaseView::Finished,
            },
        }
    }
}

/// The text that `String::from_utf8_lossy` reads in bytes.
pub uninterp spec fn lossy_text(bytes: Seq<u8>) -> Seq<char>;

/// `String::from_utf8_lossy`: gives [`lossy_text`], which is what the bytes
/// spell wherever they are UTF-8.
#[verifier::external_body]
fn from_utf8_lossy(bytes: &Vec<u8>) -> (res: String)
    ensures
        res@ == lossy_text(bytes@),
        valid_utf8(bytes@) ==> res@ == decode_utf8(bytes@),
{
    String::from_utf8_lossy(bytes).into_owned()
}

/// Whether a status says that the page is elsewhere.
pub open spec fn is_redirection(status: u16) -> bool {
    300 <= status < 400
}

/// Whether a status says that the server failed.
pub open spec fn is_server_error(status: u16) -> bool {
    500 <= status < 600
}

/// Whether a status says that the request succeeded.
pub open spec fn is_success(status: u16) -> bool {
    200 <= status < 300
}

/// Whether a status is worth a retry: too many requests, or a server error.
pub open spec fn is_retryable(status: u16) -> bool {
    status == 429 || is_server_error(status)
}

/// Whether a reply may be HTML: it says so, or it does not say what it is.
pub open spec fn may_be_html(content_type: Option<Seq<char>>) -> bool {
    match content_type {
        Some(ct) => occurs(lowered(ct), "html"@),
        None => true,
    }
}

/// Whether a redirect at one URL can lead to another.
pub open spec fn leads_to(from: UrlView, to: UrlView) -> bool {
    exists|location: Seq<char>| #[trigger] joined(from, location) == Some(to)
}

impl FetchView {
    /// The attempt at its beginning.
    pub open spec fn start(url: UrlView) -> FetchView {
        FetchView { url, status: 0, hops: 0, phase: PhaseView::Pacing }
    }

    /// What holds of every attempt on its way: the redirects that are left,
    /// the hop that is asked about, to which the page before it led, and the
    /// room for more of the page.
    pub open spec fn valid(self, scope: ScopeView) -> bool {
        match self.phase {
            PhaseView::Pacing | PhaseView::Requesting => self.hops <= MAX_REDIRECTS,
            PhaseView::Asking(next) => {
                &&& self.hops <= MAX_REDIRECTS
                &&& in_scope(scope, next)
                &&& leads_to(self.url, next)
            },
            PhaseView::Reading(buf) => self.hops <= MAX_REDIRECTS && buf.len() < MAX_BODY_BYTES,
            PhaseView::Finished => true,
        }
    }

    /// The attempt when it is over.
    pub open spec fn finished(self) -> FetchView {
        FetchView { phase: PhaseView::Finished, ..self }
    }

    /// A result without a page to read.
    pub open spec fn without_body(self) -> FetchedView {
        FetchedView { status: self.status, url: self.url, body: None }
    }
}

/// What follows a redirect to `next`: a hop into the scope of the crawl is
/// asked about, any other ends the attempt.
pub open spec fn redirect_step(
    scope: ScopeView,
    f: FetchView,
    next: Option<UrlView>,
) -> (FetchView, StepView) {
    if next matches Some(next) && in_scope(scope, next) {
        (FetchView { phase: PhaseView::Asking(next->0), ..f }, StepView::AskRobots)
    } else {
        (f.finished(), StepView::Done(f.without_body()))
    }
}

/// What follows a reply.
pub open spec fn reply_step(scope: ScopeView, f: FetchView, reply: ReplyView) -> (
    FetchView,
    StepView,
) {
    let g = FetchView { status: reply.status, ..f };
    if is_redirection(reply.status) {
        redirect_step(
            scope,
            g,
            match reply.location {
                Some(location) => joined(f.url, location),
                None => None,
            },
        )
    } else if is_retryable(reply.status) {
        (g.finished(), StepView::Retry(reply.status))
    } else if !is_success(reply.status) || !may_be_html(reply.content_type) {
        (g.finished(), StepView::Done(g.without_body()))
    } else {
        (FetchView { phase: PhaseView::Reading(Seq::empty()), ..g }, StepView::Read)
    }
}

/// Whether the place that a redirect gives is not too long to be resolved.
pub open spec fn location_fits(reply: ReplyView) -> bool {
    is_redirection(reply.status) ==> {
        reply.location matches Some(location) ==> encode_utf8(location).len() <= MAX_TEXT_BYTES
    }
}

/// What follows when the slot of a request is known.
pub open spec fn pace_step(f: FetchView, slot: Option<int>) -> (FetchView, StepView) {
    (FetchView { phase: PhaseView::Requesting, ..f }, StepView::Request(slot))
}

/// What follows the answer whether the hop that was asked about is permitted.
pub open spec fn verdict_step(f: FetchView, permitted: bool) -> (FetchView, StepView) {
    let next = f.phase->Asking_0;
    if !permitted {
        (f.finished(), StepView::Done(f.without_body()))
    } else {
        let g = FetchView { url: next, hops: f.hops + 1, ..f };
        if g.hops > MAX_REDIRECTS {
            (g.finished(), StepView::Done(g.without_body()))
        } else {
            (FetchView { phase: PhaseView::Pacing, ..g }, StepView::Pace)
        }
    }
}

/// A result with the page that was read.
pub open spec fn with_page(f: FetchView, bytes: Seq<u8>) -> FetchedView {
    FetchedView { status: f.status, url: f.url, body: Some(lossy_text(bytes)) }
}

/// What follows a chunk of the page: reading stops when the cap is reached.
pub open spec fn chunk_step(f: FetchView, chunk: Seq<u8>) -> (FetchView, StepView) {
    let buf = f.phase->Reading_0;
    let room = MAX_BODY_BYTES - buf.len();
    if chunk.len() >= room {
        (f.finished(), StepView::Done(with_page(f, buf + chunk.take(room))))
    } else {
        (FetchView { phase: PhaseView::Reading(buf + chunk), ..f }, StepView::Read)
    }
}

/// Whether a status says that the request succeeded.
pub fn status_is_success(status: u16) -> (res: bool)
    ensures
        res == is_success(status),
{
    200 <= status && status < 300
}

/// Whether a reply may be HTML.
pub fn is_html(content_type: &Option<String>) -> (res: bool)
    ensures
        res == may_be_html(option_text(*content_type)),
{
    match content_type {
        Some(ct) => contains(
            lowercase(chars_of(ct.as_str()).as_slice()).as_slice(),
            chars_of("html").as_slice(),
        ),
        None => true,
    }
}

impl FetchOnce {
    /// Begins an attempt; the first step is to ask for the pace.
    pub fn new(start: &Address) -> (res: FetchOnce)
        ensures
            res@ == FetchView::start(start@),
    {
        FetchOnce { url: start.clone(), status: 0, hops: 0, phase: Phase::Pacing }
    }

    /// The URL to request.
    pub fn address(&self) -> (res: &Address)
        ensures
            res@ == self@.url,
    {
        &self.url
    }

    /// The hop that is asked about.
    pub fn next_hop(&self) -> (res: Option<&Address>)
        ensures
            match res {
                Some(next) => self@.phase == PhaseView::Asking(next@),
                None => !(self@.phase is Asking),
            },
    {
        match &self.phase {
            Phase::Asking(next) => Some(next),
            _ => None,
        }
    }

    fn stop(&mut self) -> (res: Step)
        ensures
            final(self)@ == old(self)@.finished(),
            res@ == StepView::Done(old(self)@.without_body()),
    {
        self.phase = Phase::Finished;
        Step::Done(Fetched { status: self.status, url: self.url.clone(), body: None })
    }

    /// The `robots.txt` of the site to request from was read: takes the next
    /// slot of the site at the pace that it sets.
    pub fn on_pace(&mut self, pace: &mut Throttle, robots: &Robots, now: u64) -> (res: Step)
        requires
            old(self)@.phase is Pacing,
            can_be_paced(old(pace)@, old(self)@.url, robots@, now as int),
        ensures
            (final(self)@, res@) == pace_step(
                old(self)@,
                slot_for(old(pace)@, old(self)@.url.origin(), robots@, now as int),
            ),
            final(pace)@ == paced(old(pace)@, old(self)@.url.origin(), robots@, now as int),
    {
        self.phase = Phase::Requesting;
        Step::Request(pace.throttle(&self.url, robots, now))
    }

    /// The request got no reply: worth a retry, without a status.
    pub fn on_no_reply(&mut self) -> (res: Step)
        requires
            old(self)@.phase is Requesting,
        ensures
            final(self)@ == old(self)@.finished(),
            res@ == StepView::Retry(0),
    {
        self.phase = Phase::Finished;
        Step::Retry(0)
    }

    /// The reply redirects to `next`.
    pub fn on_redirect(&mut self, scope: &Scope, next: Option<Address>) -> (res: Step)
        requires
            old(self)@.phase is Requesting,
        ensures
            (final(self)@, res@) == redirect_step(scope@, old(self)@, url_view(next)),
    {
        match next {
            Some(next) => {
                if host_ok(scope, &next) {
                    self.phase = Phase::Asking(next);
                    Step::AskRobots
                } else {
                    self.stop()
                }
            },
            None => self.stop(),
        }
    }

    /// The request got a reply.
    pub fn on_reply(&mut self, scope: &Scope, reply: &Reply) -> (res: Step)
        requires
            old(self)@.phase is Requesting,
            location_fits(reply@),
        ensures
            (final(self)@, res@) == reply_step(scope@, old(self)@, reply@),
    {
        let status = reply.status;
        self.status = status;
        if 300 <= status && status < 400 {
            let next = match &reply.location {
                Some(location) => self.url.join(location.as_str()),
                None => None,
            };
            return self.on_redirect(scope, next);
        }
        if status == 429 || (500 <= status && status < 600) {
            self.phase = Phase::Finished;
            return Step::Retry(status);
        }
        if !status_is_success(status) || !is_html(&reply.content_type) {
            return self.stop();
        }
        self.phase = Phase::Reading(Vec::new());
        Step::Read
    }

    /// The `robots.txt` of the hop that is asked about was read.
    pub fn on_robots(&mut self, robots: &Robots) -> (res: Step)
        requires
            old(self)@.phase is Asking,
            old(self)@.hops <= MAX_REDIRECTS,
        ensures
            (final(self)@, res@) == verdict_step(
                old(self)@,
                permits(robots@.rules, target_of(old(self)@.phase->Asking_0)),
            ),
    {
        let next = match &self.phase {
            Phase::Asking(next) => next.clone(),
            _ => self.url.clone(),
        };
        if !robots.allowed(&next) {
            return self.stop();
        }
        self.url = next;
        self.hops = self.hops + 1;
        if self.hops > MAX_REDIRECTS {
            return self.stop();
        }
        self.phase = Phase::Pacing;
        Step::Pace
    }

    /// A chunk of the page arrived.
    pub fn on_chunk(&mut self, chunk: &[u8]) -> (res: Step)
        requires
            old(self)@.phase matches PhaseView::Reading(buf) && buf.len() < MAX_BODY_BYTES,
        ensures
            (final(self)@, res@) == chunk_step(old(self)@, chunk@),
    {
        let mut buf: Vec<u8> = Vec::new();
        let mut phase = Phase::Finished;
        std::mem::swap(&mut phase, &mut self.phase);
        match phase {
            Phase::Reading(read) => {
                buf = read;
            },
            _ => {},
        }
        let room = MAX_BODY_BYTES - buf.len();
        if chunk.len() >= room {
            let ghost before = buf@;
            buf.extend_from_slice(slice_subrange(chunk, 0, room));
            assert(buf@ =~= before + chunk@.take(room as int));
            Step::Done(
                Fetched {
                    status: self.status,
                    url: self.url.clone(),
                    body: Some(from_utf8_lossy(&buf)),
                },
            )
        } else {
            let ghost before = buf@;
            buf.extend_from_slice(chunk);
            assert(buf@ =~= before + chunk@);
            self.phase = Phase::Reading(buf);
            Step::Read
        }
    }

    /// The page is complete.
    pub fn on_end(&mut self) -> (res: Step)
        requires
            old(self)@.phase is Reading,
        ensures
            final(self)@ == old(self)@.finished(),
            res@ == StepView::Done(with_page(old(self)@, old(self)@.phase->Reading_0)),
    {
        let mut phase = Phase::Finished;
        std::mem::swap(&mut phase, &mut self.phase);
        let buf: Vec<u8> = match phase {
            Phase::Reading(read) => read,
            _ => Vec::new(),
        };
        Step::Done(
            Fetched {
                status: self.status,
                url: self.url.clone(),
                body: Some(from_utf8_lossy(&buf)),
            },
        )
    }

    /// Reading the page failed: worth a retry.
    pub fn on_read_error(&mut self) -> (res: Step)
        ensures
            final(self)@ == old(self)@.finished(),
            res@ == StepView::Retry(old(self)@.status),
    {
        self.phase = Phase::Finished;
        Step::Retry(self.status)
    }
}

/// The wait before the retry after a given attempt, in milliseconds: half a
/// second, doubled with each attempt, up to 32 seconds.
pub open spec fn backoff(attempt: nat) -> nat
    decreases attempt,
{
    if attempt == 0 {
        500
    } else if attempt <= 6 {
        2 * backoff((attempt - 1) as nat)
    } else {
        backoff(6)
    }
}

/// How often a fetch is tried.
pub struct Retries {
    attempt: usize,
    retries: usize,
}

/// The attempts that failed, and the retries that are granted.
#[verifier::ext_equal]
pub struct RetriesView {
    pub attempt: nat,
    pub retries: nat,
}

impl View for Retries {
    type V = RetriesView;

    closed spec fn view(&self) -> RetriesView {
        RetriesView { attempt: self.attempt as nat, retries: self.retries as nat }
    }
}

/// What follows the failure of an attempt: a wait before the next one, if a
/// retry is left.
pub open spec fn retry_step(r: RetriesView) -> (RetriesView, Option<nat>) {
    if r.attempt < r.retries {
        (RetriesView { attempt: r.attempt + 1, ..r }, Some(backoff(r.attempt)))
    } else {
        (r, None)
    }
}

impl Retries {
    /// Begins a fetch with so many retries.
    pub fn new(retries: usize) -> (res: Retries)
        ensures
            res@ == (RetriesView { attempt: 0, retries: retries as nat }),
    {
        Retries { attempt: 0, retries }
    }

    /// An attempt failed: gives the wait before the next one in milliseconds,
    /// or nothing if no retry is left.
    pub fn on_failure(&mut self) -> (res: Option<u64>)
        ensures
            final(self)@ == retry_step(old(self)@).0,
            match res {
                Some(millis) => retry_step(old(self)@).1 == Some(millis as nat),
                None => retry_step(old(self)@).1 is None,
            },
    {
        if self.attempt < self.retries {
            let n: usize = if self.attempt < 6 {
                self.attempt
            } else {
                6
            };
            let mut millis: u64 = 500;
            let mut i: usize = 0;
            while i < n
                invariant
                    i <= n <= 6,
                    millis == backoff(i as nat),
                decreases n - i,
            {
                proof {
                    law_backoff_doubles(i as nat);
                }
                millis = millis * 2;
                i += 1;
            }
            self.attempt = self.attempt + 1;
            Some(millis)
        } else {
            None
        }
    }
}

/// The result of a fetch whose last attempt failed: no page, at the URL where
/// the fetch began.
pub open spec fn failed_fetch(start: UrlView, status: u16) -> FetchedView {
    FetchedView { status, url: start, body: None }
}

/// What there is to do after an attempt: take the result of the fetch, or try
/// again after a wait, in milliseconds.
pub enum AfterAttempt {
    Done(Fetched),
    Wait(u64),
}

/// What there is to do after an attempt, over views.
pub enum AfterAttemptView {
    Done(FetchedView),
    Wait(nat),
}

impl View for AfterAttempt {
    type V = AfterAttemptView;

    open spec fn view(&self) -> AfterAttemptView {
        match *self {
            AfterAttempt::Done(fetched) => AfterAttemptView::Done(fetched@),
            AfterAttempt::Wait(millis) => AfterAttemptView::Wait(millis as nat),
        }
    }
}

/// The outcome of an attempt, over views: a result, or the status of a failure
/// that is worth a retry.
pub open spec fn outcome_view(outcome: Result<Fetched, u16>) -> Result<FetchedView, u16> {
    match outcome {
        Ok(fetched) => Ok(fetched@),
        Err(status) => Err(status),
    }
}

/// What follows an attempt of a fetch that began at `start`.
pub open spec fn attempt_step(
    start: UrlView,
    r: RetriesView,
    outcome: Result<FetchedView, u16>,
) -> (RetriesView, AfterAttemptView) {
    match outcome {
        Ok(fetched) => (r, AfterAttemptView::Done(fetched)),
        Err(status) => match retry_step(r).1 {
            Some(millis) => (retry_step(r).0, AfterAttemptView::Wait(millis)),
            None => (r, AfterAttemptView::Done(failed_fetch(start, status))),
        },
    }
}

impl Retries {
    /// An attempt of a fetch that began at `start` came to an outcome.
    pub fn on_outcome(&mut self, start: &Address, outcome: Result<Fetched, u16>) -> (res:
        AfterAttempt)
        ensures
            (final(self)@, res@) == attempt_step(start@, old(self)@, outcome_view(outcome)),
    {
        match outcome {
            Ok(fetched) => AfterAttempt::Done(fetched),
            Err(status) => match self.on_failure() {
                Some(millis) => AfterAttempt::Wait(millis),
                None => AfterAttempt::Done(Fetched { status, url: start.clone(), body: None }),
            },
        }
    }
}

/// The result of a fetch whose attempts come to these outcomes; nothing if it
/// takes more of them.
pub open spec fn fetch_result(
    start: UrlView,
    r: RetriesView,
    outcomes: Seq<Result<FetchedView, u16>>,
) -> Option<FetchedView>
    decreases outcomes.len(),
{
    if outcomes.len() == 0 {
        None
    } else {
        match attempt_step(start, r, outcomes[0]) {
            (_, AfterAttemptView::Done(fetched)) => Some(fetched),
            (next, AfterAttemptView::Wait(_)) => fetch_result(start, next, outcomes.drop_first()),
        }
    }
}

/// A fetch gives the first result that an attempt brings within its retries.
pub proof fn law_first_result_counts(
    start: UrlView,
    r: RetriesView,
    failures: Seq<u16>,
    fetched: FetchedView,
)
    requires
        r.attempt + failures.len() <= r.retries,
    ensures
        fetch_result(
            start,
            r,
            failures.map_values(|status: u16| Err::<FetchedView, u16>(status)).push(Ok(fetched)),
        ) == Some(fetched),
    decreases failures.len(),
{
    let fail = |status: u16| Err::<FetchedView, u16>(status);
    let outcomes = failures.map_values(fail).push(Ok(fetched));
    if failures.len() > 0 {
        assert(outcomes.drop_first() =~= failures.drop_first().map_values(fail).push(Ok(fetched)));
        assert(outcomes[0] == Err::<FetchedView, u16>(failures[0]));
        law_first_result_counts(start, retry_step(r).0, failures.drop_first(), fetched);
    }
}

/// A fetch that fails each time makes as many attempts as it has retries and
/// one more, and gives the status of the last, without a page.
pub proof fn law_last_failure_is_reported(start: UrlView, r: RetriesView, failures: Seq<u16>)
    requires
        failures.len() > 0,
        r.attempt <= r.retries,
    ensures
        r.attempt + failures.len() <= r.retries ==> fetch_result(
            start,
            r,
            failures.map_values(|status: u16| Err::<FetchedView, u16>(status)),
        ) is None,
        r.attempt + failures.len() == r.retries + 1 ==> fetch_result(
            start,
            r,
            failures.map_values(|status: u16| Err::<FetchedView, u16>(status)),
        ) == Some(failed_fetch(start, failures.last())),
    decreases failures.len(),
{
    let fail = |status: u16| Err::<FetchedView, u16>(status);
    let outcomes = failures.map_values(fail);
    assert(outcomes[0] == Err::<FetchedView, u16>(failures[0]));
    assert(outcomes.drop_first() =~= failures.drop_first().map_values(fail));
    if failures.len() > 1 && r.attempt < r.retries {
        law_last_failure_is_reported(start, retry_step(r).0, failures.drop_first());
    }
}

/// Each wait is twice the one before it, up to the longest.
pub proof fn law_backoff_doubles(attempt: nat)
    ensures
        attempt < 6 ==> backoff(attempt + 1) == 2 * backoff(attempt),
        attempt >= 6 ==> backoff(attempt) == 32_000,
        500 <= backoff(attempt) <= 32_000,
{
    reveal_with_fuel(backoff, 8);
}

/// A fetch that fails every time makes one attempt more than it has retries.
pub proof fn law_attempts_are_bounded(retries: nat, n: nat)
    requires
        n <= retries,
    ensures
        after_failures(retries, n) == (RetriesView { attempt: n, retries }),
        retry_step(after_failures(retries, n)).1 is Some <==> n < retries,
    decreases n,
{
    if n > 0 {
        law_attempts_are_bounded(retries, (n - 1) as nat);
    }
}

/// The attempts after `n` failures.
pub open spec fn after_failures(retries: nat, n: nat) -> RetriesView
    decreases n,
{
    if n == 0 {
        RetriesView { attempt: 0, retries }
    } else {
        retry_step(after_failures(retries, (n - 1) as nat)).0
    }
}

/// A reply is retried exactly if it is no redirect and its status is 429 or a
/// server error; any other client error ends the fetch without a page.
pub proof fn law_what_is_retried(scope: ScopeView, f: FetchView, reply: ReplyView)
    ensures
        reply_step(scope, f, reply).1 is Retry <==> reply.status == 429 || 500 <= reply.status
            < 600,
        400 <= reply.status < 500 && reply.status != 429 ==> reply_step(scope, f, reply).1
            == StepView::Done(
            FetchedView { status: reply.status, url: f.url, body: None },
        ),
{
}

/// A page that says that it is not HTML is not read.
pub proof fn law_only_html_is_read(scope: ScopeView, f: FetchView, reply: ReplyView)
    ensures
        reply_step(scope, f, reply).1 is Read <==> is_success(reply.status) && may_be_html(
            reply.content_type,
        ),
{
}

/// What can happen to a fetch attempt.
pub enum EventView {
    Slot(Option<int>),
    NoReply,
    Reply(ReplyView),
    Robots(Seq<(bool, Seq<char>)>),
    Chunk(Seq<u8>),
    End,
    ReadError,
}

/// Whether an event can happen in a phase.
pub open spec fn fits(f: FetchView, e: EventView) -> bool {
    match f.phase {
        PhaseView::Pacing => e is Slot,
        PhaseView::Requesting => e is NoReply || e is Reply,
        PhaseView::Asking(_) => e is Robots,
        PhaseView::Reading(_) => e is Chunk || e is End || e is ReadError,
        PhaseView::Finished => false,
    }
}

/// What follows an event.
pub open spec fn event_step(scope: ScopeView, f: FetchView, e: EventView) -> (FetchView, StepView) {
    match e {
        EventView::Slot(slot) => pace_step(f, slot),
        EventView::NoReply => (f.finished(), StepView::Retry(0)),
        EventView::Reply(reply) => reply_step(scope, f, reply),
        EventView::Robots(rules) => verdict_step(f, permits(rules, target_of(f.phase->Asking_0))),
        EventView::Chunk(chunk) => chunk_step(f, chunk),
        EventView::End => (f.finished(), StepView::Done(with_page(f, f.phase->Reading_0))),
        EventView::ReadError => (f.finished(), StepView::Retry(f.status)),
    }
}

/// An attempt stays valid.
pub proof fn law_attempt_stays_valid(scope: ScopeView, f: FetchView, e: EventView)
    requires
        f.valid(scope),
        fits(f, e),
    ensures
        event_step(scope, f, e).0.valid(scope),
{
}

/// Every hop that is taken lies in the scope of the crawl, the page before it
/// led to it, and the `robots.txt` that was read for it permits it.
pub proof fn law_every_hop_is_checked(scope: ScopeView, f: FetchView, e: EventView)
    requires
        f.valid(scope),
        fits(f, e),
        event_step(scope, f, e).1 is Pace,
    ensures
        in_scope(scope, event_step(scope, f, e).0.url),
        leads_to(f.url, event_step(scope, f, e).0.url),
        e matches EventView::Robots(rules) && permits(
            rules,
            target_of(event_step(scope, f, e).0.url),
        ),
{
}

/// A request is sent exactly when its slot is known, not before that slot, and
/// to the URL whose slot it is.
pub proof fn law_requests_wait_for_their_slots(scope: ScopeView, f: FetchView, e: EventView)
    requires
        fits(f, e),
    ensures
        event_step(scope, f, e).1 is Request <==> e is Slot,
        e matches EventView::Slot(slot) ==> {
            &&& event_step(scope, f, e).1 == StepView::Request(slot)
            &&& event_step(scope, f, e).0.url == f.url
        },
{
}

/// Whether events can happen one after the other.
pub open spec fn run_fits(scope: ScopeView, f: FetchView, events: Seq<EventView>) -> bool
    decreases events.len(),
{
    events.len() == 0 || fits(f, events[0]) && run_fits(
        scope,
        event_step(scope, f, events[0]).0,
        events.drop_first(),
    )
}

/// In every attempt, each outcome of a request comes right after the slot of
/// that request was taken.
pub proof fn law_every_request_is_paced(scope: ScopeView, start: UrlView, events: Seq<EventView>)
    requires
        run_fits(scope, FetchView::start(start), events),
    ensures
        forall|i: int|
            0 <= i < events.len() && (#[trigger] events[i] is Reply || events[i] is NoReply) ==> i
                > 0 && events[i - 1] is Slot,
{
    lemma_outcomes_follow_slots(scope, FetchView::start(start), events);
}

proof fn lemma_outcomes_follow_slots(scope: ScopeView, f: FetchView, events: Seq<EventView>)
    requires
        run_fits(scope, f, events),
    ensures
        forall|i: int|
            0 <= i < events.len() && (#[trigger] events[i] is Reply || events[i] is NoReply) ==> (
            if i == 0 {
                f.phase is Requesting
            } else {
                events[i - 1] is Slot
            }),
    decreases events.len(),
{
    if events.len() > 0 {
        let rest = events.drop_first();
        lemma_outcomes_follow_slots(scope, event_step(scope, f, events[0]).0, rest);
        assert forall|i: int|
            0 <= i < events.len() && (#[trigger] events[i] is Reply || events[i]
                is NoReply) implies if i == 0 {
            f.phase is Requesting
        } else {
            events[i - 1] is Slot
        } by {
            if i > 0 {
                assert(rest[i - 1] == events[i]);
                if i > 1 {
                    assert(rest[i - 2] == events[i - 1]);
                }
            }
        }
    }
}

/// The URLs that events lead to requests of.
pub open spec fn requested(scope: ScopeView, f: FetchView, events: Seq<EventView>) -> Seq<UrlView>
    decreases events.len(),
{
    if events.len() == 0 {
        Seq::empty()
    } else {
        let (g, step) = event_step(scope, f, events[0]);
        (if step is Request {
            seq![g.url]
        } else {
            Seq::empty()
        }) + requested(scope, g, events.drop_first())
    }
}

/// Whatever happens, an attempt requests at most six URLs, the first and five
/// redirects. The first is where it began, and each of the others lies in the
/// scope of the crawl, and the one before it led to it.
pub proof fn law_redirects_are_bounded(scope: ScopeView, start: UrlView, events: Seq<EventView>)
    requires
        run_fits(scope, FetchView::start(start), events),
    ensures
        ({
            let urls = requested(scope, FetchView::start(start), events);
            &&& urls.len() <= MAX_REDIRECTS + 1
            &&& urls.len() > 0 ==> urls[0] == start
            &&& forall|i: int|
                0 < i < urls.len() ==> in_scope(scope, #[trigger] urls[i]) && leads_to(
                    urls[i - 1],
                    urls[i],
                )
        }),
{
    lemma_requested(scope, FetchView::start(start), events);
}

proof fn lemma_requested(scope: ScopeView, f: FetchView, events: Seq<EventView>)
    requires
        f.valid(scope),
        run_fits(scope, f, events),
    ensures
        ({
            let urls = requested(scope, f, events);
            &&& f.phase is Finished ==> urls.len() == 0
            &&& f.phase is Reading ==> urls.len() == 0
            &&& f.phase is Pacing ==> urls.len() <= MAX_REDIRECTS + 1 - f.hops
            &&& f.phase is Requesting || f.phase is Asking ==> urls.len() <= MAX_REDIRECTS - f.hops
            &&& f.phase is Pacing && urls.len() > 0 ==> urls[0] == f.url
            &&& (f.phase is Requesting || f.phase is Asking) && urls.len() > 0 ==> in_scope(
                scope,
                urls[0],
            ) && leads_to(f.url, urls[0])
            &&& forall|i: int|
                0 < i < urls.len() ==> in_scope(scope, #[trigger] urls[i]) && leads_to(
                    urls[i - 1],
                    urls[i],
                )
        }),
    decreases events.len(),
{
    if events.len() > 0 {
        let (g, step) = event_step(scope, f, events[0]);
        let rest = requested(scope, g, events.drop_first());
        let urls = requested(scope, f, events);
        law_attempt_stays_valid(scope, f, events[0]);
        lemma_requested(scope, g, events.drop_first());
        if step is Request {
            assert(urls =~= seq![g.url] + rest);
            assert forall|i: int| 0 < i < urls.len() implies in_scope(scope, #[trigger] urls[i])
                && leads_to(urls[i - 1], urls[i]) by {
                assert(urls[i] == rest[i - 1]);
                if i > 1 {
                    assert(urls[i - 1] == rest[i - 2]);
                }
            }
        } else {
            assert(urls =~= rest);
        }
    }
}

/// What reading a page leads to, if it comes in `chunks` and then ends.
pub open spec fn read_chunks(f: FetchView, chunks: Seq<Seq<u8>>) -> StepView
    decreases chunks.len(),
{
    if chunks.len() == 0 {
        StepView::Done(with_page(f, f.phase->Reading_0))
    } else {
        let (g, step) = chunk_step(f, chunks[0]);
        if step is Read {
            read_chunks(g, chunks.drop_first())
        } else {
            step
        }
    }
}

/// The beginning of a page, up to the cap.
pub open spec fn up_to_cap(bytes: Seq<u8>) -> Seq<u8> {
    if bytes.len() <= MAX_BODY_BYTES {
        bytes
    } else {
        bytes.take(MAX_BODY_BYTES as int)
    }
}

/// However a page is cut into chunks, its text is read from the bytes up to
/// the cap.
pub proof fn law_body_is_capped(f: FetchView, chunks: Seq<Seq<u8>>)
    requires
        f.phase matches PhaseView::Reading(buf) && buf.len() < MAX_BODY_BYTES,
    ensures
        read_chunks(f, chunks) == StepView::Done(
            with_page(f, up_to_cap(f.phase->Reading_0 + chunks.flatten())),
        ),
    decreases chunks.len(),
{
    let buf = f.phase->Reading_0;
    if chunks.len() == 0 {
        assert(buf + chunks.flatten() =~= buf);
    } else {
        let chunk = chunks[0];
        let rest = chunks.drop_first();
        assert(chunks.flatten() == chunk + rest.flatten());
        let room = MAX_BODY_BYTES - buf.len();
        let (g, step) = chunk_step(f, chunk);
        if chunk.len() >= room {
            assert(up_to_cap(buf + chunks.flatten()) =~= buf + chunk.take(room));
        } else {
            law_body_is_capped(g, rest);
            assert((buf + chunk) + rest.flatten() =~= buf + chunks.flatten());
        }
    }
}

/// A redirect is followed wherever it can be: if the place that it gives
/// resolves against the URL of the page to one in scope, exactly that one is
/// asked about. The attempt ends at a redirect only if it gives no place, one
/// that cannot be resolved, or one out of scope.
pub proof fn law_redirects_in_scope_are_asked_about(
    scope: ScopeView,
    f: FetchView,
    status: u16,
    location: Option<Seq<char>>,
    content_type: Option<Seq<char>>,
)
    requires
        300 <= status < 400,
    ensures
        ({
            let (g, step) = reply_step(scope, f, ReplyView { status, location, content_type });
            let next = joined(f.url, location->0);
            &&& location is Some && next is Some && in_scope(scope, next->0) ==> {
                &&& step == StepView::AskRobots
                &&& g.phase == PhaseView::Asking(next->0)
                &&& g.url == f.url && g.hops == f.hops && g.status == status
            }
            &&& location is None || next is None || !in_scope(scope, next->0) ==> {
                &&& step == StepView::Done(FetchedView { status, url: f.url, body: None })
                &&& g.phase is Finished
            }
        }),
{
}

/// A hop that was asked about is taken if it is permitted and fewer than five
/// were taken before. At the sixth the attempt ends where it would have gone, at
/// one that is forbidden where it stands.
pub proof fn law_permitted_hops_are_taken(f: FetchView, next: UrlView, permitted: bool)
    requires
        f.phase == PhaseView::Asking(next),
    ensures
        ({
            let (g, step) = verdict_step(f, permitted);
            &&& permitted && f.hops < 5 ==> {
                &&& step == StepView::Pace
                &&& g.phase is Pacing
                &&& g.url == next && g.hops == f.hops + 1 && g.status == f.status
            }
            &&& permitted && f.hops >= 5 ==> step == StepView::Done(
                FetchedView { status: f.status, url: next, body: None },
            ) && g.phase is Finished
            &&& !permitted ==> step == StepView::Done(
                FetchedView { status: f.status, url: f.url, body: None },
            ) && g.phase is Finished
        }),
{
}

/// From a redirect to its request: where the place that it gives resolves to a
/// URL in scope, the rules of its site permit it, and fewer than five redirects
/// were followed, the next request is one of that URL.
pub proof fn law_permitted_redirects_are_requested(
    scope: ScopeView,
    f: FetchView,
    status: u16,
    location: Seq<char>,
    next: UrlView,
    rules: Seq<(bool, Seq<char>)>,
    slot: Option<int>,
)
    requires
        300 <= status < 400,
        joined(f.url, location) == Some(next),
        in_scope(scope, next),
        permits(rules, target_of(next)),
        f.hops < 5,
        f.phase is Requesting,
    ensures
        ({
            let reply = ReplyView { status, location: Some(location), content_type: None };
            let asking = event_step(scope, f, EventView::Reply(reply)).0;
            let pacing = event_step(scope, asking, EventView::Robots(rules)).0;
            let (sent, step) = event_step(scope, pacing, EventView::Slot(slot));
            &&& fits(asking, EventView::Robots(rules))
            &&& fits(pacing, EventView::Slot(slot))
            &&& step == StepView::Request(slot)
            &&& sent.url == next
            &&& sent.phase is Requesting
            &&& sent.hops == f.hops + 1
        }),
{
}

/// What a reply that is no redirect leads to: a status of 429 or from 500 to 599
/// to a retry, one from 200 to 299 to reading the page, unless it says that it
/// is no HTML, and anything else to the end, without a page.
pub proof fn law_what_replies_lead_to(
    scope: ScopeView,
    f: FetchView,
    status: u16,
    location: Option<Seq<char>>,
    content_type: Option<Seq<char>>,
)
    requires
        status < 300 || status >= 400,
    ensures
        ({
            let (g, step) = reply_step(scope, f, ReplyView { status, location, content_type });
            let html = content_type is None || occurs(lowered(content_type->0), "html"@);
            let failed = status == 429 || 500 <= status < 600;
            let succeeded = 200 <= status < 300;
            &&& failed ==> step == StepView::Retry(status) && g.phase is Finished
            &&& succeeded && html ==> {
                &&& step == StepView::Read
                &&& g.phase == PhaseView::Reading(Seq::empty())
                &&& g.url == f.url && g.status == status && g.hops == f.hops
            }
            &&& !failed && !(succeeded && html) ==> step == StepView::Done(
                FetchedView { status, url: f.url, body: None },
            ) && g.phase is Finished
        }),
{
}

/// What is read of a page: chunk after chunk, up to two mebibytes. The page is
/// then done, with the text of what was read.
pub proof fn law_what_is_read(f: FetchView, read: Seq<u8>, chunk: Seq<u8>)
    requires
        f.phase == PhaseView::Reading(read),
        read.len() < 2_097_152,
    ensures
        ({
            let (g, step) = chunk_step(f, chunk);
            &&& read.len() + chunk.len() < 2_097_152 ==> {
                &&& step == StepView::Read
                &&& g.phase == PhaseView::Reading(read + chunk)
                &&& g.url == f.url && g.status == f.status && g.hops == f.hops
            }
            &&& read.len() + chunk.len() >= 2_097_152 ==> step == StepView::Done(
                FetchedView {
                    status: f.status,
                    url: f.url,
                    body: Some(lossy_text((read + chunk).take(2_097_152))),
                },
            ) && g.phase is Finished
        }),
        with_page(f, read) == (FetchedView {
            status: f.status,
            url: f.url,
            body: Some(lossy_text(read)),
        }),
{
    let room = 2_097_152 - read.len();
    if read.len() + chunk.len() >= 2_097_152 {
        assert((read + chunk).take(2_097_152) =~= read + chunk.take(room));
    }
}

/// Where an attempt begins, and where it goes when its slot is known.
pub proof fn law_attempts_begin_at_their_url(url: UrlView, f: FetchView, slot: Option<int>)
    ensures
        ({
            let start = FetchView::start(url);
            &&& start.url == url && start.hops == 0 && start.status == 0 && start.phase is Pacing
        }),
        ({
            let (g, step) = pace_step(f, slot);
            &&& step == StepView::Request(slot)
            &&& g.phase is Requesting
            &&& g.url == f.url && g.hops == f.hops && g.status == f.status
        }),
{
}

/// After a failure an attempt is made as long as fewer were made than retries are
/// granted; the first wait is half a second. When none is left, or an attempt
/// has a result, the fetch is over.
pub proof fn law_when_attempts_are_made(
    start: UrlView,
    attempt: nat,
    retries: nat,
    status: u16,
    fetched: FetchedView,
)
    ensures
        ({
            let r = RetriesView { attempt, retries };
            let (s, next) = attempt_step(start, r, Err(status));
            &&& attempt < retries ==> {
                &&& next == AfterAttemptView::Wait(backoff(attempt))
                &&& s == RetriesView { attempt: attempt + 1, retries }
            }
            &&& attempt >= retries ==> next == AfterAttemptView::Done(
                FetchedView { status, url: start, body: None },
            )
            &&& attempt_step(start, r, Ok(fetched)).1 == AfterAttemptView::Done(fetched)
        }),
        backoff(0) == 500,
        backoff(1) == 1000,
        backoff(2) == 2000,
        attempt >= 6 ==> backoff(attempt) == 32_000,
{
    reveal_with_fuel(backoff, 8);
}

} // verus!
