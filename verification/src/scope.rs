//! Which pages belong to a crawl.
use crate::text::{chars_of, lower, lowercase, lowered, same};
use crate::web_url::{option_text, Address, UrlView};
use vstd::prelude::*;

verus! {

/// Where a crawl may go: to any web address, or to those of the host where it
/// began.
pub struct Scope {
    pub same_host_only: bool,
    pub seed_host: Option<String>,
}

/// A scope over views.
#[verifier::ext_equal]
pub struct ScopeView {
    pub same_host_only: bool,
    pub seed_host: Option<Seq<char>>,
}

impl View for Scope {
    type V = ScopeView;

    open spec fn view(&self) -> ScopeView {
        ScopeView {
            same_host_only: self.same_host_only,
            seed_host: option_text(self.seed_host),
        }
    }
}

/// Whether a URL belongs to a crawl: it is a web address, and, if the crawl
/// keeps to its host, it has that host, capital letters or not.
pub open spec fn in_scope(scope: ScopeView, v: UrlView) -> bool {
    v.is_web() && (scope.same_host_only ==> {
        &&& scope.seed_host matches Some(seed)
        &&& v.host matches Some(host)
        &&& lowered(seed) == lowered(host)
    })
}

/// Whether two texts are the same up to capital ASCII letters.
pub fn same_ignoring_case(a: &str, b: &str) -> (res: bool)
    ensures
        res == (lowered(a@) == lowered(b@)),
{
    same(
        lowercase(chars_of(a).as_slice()).as_slice(),
        lowercase(chars_of(b).as_slice()).as_slice(),
    )
}

/// Whether a URL belongs to a crawl.
pub fn host_ok(scope: &Scope, url: &Address) -> (res: bool)
    ensures
        res == in_scope(scope@, url@),
{
    if !url.is_web() {
        return false;
    }
    if !scope.same_host_only {
        return true;
    }
    match (&scope.seed_host, url.host_str()) {
        (Some(seed), Some(host)) => same_ignoring_case(seed.as_str(), host),
        _ => false,
    }
}

impl Scope {
    /// The scope of a crawl that begins at a URL.
    pub fn of_seed(seed: &Address, same_host_only: bool) -> (res: Scope)
        ensures
            res@ == (ScopeView { same_host_only, seed_host: seed@.host }),
    {
        let seed_host = match seed.host_str() {
            Some(host) => Some(host.to_owned()),
            None => None,
        };
        Scope { same_host_only, seed_host }
    }
}

/// The page where a crawl begins belongs to it.
pub proof fn law_seed_is_in_scope(seed: UrlView, same_host_only: bool)
    requires
        seed.valid(),
        seed.is_web(),
    ensures
        in_scope(ScopeView { same_host_only, seed_host: seed.host }, seed),
{
}

/// A crawl that keeps to its host accepts nothing that an open one refuses.
pub proof fn law_same_host_is_narrower(seed_host: Option<Seq<char>>, v: UrlView)
    requires
        in_scope(ScopeView { same_host_only: true, seed_host }, v),
    ensures
        in_scope(ScopeView { same_host_only: false, seed_host }, v),
{
}

/// What belongs to a crawl: the addresses with the scheme `http` or `https`, and
/// of these, if the crawl keeps to its host, those whose host is the seed's,
/// letter by letter but for the case of ASCII letters. Nothing else of a URL
/// counts.
pub proof fn law_what_is_in_scope(
    same_host_only: bool,
    seed_host: Option<Seq<char>>,
    v: UrlView,
)
    ensures
        in_scope(ScopeView { same_host_only, seed_host }, v) <==> {
            &&& v.scheme == "http"@ || v.scheme == "https"@
            &&& !same_host_only || {
                &&& seed_host is Some && v.host is Some
                &&& seed_host->0.len() == v.host->0.len()
                &&& forall|i: int|
                    0 <= i < seed_host->0.len() ==> lower(#[trigger] seed_host->0[i]) == lower(
                        v.host->0[i],
                    )
            }
        },
{
    if seed_host is Some && v.host is Some {
        let a = seed_host->0;
        let b = v.host->0;
        if lowered(a) == lowered(b) {
            assert(lowered(a).len() == lowered(b).len());
            assert forall|i: int| 0 <= i < a.len() implies lower(#[trigger] a[i]) == lower(
                b[i],
            ) by {
                assert(lowered(a)[i] == lowered(b)[i]);
            }
        }
        if a.len() == b.len() && forall|i: int|
            0 <= i < a.len() ==> lower(#[trigger] a[i]) == lower(b[i]) {
            assert(lowered(a) =~= lowered(b));
        }
    }
}

} // verus!
