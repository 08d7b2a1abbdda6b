//! Addresses of pages, as the `url` crate reads them.
use crate::pairs::{decoded, encoded, pair_texts};
use crate::text::{chars_of, lowered, same_text, string_of, trim_start};
use vstd::prelude::*;
use vstd::slice::slice_subrange;
use vstd::utf8::encode_utf8;

verus! {

/// The longest text that is read as a URL, in bytes: two gibibytes less one.
pub const MAX_TEXT_BYTES: usize = 0x7FFF_FFFF;

/// Where a site keeps its `robots.txt`.
pub const ROBOTS_PATH: &'static str = "/robots.txt";

/// The type of URLs of the `url` crate.
#[verifier::external_type_specification]
#[verifier::external_body]
pub struct ExUrl(url::Url);

/// `Clone` of `url::Url` gives the same URL.
pub assume_specification[ <url::Url as Clone>::clone ](u: &url::Url) -> (res: url::Url)
    ensures
        res == *u,
;

/// A URL: as the `url` crate holds it, and as the parts that the crawler reads
/// off it. The two are only ever made together.
pub struct Address {
    inner: url::Url,
    prefix: String,
    scheme: String,
    host: Option<String>,
    port: String,
    path: String,
    query: Option<String>,
    fragment: Option<String>,
}

/// A URL as its parts.
///
/// `prefix` is everything before the path; it holds the scheme, the user, the
/// host and the port. `port` is what stands between the host and the path: of
/// a web address, nothing, or a colon and the digits of a port that is not the
/// scheme's usual one.
#[verifier::ext_equal]
pub struct UrlView {
    pub prefix: Seq<char>,
    pub scheme: Seq<char>,
    pub host: Option<Seq<char>>,
    pub port: Seq<char>,
    pub path: Seq<char>,
    pub query: Option<Seq<char>>,
    pub fragment: Option<Seq<char>>,
}

/// The characters of a text that may be missing.
pub open spec fn option_text(s: Option<String>) -> Option<Seq<char>> {
    match s {
        Some(s) => Some(s@),
        None => None,
    }
}

/// A part of a URL with the character that introduces it.
pub open spec fn part(mark: char, s: Option<Seq<char>>) -> Seq<char> {
    match s {
        Some(s) => seq![mark] + s,
        None => Seq::empty(),
    }
}

impl UrlView {
    /// The URL as one text.
    pub open spec fn text(self) -> Seq<char> {
        self.prefix + self.path + part('?', self.query) + part('#', self.fragment)
    }

    /// Whether the URL is a web address.
    pub open spec fn is_web(self) -> bool {
        self.scheme == "http"@ || self.scheme == "https"@
    }

    /// Whether the path is opaque, as in `mailto:someone`: it follows the
    /// scheme and does not begin with a slash.
    pub open spec fn opaque(self) -> bool {
        let text = self.prefix + self.path;
        let after_colon = self.scheme.len() + 1;
        !self.is_web() && (text.len() <= after_colon || text[after_colon as int] != '/')
    }

    /// The URL without its fragment. An opaque path that nothing follows any
    /// more also loses the spaces it ends with.
    pub open spec fn without_fragment(self) -> UrlView {
        UrlView {
            path: if self.opaque() && self.query is None {
                without_spaces(self.path)
            } else {
                self.path
            },
            fragment: None,
            ..self
        }
    }

    /// The URL without its query. An opaque path that nothing follows any more
    /// also loses the spaces it ends with.
    pub open spec fn without_query(self) -> UrlView {
        UrlView {
            path: if self.opaque() && self.fragment is None {
                without_spaces(self.path)
            } else {
                self.path
            },
            query: None,
            ..self
        }
    }

    /// The address of the `robots.txt` of the URL's site: the URL with that
    /// path, without query and fragment.
    pub open spec fn robots_url(self) -> Seq<char> {
        let bare = self.without_fragment();
        if self.is_web() {
            self.prefix + ROBOTS_PATH@
        } else {
            (UrlView { path: path_set(bare, ROBOTS_PATH@), ..bare }).without_query().text()
        }
    }

    /// The origin: scheme, host and port of a web address.
    pub open spec fn origin(self) -> Seq<char> {
        if self.is_web() {
            self.scheme + "://"@ + self.host->0 + self.port
        } else {
            origin_text(self)
        }
    }

    /// Whether the URL has an origin that can be told: if it is a `blob` URL,
    /// the URL inside it, which is its path, is not too long to be read and no
    /// `blob` URL itself.
    pub open spec fn has_origin(self) -> bool {
        self.scheme == "blob"@ ==> {
            &&& encode_utf8(self.path).len() <= MAX_TEXT_BYTES
            &&& !"blob:"@.is_prefix_of(lowered(trim_start(self.path)))
        }
    }

    /// What stands between `://` and the path of a web address.
    pub open spec fn authority(self) -> Seq<char> {
        self.prefix.skip(self.scheme.len() as int + 3)
    }

    /// What holds of every URL: its scheme is no longer than a text that is
    /// read. A web address has a host, and its text falls into its parts: no
    /// `/` stands between the `://` and the path, the path begins with one, and
    /// no `?` stands before the query.
    pub open spec fn valid(self) -> bool {
        &&& encode_utf8(self.scheme).len() <= MAX_TEXT_BYTES
        &&& self.is_web() ==> {
            &&& self.host is Some
            &&& self.prefix == self.scheme + "://"@ + self.authority()
            &&& !self.authority().contains('/')
            &&& self.path.len() > 0
            &&& self.path[0] == '/'
            &&& !self.path.contains('?')
            &&& self.reads_again()
        }
    }

    /// Whether the root of the URL's site is read as what it is. It need not
    /// be: the ASCII form of a host with a long label may be refused.
    pub open spec fn site_reads(self) -> bool {
        parsed(self.prefix + "/"@) == Ok::<UrlView, Seq<char>>(
            UrlView { path: "/"@, query: None, fragment: None, ..self },
        )
    }

    /// Where the root of the URL's site is read as what it is, the URL is too.
    pub open spec fn reads_again(self) -> bool {
        self.site_reads() ==> parsed(self.text()) == Ok::<UrlView, Seq<char>>(self)
    }
}

impl View for Address {
    type V = UrlView;

    closed spec fn view(&self) -> UrlView {
        UrlView {
            prefix: self.prefix@,
            scheme: self.scheme@,
            host: option_text(self.host),
            port: self.port@,
            path: self.path@,
            query: option_text(self.query),
            fragment: option_text(self.fragment),
        }
    }
}

/// What `url::Url::parse` reads in a text: the parts of the URL, or the reason
/// why the text is none.
pub uninterp spec fn parsed(text: Seq<char>) -> Result<UrlView, Seq<char>>;

/// What `url::Url::join` makes of a reference, such as the target of a link,
/// that stands in the document at the URL `base`.
pub uninterp spec fn joined(base: UrlView, reference: Seq<char>) -> Option<UrlView>;

/// The path that `url::Url::set_path` gives the URL `v` when it is asked for
/// `path`.
pub uninterp spec fn path_set(v: UrlView, path: Seq<char>) -> Seq<char>;

/// What `url::Origin::ascii_serialization` says of the origin of the URL `v`.
pub uninterp spec fn origin_text(v: UrlView) -> Seq<char>;

/// The outcome of reading a URL, over views.
pub open spec fn read_view(res: Result<Address, String>) -> Result<UrlView, Seq<char>> {
    match res {
        Ok(url) => Ok(url@),
        Err(reason) => Err(reason@),
    }
}

/// The outcome of resolving a reference, over views.
pub open spec fn url_view(res: Option<Address>) -> Option<UrlView> {
    match res {
        Some(url) => Some(url@),
        None => None,
    }
}

/// `url::Url::parse`, with the parts of the URL read off its accessors, and off
/// the positions in its text where they begin and end. Its result is
/// [`parsed`], and is valid: the parser writes the parts of a web address one
/// after the other, escapes every `/` and `?` that would end a part too early,
/// and reads a path, a query and a fragment that it wrote itself as what they
/// are. Longer texts are left out: the parser counts the characters of a text
/// in 32 bits.
#[verifier::external_body]
fn read_url(text: &str) -> (res: Result<Address, String>)
    requires
        encode_utf8(text@).len() <= MAX_TEXT_BYTES,
    ensures
        read_view(res) == parsed(text@),
        res matches Ok(u) ==> u@.valid(),
{
    match url::Url::parse(text) {
        Ok(u) => Ok(Address {
            prefix: u[..url::Position::BeforePath].to_string(),
            scheme: u.scheme().to_string(),
            host: u.host_str().map(String::from),
            port: u[url::Position::AfterHost..url::Position::BeforePath].to_string(),
            path: u.path().to_string(),
            query: u[url::Position::AfterPath..url::Position::AfterQuery]
                .strip_prefix('?')
                .map(String::from),
            fragment: u[url::Position::AfterQuery..].strip_prefix('#').map(String::from),
            inner: u,
        }),
        Err(e) => Err(e.to_string()),
    }
}

/// `url::Url::join`; a reference that cannot be resolved gives nothing. Its
/// result is [`joined`], and is valid like one that was read. Longer references
/// are left out, as in [`read_url`].
#[verifier::external_body]
fn join_url(base: &Address, reference: &str) -> (res: Option<Address>)
    requires
        encode_utf8(reference@).len() <= MAX_TEXT_BYTES,
    ensures
        url_view(res) == joined(base@, reference@),
        res matches Some(u) ==> u@.valid(),
{
    match base.inner.join(reference) {
        Ok(u) => Some(Address {
            prefix: u[..url::Position::BeforePath].to_string(),
            scheme: u.scheme().to_string(),
            host: u.host_str().map(String::from),
            port: u[url::Position::AfterHost..url::Position::BeforePath].to_string(),
            path: u.path().to_string(),
            query: u[url::Position::AfterPath..url::Position::AfterQuery]
                .strip_prefix('?')
                .map(String::from),
            fragment: u[url::Position::AfterQuery..].strip_prefix('#').map(String::from),
            inner: u,
        }),
        Err(_) => None,
    }
}

/// `s` without the spaces it ends with.
pub open spec fn without_spaces(s: Seq<char>) -> Seq<char>
    decreases s.len(),
{
    if s.len() > 0 && s.last() == ' ' {
        without_spaces(s.drop_last())
    } else {
        s
    }
}

/// `s` without the slashes it ends with.
pub open spec fn without_slashes(s: Seq<char>) -> Seq<char>
    decreases s.len(),
{
    if s.len() > 0 && s.last() == '/' {
        without_slashes(s.drop_last())
    } else {
        s
    }
}

/// The path that a web address gets when it is asked for `path`, in the normal
/// form of paths: the root path stands for an empty one.
pub open spec fn web_path(path: Seq<char>) -> Seq<char> {
    if path.len() == 0 {
        "/"@
    } else {
        path
    }
}

/// A path of one segment made of small letters and dots that begins with a
/// letter.
pub open spec fn plain_path(path: Seq<char>) -> bool {
    &&& path.len() >= 2
    &&& path[0] == '/'
    &&& 'a' <= path[1] <= 'z'
    &&& forall|i: int| 1 <= i < path.len() ==> 'a' <= #[trigger] path[i] <= 'z' || path[i] == '.'
}

/// A URL that is being changed, as the `url` crate holds it and as its parts.
/// It is no [`Address`]: what such changes make of an address of another scheme
/// need not be one that can be read.
pub struct Draft {
    inner: url::Url,
    prefix: String,
    scheme: String,
    host: Option<String>,
    port: String,
    path: String,
    query: Option<String>,
    fragment: Option<String>,
}

impl View for Draft {
    type V = UrlView;

    closed spec fn view(&self) -> UrlView {
        UrlView {
            prefix: self.prefix@,
            scheme: self.scheme@,
            host: option_text(self.host),
            port: self.port@,
            path: self.path@,
            query: option_text(self.query),
            fragment: option_text(self.fragment),
        }
    }
}

/// `url::Url::set_path`: gives the path [`path_set`] and leaves every other
/// part. It is asked for the URL's own path without slashes at the end, which
/// makes it no longer, or for a plain path. Either way the URL is within the
/// four gigabytes that the crate admits.
///
/// Of a web address: a path that its own path begins with up to slashes is in
/// normal form and is taken as it is, and so is a plain path; an empty path
/// becomes `/`. The result reads as itself where the root of its site does.
#[verifier::external_body]
fn set_path(url: &Address, path: &str) -> (res: Draft)
    requires
        ({
            ||| path@ == without_slashes(url@.path) && encode_utf8(
                url@.prefix + url@.path,
            ).len() <= u32::MAX
            ||| plain_path(path@) && encode_utf8(url@.text()).len() + path@.len() + 2 <= u32::MAX
        }),
    ensures
        res@ == (UrlView { path: path_set(url@, path@), ..url@ }),
        url@.is_web() ==> res@.path == web_path(path@),
        url@.is_web() ==> res@.reads_again(),
{
    let mut u = url.inner.clone();
    u.set_path(path);
    Draft {
        prefix: u[..url::Position::BeforePath].to_string(),
        scheme: u.scheme().to_string(),
        host: u.host_str().map(String::from),
        port: u[url::Position::AfterHost..url::Position::BeforePath].to_string(),
        path: u.path().to_string(),
        query: u[url::Position::AfterPath..url::Position::AfterQuery]
            .strip_prefix('?')
            .map(String::from),
        fragment: u[url::Position::AfterQuery..].strip_prefix('#').map(String::from),
        inner: u,
    }
}

/// `url::Url::set_query` with no query: the query goes, with the spaces before
/// it that ended an opaque path, and every other part stays. A web address
/// reads as itself where the root of its site does, if it did before.
#[verifier::external_body]
fn drop_query(draft: &Draft) -> (res: Draft)
    requires
        draft@.fragment is None,
    ensures
        res@ == draft@.without_query(),
        draft@.is_web() && draft@.reads_again() ==> res@.reads_again(),
{
    let mut u = draft.inner.clone();
    u.set_query(None);
    Draft {
        prefix: u[..url::Position::BeforePath].to_string(),
        scheme: u.scheme().to_string(),
        host: u.host_str().map(String::from),
        port: u[url::Position::AfterHost..url::Position::BeforePath].to_string(),
        path: u.path().to_string(),
        query: u[url::Position::AfterPath..url::Position::AfterQuery]
            .strip_prefix('?')
            .map(String::from),
        fragment: u[url::Position::AfterQuery..].strip_prefix('#').map(String::from),
        inner: u,
    }
}

/// `url::Url::query_pairs_mut`, cleared and extended by `pairs` with
/// `form_urlencoded::Serializer::extend_pairs`: the query becomes [`encoded`],
/// in which `form_urlencoded::parse` reads the same pairs again, and every
/// other part stays. A web address reads as itself where the root of its site
/// does, if it did before. A URL without a query is left out, as the place of
/// the new one may not be within what the crate admits.
#[verifier::external_body]
fn set_pairs(draft: &Draft, pairs: &Vec<(String, String)>) -> (res: Draft)
    requires
        draft@.fragment is None,
        draft@.query is Some,
    ensures
        res@ == (UrlView { query: Some(encoded(pair_texts(pairs@))), ..draft@ }),
        decoded(res@.query->0) == pair_texts(pairs@),
        draft@.is_web() && draft@.reads_again() ==> res@.reads_again(),
{
    let mut u = draft.inner.clone();
    u.query_pairs_mut().clear().extend_pairs(pairs);
    Draft {
        prefix: u[..url::Position::BeforePath].to_string(),
        scheme: u.scheme().to_string(),
        host: u.host_str().map(String::from),
        port: u[url::Position::AfterHost..url::Position::BeforePath].to_string(),
        path: u.path().to_string(),
        query: u[url::Position::AfterPath..url::Position::AfterQuery]
            .strip_prefix('?')
            .map(String::from),
        fragment: u[url::Position::AfterQuery..].strip_prefix('#').map(String::from),
        inner: u,
    }
}

/// `url::Url::set_fragment` with no fragment: the fragment goes, with the
/// spaces before it that ended an opaque path, and every other part stays. The
/// result is valid like one that was read.
#[verifier::external_body]
fn drop_fragment(url: &Address) -> (res: Address)
    ensures
        res@ == url@.without_fragment(),
        res@.valid(),
{
    let mut u = url.inner.clone();
    u.set_fragment(None);
    Address {
        prefix: u[..url::Position::BeforePath].to_string(),
        scheme: u.scheme().to_string(),
        host: u.host_str().map(String::from),
        port: u[url::Position::AfterHost..url::Position::BeforePath].to_string(),
        path: u.path().to_string(),
        query: u[url::Position::AfterPath..url::Position::AfterQuery]
            .strip_prefix('?')
            .map(String::from),
        fragment: u[url::Position::AfterQuery..].strip_prefix('#').map(String::from),
        inner: u,
    }
}

/// `url::Url::origin` and `ascii_serialization`: gives [`origin_text`], which
/// for a web address is its scheme, host and port. The origin of a `blob` URL is
/// that of the URL inside it; nested `blob` URLs are left out, as they may be
/// nested without bound, and so are those with a URL inside that is too long.
#[verifier::external_body]
fn read_origin(url: &Address) -> (res: String)
    requires
        url@.has_origin(),
    ensures
        res@ == origin_text(url@),
        url@.is_web() ==> res@ == url@.origin(),
{
    url.inner.origin().ascii_serialization()
}

/// The parts of a URL as one text.
fn text_of(
    prefix: &String,
    path: &String,
    query: &Option<String>,
    fragment: &Option<String>,
) -> (res: String)
    ensures
        res@ == prefix@ + path@ + part('?', option_text(*query)) + part(
            '#',
            option_text(*fragment),
        ),
{
    let mut res = prefix.clone();
    res.append(path.as_str());
    match query {
        Some(query) => {
            res.push('?');
            res.append(query.as_str());
        },
        None => {},
    }
    match fragment {
        Some(fragment) => {
            res.push('#');
            res.append(fragment.as_str());
        },
        None => {},
    }
    assert(res@ =~= prefix@ + path@ + part('?', option_text(*query)) + part(
        '#',
        option_text(*fragment),
    ));
    res
}

fn copy_option(s: &Option<String>) -> (res: Option<String>)
    ensures
        option_text(res) == option_text(*s),
{
    match s {
        Some(s) => Some(s.clone()),
        None => None,
    }
}

impl Clone for Address {
    fn clone(&self) -> (res: Self)
        ensures
            res@ == self@,
    {
        proof {
            use_type_invariant(self);
        }
        let inner = self.inner.clone();
        let prefix = self.prefix.clone();
        let scheme = self.scheme.clone();
        let host = copy_option(&self.host);
        let port = self.port.clone();
        let path = self.path.clone();
        let query = copy_option(&self.query);
        let fragment = copy_option(&self.fragment);
        Address { inner, prefix, scheme, host, port, path, query, fragment }
    }
}

impl Address {
    /// Every URL is one that was read.
    #[verifier::type_invariant]
    spec fn is_valid(self) -> bool {
        self@.valid()
    }

    /// Reads a URL, or gives the reason why a text is none.
    pub fn parse(text: &str) -> (res: Result<Address, String>)
        requires
            encode_utf8(text@).len() <= MAX_TEXT_BYTES,
        ensures
            read_view(res) == parsed(text@),
            res matches Ok(u) ==> u@.valid(),
    {
        read_url(text)
    }

    /// The URL as one text.
    pub fn text(&self) -> (res: String)
        ensures
            res@ == self@.text(),
    {
        text_of(&self.prefix, &self.path, &self.query, &self.fragment)
    }

    /// Everything before the path.
    pub fn prefix(&self) -> (res: &str)
        ensures
            res@ == self@.prefix,
    {
        self.prefix.as_str()
    }

    /// The scheme.
    pub fn scheme(&self) -> (res: &str)
        ensures
            res@ == self@.scheme,
    {
        self.scheme.as_str()
    }

    /// The host, where there is one.
    pub fn host_str(&self) -> (res: Option<&str>)
        ensures
            match res {
                Some(host) => self@.host == Some(host@),
                None => self@.host is None,
            },
    {
        match &self.host {
            Some(host) => Some(host.as_str()),
            None => None,
        }
    }

    /// The path.
    pub fn path(&self) -> (res: &str)
        ensures
            res@ == self@.path,
    {
        self.path.as_str()
    }

    /// The query, where there is one.
    pub fn query(&self) -> (res: Option<&str>)
        ensures
            match res {
                Some(query) => self@.query == Some(query@),
                None => self@.query is None,
            },
    {
        match &self.query {
            Some(query) => Some(query.as_str()),
            None => None,
        }
    }

    /// Whether the URL is a web address.
    pub fn is_web(&self) -> (res: bool)
        ensures
            res == self@.is_web(),
    {
        same_text(self.scheme.as_str(), "http") || same_text(self.scheme.as_str(), "https")
    }

    /// Whether two URLs are the same text.
    pub fn same(&self, other: &Address) -> (res: bool)
        ensures
            res == (self@.text() == other@.text()),
    {
        self.text() == other.text()
    }

    /// Resolves a reference, such as the target of a link, that stands in the
    /// document at this URL.
    pub fn join(&self, reference: &str) -> (res: Option<Address>)
        requires
            encode_utf8(reference@).len() <= MAX_TEXT_BYTES,
        ensures
            url_view(res) == joined(self@, reference@),
            res matches Some(u) ==> u@.valid(),
    {
        join_url(self, reference)
    }

    /// The URL without its fragment.
    pub fn without_fragment(&self) -> (res: Address)
        ensures
            res@ == self@.without_fragment(),
            res@.valid(),
            self@.valid(),
    {
        proof {
            use_type_invariant(self);
        }
        drop_fragment(self)
    }

    /// The URL, to be changed.
    pub fn draft(&self) -> (res: Draft)
        ensures
            res@ == self@,
    {
        let inner = self.inner.clone();
        let prefix = self.prefix.clone();
        let scheme = self.scheme.clone();
        let host = copy_option(&self.host);
        let port = self.port.clone();
        let path = self.path.clone();
        let query = copy_option(&self.query);
        let fragment = copy_option(&self.fragment);
        Draft { inner, prefix, scheme, host, port, path, query, fragment }
    }

    /// The URL when it is asked for its own path without the slashes at the
    /// end.
    pub fn without_slashes(&self) -> (res: Draft)
        requires
            encode_utf8(self@.prefix + self@.path).len() <= u32::MAX,
        ensures
            res@ == (UrlView { path: path_set(self@, without_slashes(self@.path)), ..self@ }),
            self@.is_web() ==> res@.path == web_path(without_slashes(self@.path)),
            self@.is_web() ==> res@.reads_again(),
    {
        let chars = chars_of(self.path.as_str());
        let mut n = chars.len();
        assert(self.path@.take(n as int) =~= self.path@);
        while n > 0 && chars[n - 1] == '/'
            invariant
                chars@ == self.path@,
                n <= chars@.len(),
                without_slashes(self.path@.take(n as int)) == without_slashes(self.path@),
            decreases n,
        {
            assert(self.path@.take(n as int).drop_last() =~= self.path@.take(n - 1));
            n -= 1;
        }
        let shorter = string_of(slice_subrange(chars.as_slice(), 0, n));
        assert(shorter@ =~= without_slashes(self.path@));
        set_path(self, shorter.as_str())
    }

    /// The address of the `robots.txt` of the site that the URL is on.
    pub fn robots_url(&self) -> (res: String)
        requires
            encode_utf8(self@.without_fragment().text()).len() + ROBOTS_PATH@.len() + 2
                <= u32::MAX,
        ensures
            res@ == self@.robots_url(),
    {
        proof {
            reveal_strlit("/robots.txt");
            assert(plain_path(ROBOTS_PATH@));
        }
        let res = set_path(&drop_fragment(self), ROBOTS_PATH).without_query().text();
        assert(res@ =~= self@.robots_url());
        res
    }

    /// The origin, as text.
    pub fn origin(&self) -> (res: String)
        requires
            self@.has_origin(),
        ensures
            res@ == self@.origin(),
    {
        read_origin(self)
    }
}

impl Draft {
    /// The URL without its query.
    pub fn without_query(&self) -> (res: Draft)
        requires
            self@.fragment is None,
        ensures
            res@ == self@.without_query(),
            self@.is_web() && self@.reads_again() ==> res@.reads_again(),
    {
        drop_query(self)
    }

    /// The URL with a query made of pairs in place of its own.
    pub fn with_pairs(&self, pairs: &Vec<(String, String)>) -> (res: Draft)
        requires
            self@.fragment is None,
            self@.query is Some,
        ensures
            res@ == (UrlView { query: Some(encoded(pair_texts(pairs@))), ..self@ }),
            decoded(encoded(pair_texts(pairs@))) == pair_texts(pairs@),
            self@.is_web() && self@.reads_again() ==> res@.reads_again(),
    {
        set_pairs(self, pairs)
    }

    /// The URL as one text.
    pub fn text(&self) -> (res: String)
        ensures
            res@ == self@.text(),
    {
        text_of(&self.prefix, &self.path, &self.query, &self.fragment)
    }
}

/// A web address is one whose scheme is `http` or `https`.
pub proof fn law_web_addresses(v: UrlView)
    ensures
        v.is_web() <==> v.scheme == "http"@ || v.scheme == "https"@,
{
}

/// The text of a URL is its parts one after the other, the query after a `?` and
/// the fragment after a `#`.
pub proof fn law_text_of_parts(
    prefix: Seq<char>,
    path: Seq<char>,
    query: Seq<char>,
    fragment: Seq<char>,
    v: UrlView,
)
    requires
        v.prefix == prefix,
        v.path == path,
    ensures
        v.query is None && v.fragment is None ==> v.text() == prefix + path,
        v.query == Some(query) && v.fragment is None ==> v.text() == prefix + path + seq!['?']
            + query,
        v.query is None && v.fragment == Some(fragment) ==> v.text() == prefix + path + seq!['#']
            + fragment,
        v.query == Some(query) && v.fragment == Some(fragment) ==> v.text() == prefix + path
            + seq!['?'] + query + seq!['#'] + fragment,
{
    if v.query is None && v.fragment is None {
        assert(v.text() =~= prefix + path);
    }
    if v.query == Some(query) && v.fragment is None {
        assert(v.text() =~= prefix + path + seq!['?'] + query);
    }
    if v.query is None && v.fragment == Some(fragment) {
        assert(v.text() =~= prefix + path + seq!['#'] + fragment);
    }
    if v.query == Some(query) && v.fragment == Some(fragment) {
        assert(v.text() =~= prefix + path + seq!['?'] + query + seq!['#'] + fragment);
    }
}

/// A web address that loses its fragment or its query keeps everything else.
pub proof fn law_other_parts_stay(v: UrlView)
    requires
        v.scheme == "http"@ || v.scheme == "https"@,
    ensures
        ({
            let w = v.without_fragment();
            &&& w.fragment is None
            &&& w.query == v.query && w.path == v.path && w.prefix == v.prefix
            &&& w.scheme == v.scheme && w.host == v.host && w.port == v.port
        }),
        ({
            let w = v.without_query();
            &&& w.query is None
            &&& w.fragment == v.fragment && w.path == v.path && w.prefix == v.prefix
            &&& w.scheme == v.scheme && w.host == v.host && w.port == v.port
        }),
        v.without_fragment().text() + part('#', v.fragment) == v.text(),
{
    assert(v.without_fragment().text() + part('#', v.fragment) =~= v.text());
}

/// A site is told by the scheme, the host and the port of a web address, and by
/// nothing else of it; its `robots.txt` stands at the root.
pub proof fn law_sites(v: UrlView, host: Seq<char>)
    requires
        v.scheme == "http"@ || v.scheme == "https"@,
        v.host == Some(host),
    ensures
        v.origin() == v.scheme + "://"@ + host + v.port,
        v.robots_url() == v.prefix + "/robots.txt"@,
        v.has_origin(),
{
    reveal_strlit("http");
    reveal_strlit("https");
    reveal_strlit("blob");
    assert(v.scheme[0] == 'h');
    assert("blob"@[0] == 'b');
}

} // verus!
