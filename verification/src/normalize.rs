//! The key under which a page is remembered.
use crate::pairs::{
    decode_pairs, decoded, encoded, law_sorting_forgets_order, law_sorting_keeps_pairs,
    lemma_encoded_injective, lemma_split, sort_pairs, sorted_pairs, Pair,
};
use crate::text::chars_of;
use crate::web_url::{parsed, part, path_set, web_path, without_slashes, Address, UrlView};
use vstd::prelude::*;
use vstd::seq_lib::to_multiset_len;
use vstd::utf8::encode_utf8;

verus! {

/// Whether a path goes on behind its last slash-free part with slashes only.
pub open spec fn ends_in_slash(path: Seq<char>) -> bool {
    path.len() > 1 && path.last() == '/'
}

/// The path of a page's key, for a URL without fragment.
pub open spec fn normal_path(v: UrlView) -> Seq<char> {
    if !ends_in_slash(v.path) {
        v.path
    } else if v.is_web() {
        web_path(without_slashes(v.path))
    } else {
        path_set(v, without_slashes(v.path))
    }
}

/// The pairs of a query; a missing query has none.
pub open spec fn query_pairs(query: Option<Seq<char>>) -> Seq<Pair> {
    match query {
        Some(q) => decoded(q),
        None => Seq::empty(),
    }
}

/// The query of a page's key: the pairs sorted, no query where there is none.
pub open spec fn normal_query(query: Option<Seq<char>>) -> Option<Seq<char>> {
    if query_pairs(query).len() == 0 {
        None
    } else {
        Some(encoded(sorted_pairs(query_pairs(query))))
    }
}

/// The URL that a page is remembered under: without fragment, without slashes
/// at the end of the path, and with the query's pairs sorted.
pub open spec fn canonical(v: UrlView) -> UrlView {
    let bare = v.without_fragment();
    let trimmed = UrlView { path: normal_path(bare), ..bare };
    match normal_query(v.query) {
        Some(query) => UrlView { query: Some(query), ..trimmed },
        None => if v.query is Some {
            trimmed.without_query()
        } else {
            trimmed
        },
    }
}

/// The key under which a page is remembered.
pub open spec fn normalized(v: UrlView) -> Seq<char> {
    canonical(v).text()
}

/// Whether a URL has a key: where slashes have to go, what stands before the
/// query is within the four gigabytes in which the `url` crate changes a path.
pub open spec fn has_key(v: UrlView) -> bool {
    let bare = v.without_fragment();
    ends_in_slash(bare.path) ==> encode_utf8(bare.prefix + bare.path).len() <= u32::MAX
}

/// Whether a URL has a key.
pub fn can_be_keyed(url: &Address) -> (res: bool)
    ensures
        res == has_key(url@),
{
    let bare = url.without_fragment();
    let chars = chars_of(bare.path());
    if chars.len() <= 1 || chars[chars.len() - 1] != '/' {
        return true;
    }
    let mut text = bare.prefix().to_owned();
    text.append(bare.path());
    text.as_str().as_bytes().len() <= u32::MAX as usize
}

/// Canonical form used as the dedupe key. Reading a URL already makes the
/// scheme and the host small and drops default ports; on top of that this
/// strips the fragment, removes trailing slashes (except the root), and sorts
/// query parameters.
///
/// The query of the key holds the same parameters. The key of a web address is
/// read as a URL that has this same key, if the root of its site is read as
/// what it is.
pub fn normalize_url(url: Address) -> (key: String)
    requires
        has_key(url@),
    ensures
        key@ == normalized(url@),
        query_pairs(normal_query(url@.query)) == sorted_pairs(query_pairs(url@.query)),
        url@.is_web() && url@.site_reads() ==> {
            &&& parsed(key@) == Ok::<UrlView, Seq<char>>(canonical(url@))
            &&& normalized(canonical(url@)) == key@
        },
        url@.valid(),
{
    proof {
        law_sorting_keeps_pairs(query_pairs(url@.query));
    }
    let bare = url.without_fragment();
    let chars = chars_of(bare.path());
    let mut draft = if chars.len() > 1 && chars[chars.len() - 1] == '/' {
        bare.without_slashes()
    } else {
        bare.draft()
    };
    assert(draft@ == (UrlView { path: normal_path(bare@), ..bare@ }));
    if let Some(query) = bare.query() {
        let pairs = decode_pairs(query);
        draft = if pairs.len() == 0 {
            draft.without_query()
        } else {
            draft.with_pairs(&sort_pairs(pairs))
        };
    }
    proof {
        assert(query_pairs(normal_query(url@.query)) =~= sorted_pairs(query_pairs(url@.query)));
        if url@.is_web() {
            lemma_canonical_again(url@);
        }
    }
    draft.text()
}

proof fn lemma_web_path(path: Seq<char>)
    requires
        path.len() > 0,
        path[0] == '/',
    ensures
        (if ends_in_slash(path) {
            web_path(without_slashes(path))
        } else {
            path
        }) == web_path(without_slashes(path)),
{
    reveal_strlit("/");
    if path.len() == 1 {
        assert(path.drop_last().len() == 0);
        assert(without_slashes(path) == without_slashes(path.drop_last()));
        assert(path =~= "/"@);
    }
}

proof fn lemma_without_slashes(s: Seq<char>)
    ensures
        without_slashes(s).len() > 0 ==> without_slashes(s).last() != '/',
        without_slashes(s).is_prefix_of(s),
    decreases s.len(),
{
    if s.len() > 0 && s.last() == '/' {
        lemma_without_slashes(s.drop_last());
    }
}

/// The canonical form of a web address, part by part.
proof fn lemma_canonical(v: UrlView)
    requires
        v.valid(),
        v.is_web(),
    ensures
        canonical(v) == (UrlView {
            path: web_path(without_slashes(v.path)),
            query: normal_query(v.query),
            fragment: None,
            ..v
        }),
{
    lemma_web_path(v.path);
}

/// The canonical form of a web address is its own canonical form.
proof fn lemma_canonical_again(v: UrlView)
    requires
        v.valid(),
        v.is_web(),
        query_pairs(normal_query(v.query)) == sorted_pairs(query_pairs(v.query)),
    ensures
        canonical(canonical(v)) == canonical(v),
{
    let w = canonical(v);
    lemma_canonical(v);
    lemma_web_path(v.path);
    lemma_without_slashes(v.path);
    reveal_strlit("/");
    law_sorting_keeps_pairs(query_pairs(v.query));
    law_sorting_forgets_order(sorted_pairs(query_pairs(v.query)), query_pairs(v.query));
    assert(normal_query(w.query) == w.query);
    assert(w.path.len() > 1 ==> w.path.last() != '/');
    assert(canonical(w) =~= w);
}

/// Two web addresses are one page, remembered under one key, if they differ
/// only in the fragment, in slashes at the end of the path, in the order of the
/// query's parameters, and in whether a query without parameters is there.
pub proof fn law_same_page_same_key(a: UrlView, b: UrlView)
    requires
        a.valid(),
        b.valid(),
        a.is_web(),
        b.is_web(),
        a.prefix == b.prefix,
        without_slashes(a.path) == without_slashes(b.path),
        query_pairs(a.query).to_multiset() == query_pairs(b.query).to_multiset(),
    ensures
        normalized(a) == normalized(b),
{
    lemma_canonical(a);
    lemma_canonical(b);
    law_sorting_forgets_order(query_pairs(a.query), query_pairs(b.query));
    to_multiset_len(query_pairs(a.query));
    to_multiset_len(query_pairs(b.query));
    assert(normal_query(a.query) == normal_query(b.query));
    assert(normalized(a) =~= normalized(b));
}

/// Web addresses that share a key are one page: they have the same scheme, user,
/// host and port, the same path up to slashes at its end, and the same
/// parameters.
pub proof fn law_same_key_same_page(a: UrlView, b: UrlView)
    requires
        a.valid(),
        b.valid(),
        a.is_web(),
        b.is_web(),
        normalized(a) == normalized(b),
    ensures
        a.prefix == b.prefix,
        without_slashes(a.path) == without_slashes(b.path),
        query_pairs(a.query).to_multiset() == query_pairs(b.query).to_multiset(),
{
    lemma_canonical(a);
    lemma_canonical(b);
    lemma_key_parts(a);
    lemma_key_parts(b);
    lemma_text_parts(canonical(a), canonical(b));
    reveal_strlit("/");
    lemma_without_slashes(a.path);
    lemma_without_slashes(b.path);
    assert(without_slashes(a.path) == without_slashes(b.path));
    law_sorting_keeps_pairs(query_pairs(a.query));
    law_sorting_keeps_pairs(query_pairs(b.query));
    if query_pairs(a.query).len() == 0 {
        assert(query_pairs(a.query) =~= query_pairs(b.query));
    } else {
        lemma_encoded_injective(
            sorted_pairs(query_pairs(a.query)),
            sorted_pairs(query_pairs(b.query)),
        );
    }
}

/// The parts of a key are those of a web address.
proof fn lemma_key_parts(v: UrlView)
    requires
        v.valid(),
        v.is_web(),
    ensures
        canonical(v).path.len() > 0,
        canonical(v).path[0] == '/',
        !canonical(v).path.contains('?'),
{
    lemma_canonical(v);
    lemma_without_slashes(v.path);
    reveal_strlit("/");
    let path = canonical(v).path;
    if without_slashes(v.path).len() > 0 {
        assert forall|i: int| 0 <= i < path.len() implies path[i] == v.path[i] by {}
        if path.contains('?') {
            let i = choose|i: int| 0 <= i < path.len() && path[i] == '?';
            assert(v.path[i] == '?');
        }
    }
}

/// The text of a web address without fragment falls into its parts in one way.
proof fn lemma_text_parts(a: UrlView, b: UrlView)
    requires
        a.is_web(),
        b.is_web(),
        a.prefix == a.scheme + "://"@ + a.authority(),
        b.prefix == b.scheme + "://"@ + b.authority(),
        !a.authority().contains('/'),
        !b.authority().contains('/'),
        a.path.len() > 0 && a.path[0] == '/' && !a.path.contains('?'),
        b.path.len() > 0 && b.path[0] == '/' && !b.path.contains('?'),
        a.fragment is None,
        b.fragment is None,
        a.text() == b.text(),
    ensures
        a.prefix == b.prefix,
        a.path == b.path,
        a.query == b.query,
{
    reveal_strlit("http");
    reveal_strlit("https");
    reveal_strlit("://");
    let at = a.text();
    let bt = b.text();
    if a.scheme != b.scheme {
        if a.scheme.len() == 4 {
            assert(at[4] == ':');
            assert(bt[4] == 's');
        } else {
            assert(at[4] == 's');
            assert(bt[4] == ':');
        }
    }
    let n = a.scheme.len() + 3;
    let ar = a.path.drop_first() + part('?', a.query);
    let br = b.path.drop_first() + part('?', b.query);
    assert(at.skip(n as int) =~= a.authority() + seq!['/'] + ar);
    assert(bt.skip(n as int) =~= b.authority() + seq!['/'] + br);
    lemma_split(a.authority(), ar, b.authority(), br, '/');
    assert(!a.path.drop_first().contains('?')) by {
        if a.path.drop_first().contains('?') {
            let i = choose|i: int|
                0 <= i < a.path.drop_first().len() && a.path.drop_first()[i] == '?';
            assert(a.path[i + 1] == '?');
        }
    }
    assert(!b.path.drop_first().contains('?')) by {
        if b.path.drop_first().contains('?') {
            let i = choose|i: int|
                0 <= i < b.path.drop_first().len() && b.path.drop_first()[i] == '?';
            assert(b.path[i + 1] == '?');
        }
    }
    let ap = a.path.drop_first();
    let bp = b.path.drop_first();
    match (a.query, b.query) {
        (Some(aq), Some(bq)) => {
            assert(ar =~= ap + seq!['?'] + aq);
            assert(br =~= bp + seq!['?'] + bq);
            lemma_split(ap, aq, bp, bq, '?');
        },
        (Some(aq), None) => {
            assert(br =~= bp);
            assert(ar[ap.len() as int] == '?');
            assert(bp.contains('?'));
        },
        (None, Some(bq)) => {
            assert(ar =~= ap);
            assert(br[bp.len() as int] == '?');
            assert(ap.contains('?'));
        },
        (None, None) => {
            assert(ar =~= ap);
            assert(br =~= bp);
        },
    }
    assert(a.path =~= seq!['/'] + ap);
    assert(b.path =~= seq!['/'] + bp);
}

/// The fragment of a URL is no part of its key.
pub proof fn law_key_ignores_fragment(v: UrlView, fragment: Option<Seq<char>>)
    ensures
        normalized(UrlView { fragment, ..v }) == normalized(v),
{
    assert((UrlView { fragment, ..v }).without_fragment() == v.without_fragment());
}

/// The root path of a web address stays, and no other path of one keeps a
/// slash at its end.
pub proof fn law_only_root_keeps_its_slash(v: UrlView)
    requires
        v.valid(),
        v.is_web(),
    ensures
        normal_path(v).last() == '/' <==> normal_path(v) == "/"@,
        v.path == "/"@ ==> normal_path(v) == "/"@,
{
    lemma_web_path(v.path);
    lemma_without_slashes(v.path);
    reveal_strlit("/");
    assert("/"@.last() == '/');
}

/// The key of a web address is what stands before its path, the path up to the
/// slashes at its end, and the query's pairs in order, if there are any.
pub proof fn law_key_of_a_web_address(v: UrlView)
    requires
        v.valid(),
        v.scheme == "http"@ || v.scheme == "https"@,
    ensures
        exists|path: Seq<char>, query: Seq<char>|
            {
                &&& normalized(v) == #[trigger] (v.prefix + path + query)
                &&& path.len() > 0
                &&& path.is_prefix_of(v.path)
                &&& forall|i: int| path.len() <= i < v.path.len() ==> #[trigger] v.path[i] == '/'
                &&& path.len() > 1 ==> path.last() != '/'
                &&& query == match v.query {
                    Some(q) => if decoded(q).len() == 0 {
                        Seq::empty()
                    } else {
                        seq!['?'] + encoded(sorted_pairs(decoded(q)))
                    },
                    None => Seq::<char>::empty(),
                }
            },
{
    lemma_canonical(v);
    lemma_slashes(v.path);
    lemma_without_slashes(v.path);
    reveal_strlit("/");
    let path = web_path(without_slashes(v.path));
    let query = part('?', normal_query(v.query));
    assert(normalized(v) =~= v.prefix + path + query);
    if without_slashes(v.path).len() == 0 {
        assert(path =~= v.path.take(1));
    }
}

proof fn lemma_slashes(s: Seq<char>)
    ensures
        forall|i: int| without_slashes(s).len() <= i < s.len() ==> #[trigger] s[i] == '/',
    decreases s.len(),
{
    if s.len() > 0 && s.last() == '/' {
        lemma_slashes(s.drop_last());
        assert forall|i: int| without_slashes(s).len() <= i < s.len() implies #[trigger] s[i]
            == '/' by {
            if i < s.len() - 1 {
                assert(s.drop_last()[i] == s[i]);
            }
        }
    }
}

/// A URL of any scheme that has nothing to lose is its own key: no fragment, no
/// query, no slash at the end of its path but the only one, and no space there.
pub proof fn law_plain_url_is_its_own_key(v: UrlView)
    requires
        v.fragment is None,
        v.query is None,
        v.path.len() <= 1 || v.path.last() != '/',
        v.path.len() == 0 || v.path.last() != ' ',
    ensures
        normalized(v) == v.text(),
{
    assert(canonical(v) =~= v);
}

/// Every URL has a key, but for one that is too long and ends in a slash.
pub proof fn law_urls_have_keys(v: UrlView)
    ensures
        ({
            let bare = v.without_fragment();
            &&& encode_utf8(bare.prefix + bare.path).len() < 4294967296 ==> has_key(v)
            &&& bare.path.len() <= 1 || bare.path.last() != '/' ==> has_key(v)
        }),
{
}

/// Of a URL of any scheme whose path is not opaque and has no slash to lose, the
/// key keeps what stands before the query; the query keeps its pairs, in order.
pub proof fn law_key_of_any_url(v: UrlView)
    requires
        v.path.len() <= 1 || v.path.last() != '/',
        !v.opaque(),
    ensures
        normalized(v) == v.prefix + v.path + if query_pairs(v.query).len() == 0 {
            Seq::empty()
        } else {
            seq!['?'] + encoded(sorted_pairs(query_pairs(v.query)))
        },
{
    let bare = v.without_fragment();
    let query = if query_pairs(v.query).len() == 0 {
        Seq::empty()
    } else {
        seq!['?'] + encoded(sorted_pairs(query_pairs(v.query)))
    };
    assert(!(UrlView { path: normal_path(bare), ..bare }).opaque());
    assert(normalized(v) =~= v.prefix + v.path + query);
}

} // verus!
