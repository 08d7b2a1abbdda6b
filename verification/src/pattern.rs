//! The path patterns of `robots.txt` rules.
use crate::text::{begins_with, chars_of, find_char, find_from, lemma_first, occurs_at, stands_at};
use vstd::prelude::*;
use vstd::slice::slice_subrange;

verus! {

/// Whether `p` matches `t`, where a `*` in `p` stands for any run of
/// characters and every other character for itself. An anchored `p` has to
/// match the whole of `t`, any other `p` a beginning of it.
pub open spec fn glob(p: Seq<char>, t: Seq<char>, anchored: bool) -> bool
    decreases p.len(),
{
    if p.len() == 0 {
        !anchored || t.len() == 0
    } else if p[0] == '*' {
        exists|k: int| 0 <= k <= t.len() && glob(p.drop_first(), #[trigger] t.skip(k), anchored)
    } else {
        t.len() > 0 && t[0] == p[0] && glob(p.drop_first(), t.drop_first(), anchored)
    }
}

/// Whether a rule's pattern matches a target: a `$` that ends the pattern
/// anchors what stands before it.
pub open spec fn pattern_matches_spec(pattern: Seq<char>, target: Seq<char>) -> bool {
    if pattern.len() > 0 && pattern.last() == '$' {
        glob(pattern.drop_last(), target, true)
    } else {
        glob(pattern, target, false)
    }
}

/// A pattern's leading characters up to a `*` have to begin the target.
proof fn lemma_literal(q: Seq<char>, r: Seq<char>, t: Seq<char>, anchored: bool)
    requires
        forall|i: int| 0 <= i < q.len() ==> q[i] != '*',
    ensures
        glob(q + r, t, anchored) == (q.is_prefix_of(t) && glob(
            r,
            t.skip(q.len() as int),
            anchored,
        )),
    decreases q.len(),
{
    if q.len() == 0 {
        assert(q + r =~= r);
        assert(t.skip(0) =~= t);
    } else {
        let p = q + r;
        assert(p.drop_first() =~= q.drop_first() + r);
        assert(p[0] == q[0]);
        if t.len() > 0 {
            lemma_literal(q.drop_first(), r, t.drop_first(), anchored);
            if q.len() <= t.len() {
                assert(t.drop_first().skip(q.len() - 1) =~= t.skip(q.len() as int));
            }
            if t[0] == q[0] {
                if q.drop_first().is_prefix_of(t.drop_first()) {
                    assert forall|i: int| 0 <= i < q.len() implies q[i] == t[i] by {
                        if i > 0 {
                            assert(q.drop_first()[i - 1] == t.drop_first()[i - 1]);
                        }
                    }
                    assert(q =~= t.subrange(0, q.len() as int));
                }
                if q.is_prefix_of(t) {
                    assert(q.drop_first() =~= t.drop_first().subrange(0, q.len() - 1));
                }
            }
        }
    }
}

/// A `*` also stands for more than it has to.
proof fn lemma_absorb(r: Seq<char>, t: Seq<char>, i: int, j: int, anchored: bool)
    requires
        0 <= i <= j <= t.len(),
        r.len() == 0 && !anchored || r.len() > 0 && r[0] == '*',
        glob(r, t.skip(j), anchored),
    ensures
        glob(r, t.skip(i), anchored),
{
    if r.len() > 0 {
        let k = choose|k: int|
            0 <= k <= t.skip(j).len() && glob(
                r.drop_first(),
                #[trigger] t.skip(j).skip(k),
                anchored,
            );
        assert(t.skip(j).skip(k) =~= t.skip(i).skip(k + j - i));
    }
}

/// A `*` and the characters `q` after it match `t` where `q` stands in `t`
/// at some position after which the rest of the pattern matches.
proof fn lemma_star(q: Seq<char>, r: Seq<char>, t: Seq<char>, anchored: bool)
    requires
        forall|i: int| 0 <= i < q.len() ==> q[i] != '*',
    ensures
        glob(seq!['*'] + q + r, t, anchored) <==> exists|k: int| #[trigger]
            occurs_at(t, q, k) && glob(r, t.skip(k + q.len()), anchored),
{
    let p = seq!['*'] + q + r;
    assert(p.drop_first() =~= q + r);
    if glob(p, t, anchored) {
        let k = choose|k: int|
            0 <= k <= t.len() && glob(p.drop_first(), #[trigger] t.skip(k), anchored);
        lemma_literal(q, r, t.skip(k), anchored);
        assert(t.skip(k).subrange(0, q.len() as int) =~= t.subrange(k, k + q.len()));
        assert(t.skip(k).skip(q.len() as int) =~= t.skip(k + q.len()));
        assert(occurs_at(t, q, k));
    }
    if exists|k: int| #[trigger] occurs_at(t, q, k) && glob(r, t.skip(k + q.len()), anchored) {
        let k = choose|k: int| #[trigger]
            occurs_at(t, q, k) && glob(r, t.skip(k + q.len()), anchored);
        lemma_literal(q, r, t.skip(k), anchored);
        assert(t.skip(k).subrange(0, q.len() as int) =~= t.subrange(k, k + q.len()));
        assert(t.skip(k).skip(q.len() as int) =~= t.skip(k + q.len()));
        assert(glob(p.drop_first(), t.skip(k), anchored));
    }
}

/// Whether a rule's pattern matches a target: prefix match with `*` wildcards
/// and an optional `$` end anchor.
pub fn pattern_matches(pattern: &str, target: &str) -> (res: bool)
    ensures
        res == pattern_matches_spec(pattern@, target@),
{
    let whole = chars_of(pattern);
    let t_chars = chars_of(target);
    let t = t_chars.as_slice();
    let anchored = whole.len() > 0 && whole[whole.len() - 1] == '$';
    let end: usize = if anchored {
        whole.len() - 1
    } else {
        whole.len()
    };
    let p = slice_subrange(whole.as_slice(), 0, end);
    assert(anchored ==> p@ =~= pattern@.drop_last());
    assert(!anchored ==> p@ =~= pattern@);

    let star = find_char(p, '*');
    let head = slice_subrange(p, 0, star);
    proof {
        lemma_first(p@, '*');
        lemma_literal(head@, p@.skip(star as int), t@, anchored);
        assert(head@ + p@.skip(star as int) =~= p@);
    }
    if !begins_with(t, head) {
        return false;
    }
    let n = t.len();
    let mut at: usize = star;
    let mut pos: usize = star;
    while at < p.len()
        invariant
            at <= p@.len(),
            pos <= n,
            n == t@.len(),
            at < p@.len() ==> p@[at as int] == '*',
            glob(p@, t@, anchored) == glob(p@.skip(at as int), t@.skip(pos as int), anchored),
            pattern_matches_spec(pattern@, target@) == glob(p@, t@, anchored),
        decreases p@.len() - at,
    {
        let rest = slice_subrange(p, at + 1, p.len());
        let len = find_char(rest, '*');
        let part = slice_subrange(rest, 0, len);
        let next = at + 1 + len;
        let ghost r = p@.skip(next as int);
        let ghost u = t@.skip(pos as int);
        proof {
            lemma_first(rest@, '*');
            assert(p@.skip(at as int) =~= seq!['*'] + part@ + r);
            lemma_star(part@, r, u, anchored);
            assert forall|k: int| 0 <= k implies occurs_at(u, part@, k) == #[trigger] occurs_at(
                t@,
                part@,
                pos + k,
            ) by {
                if pos + k + part@.len() <= t@.len() {
                    assert(u.subrange(k, k + part@.len()) =~= t@.subrange(
                        pos + k,
                        pos + k + part@.len(),
                    ));
                }
            }
        }
        if next == p.len() && anchored {
            let fits = n - pos >= part.len() && stands_at(t, part, n - part.len());
            proof {
                let k = u.len() - part@.len();
                if fits {
                    assert(occurs_at(t@, part@, pos + k));
                    assert(occurs_at(u, part@, k) && glob(r, u.skip(k + part@.len()), anchored));
                }
                if glob(p@, t@, anchored) {
                    let j = choose|j: int| #[trigger]
                        occurs_at(u, part@, j) && glob(r, u.skip(j + part@.len()), anchored);
                    assert(j == k);
                    assert(occurs_at(t@, part@, pos + k));
                }
            }
            return fits;
        }
        match find_from(t, part, pos) {
            Some(found) => {
                proof {
                    let k = found - pos;
                    assert(occurs_at(t@, part@, found as int));
                    assert(occurs_at(u, part@, k) == occurs_at(t@, part@, pos + k));
                    assert(u.skip(k + part@.len()) =~= t@.skip(found + part@.len()));
                    if glob(p@, t@, anchored) {
                        let j = choose|j: int| #[trigger]
                            occurs_at(u, part@, j) && glob(r, u.skip(j + part@.len()), anchored);
                        assert(occurs_at(t@, part@, pos + j));
                        assert(k <= j);
                        lemma_absorb(r, u, k + part@.len(), j + part@.len(), anchored);
                    }
                    assert(next < p@.len() ==> p@[next as int] == rest@[len as int]);
                }
                pos = found + part.len();
                at = next;
            },
            None => {
                proof {
                    if glob(p@, t@, anchored) {
                        let j = choose|j: int| #[trigger]
                            occurs_at(u, part@, j) && glob(r, u.skip(j + part@.len()), anchored);
                        assert(occurs_at(t@, part@, pos + j));
                    }
                }
                return false;
            },
        }
    }
    !anchored || pos == n
}

/// A pattern without `*` and without a final `$` matches exactly the targets
/// that begin with it.
pub proof fn law_plain_pattern_is_prefix(pattern: Seq<char>, target: Seq<char>)
    requires
        !pattern.contains('*'),
        pattern.len() == 0 || pattern.last() != '$',
    ensures
        pattern_matches_spec(pattern, target) == pattern.is_prefix_of(target),
{
    lemma_literal(pattern, Seq::empty(), target, false);
    assert(pattern + Seq::<char>::empty() =~= pattern);
}

/// A pattern without `*` that ends in `$` matches exactly the target that
/// stands before the `$`.
pub proof fn law_anchored_plain_pattern_is_exact(pattern: Seq<char>, target: Seq<char>)
    requires
        !pattern.contains('*'),
        pattern.len() > 0,
        pattern.last() == '$',
    ensures
        pattern_matches_spec(pattern, target) == (target == pattern.drop_last()),
{
    let p = pattern.drop_last();
    assert forall|i: int| 0 <= i < p.len() implies p[i] != '*' by {
        assert(pattern[i] == p[i]);
        assert(pattern.contains(pattern[i]));
    }
    lemma_literal(p, Seq::empty(), target, true);
    assert(p + Seq::<char>::empty() =~= p);
    if p.is_prefix_of(target) && target.len() == p.len() {
        assert(target =~= p);
    }
    if target == p {
        assert(p =~= target.subrange(0, p.len() as int));
    }
}

/// A pattern that is not anchored matches with whatever a target goes on.
pub proof fn law_unanchored_pattern_keeps_matching(
    pattern: Seq<char>,
    target: Seq<char>,
    more: Seq<char>,
)
    requires
        pattern.len() == 0 || pattern.last() != '$',
        pattern_matches_spec(pattern, target),
    ensures
        pattern_matches_spec(pattern, target + more),
{
    lemma_extend(pattern, target, more);
}

proof fn lemma_extend(p: Seq<char>, t: Seq<char>, more: Seq<char>)
    requires
        glob(p, t, false),
    ensures
        glob(p, t + more, false),
    decreases p.len(),
{
    if p.len() > 0 {
        if p[0] == '*' {
            let k = choose|k: int|
                0 <= k <= t.len() && glob(p.drop_first(), #[trigger] t.skip(k), false);
            lemma_extend(p.drop_first(), t.skip(k), more);
            assert(t.skip(k) + more =~= (t + more).skip(k));
        } else {
            lemma_extend(p.drop_first(), t.drop_first(), more);
            assert(t.drop_first() + more =~= (t + more).drop_first());
        }
    }
}

/// A `*` stands for any run of characters: a pattern with one matches exactly
/// the targets that are made of what the part before it matches as a whole, of
/// anything, and of what the part after it matches. With the laws on patterns
/// without `*`, this says what every pattern matches.
pub proof fn law_star_stands_for_anything(
    before: Seq<char>,
    rest: Seq<char>,
    target: Seq<char>,
)
    ensures
        pattern_matches_spec(before + seq!['*'] + rest, target) <==> exists|i: int, j: int|
            {
                &&& 0 <= i <= j <= target.len()
                &&& pattern_matches_spec(before + seq!['$'], #[trigger] target.take(i))
                &&& pattern_matches_spec(rest, #[trigger] target.skip(j))
            },
{
    let whole = before + seq!['*'] + rest;
    let anchored = rest.len() > 0 && rest.last() == '$';
    let r = if anchored {
        rest.drop_last()
    } else {
        rest
    };
    let p = before + seq!['*'] + r;
    assert((before + seq!['$']).drop_last() =~= before);
    if anchored {
        assert(whole.drop_last() =~= p);
    } else {
        assert(p =~= whole);
        assert(whole.last() == if rest.len() > 0 {
            rest.last()
        } else {
            '*'
        });
    }
    assert(pattern_matches_spec(whole, target) == glob(p, target, anchored));
    if glob(p, target, anchored) {
        let (i, j) = lemma_split_at_star(before, r, target, anchored);
        assert(pattern_matches_spec(before + seq!['$'], target.take(i)));
        assert(pattern_matches_spec(rest, target.skip(j)));
    }
    if exists|i: int, j: int|
        {
            &&& 0 <= i <= j <= target.len()
            &&& pattern_matches_spec(before + seq!['$'], #[trigger] target.take(i))
            &&& pattern_matches_spec(rest, #[trigger] target.skip(j))
        } {
        let (i, j) = choose|i: int, j: int|
            {
                &&& 0 <= i <= j <= target.len()
                &&& pattern_matches_spec(before + seq!['$'], #[trigger] target.take(i))
                &&& pattern_matches_spec(rest, #[trigger] target.skip(j))
            };
        lemma_join_at_star(before, r, target, i, j, anchored);
    }
}

proof fn lemma_split_at_star(a: Seq<char>, r: Seq<char>, t: Seq<char>, anchored: bool) -> (res: (
    int,
    int,
))
    requires
        glob(a + seq!['*'] + r, t, anchored),
    ensures
        0 <= res.0 <= res.1 <= t.len(),
        glob(a, t.take(res.0), true),
        glob(r, t.skip(res.1), anchored),
    decreases a.len(),
{
    let p = a + seq!['*'] + r;
    if a.len() == 0 {
        assert(p.drop_first() =~= r);
        let k = choose|k: int|
            0 <= k <= t.len() && glob(p.drop_first(), #[trigger] t.skip(k), anchored);
        (0, k)
    } else {
        let b = a.drop_first();
        assert(p.drop_first() =~= b + seq!['*'] + r);
        assert(p[0] == a[0]);
        if a[0] == '*' {
            let k = choose|k: int|
                0 <= k <= t.len() && glob(p.drop_first(), #[trigger] t.skip(k), anchored);
            let (i, j) = lemma_split_at_star(b, r, t.skip(k), anchored);
            assert(t.skip(k).take(i) =~= t.take(k + i).skip(k));
            assert(t.skip(k).skip(j) =~= t.skip(k + j));
            assert(glob(b, t.take(k + i).skip(k), true));
            (k + i, k + j)
        } else {
            let (i, j) = lemma_split_at_star(b, r, t.drop_first(), anchored);
            assert(t.take(i + 1).drop_first() =~= t.drop_first().take(i));
            assert(t.drop_first().skip(j) =~= t.skip(j + 1));
            (i + 1, j + 1)
        }
    }
}

proof fn lemma_join_at_star(
    a: Seq<char>,
    r: Seq<char>,
    t: Seq<char>,
    i: int,
    j: int,
    anchored: bool,
)
    requires
        0 <= i <= j <= t.len(),
        glob(a, t.take(i), true),
        glob(r, t.skip(j), anchored),
    ensures
        glob(a + seq!['*'] + r, t, anchored),
    decreases a.len(),
{
    let p = a + seq!['*'] + r;
    if a.len() == 0 {
        assert(p.drop_first() =~= r);
        assert(glob(p.drop_first(), t.skip(j), anchored));
    } else {
        let b = a.drop_first();
        assert(p.drop_first() =~= b + seq!['*'] + r);
        assert(p[0] == a[0]);
        if a[0] == '*' {
            let k = choose|k: int|
                0 <= k <= t.take(i).len() && glob(b, #[trigger] t.take(i).skip(k), true);
            assert(t.take(i).skip(k) =~= t.skip(k).take(i - k));
            assert(t.skip(k).skip(j - k) =~= t.skip(j));
            lemma_join_at_star(b, r, t.skip(k), i - k, j - k, anchored);
            assert(glob(p.drop_first(), t.skip(k), anchored));
        } else {
            assert(t.take(i).drop_first() =~= t.drop_first().take(i - 1));
            assert(t.drop_first().skip(j - 1) =~= t.skip(j));
            lemma_join_at_star(b, r, t.drop_first(), i - 1, j - 1, anchored);
        }
    }
}

} // verus!
