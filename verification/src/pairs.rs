//! The name and value pairs of a query.
use vstd::prelude::*;
use vstd::relations::{sorted_by, total_ordering};
use vstd::seq_lib::{lemma_sorted_unique, to_multiset_len};
use vstd::utf8::{encode_utf8, encode_utf8_decode_utf8};

verus! {

/// A name and a value, as texts.
pub type Pair = (Seq<char>, Seq<char>);

/// The pairs that a vector holds, as texts.
pub open spec fn pair_texts(pairs: Seq<(String, String)>) -> Seq<Pair> {
    pairs.map_values(|p: (String, String)| (p.0@, p.1@))
}

/// The pairs that `form_urlencoded::parse` reads in a query.
pub uninterp spec fn decoded(query: Seq<char>) -> Seq<Pair>;

/// The hexadecimal digit of a number below 16.
pub open spec fn hex(n: int) -> char {
    if n < 10 {
        (('0' as u8 + n) as u8) as char
    } else {
        (('A' as u8 + n - 10) as u8) as char
    }
}

/// Whether a byte stands for itself in a query: a letter, a digit, or one of
/// `*`, `-`, `.` and `_`.
pub open spec fn stands_for_itself(b: u8) -> bool {
    ||| '0' as u8 <= b <= '9' as u8
    ||| 'A' as u8 <= b <= 'Z' as u8
    ||| 'a' as u8 <= b <= 'z' as u8
    ||| b == '*' as u8 || b == '-' as u8 || b == '.' as u8 || b == '_' as u8
}

/// How a byte is written in a query: as itself, a space as `+`, any other as
/// `%` and two hexadecimal digits.
pub open spec fn form_byte(b: u8) -> Seq<char> {
    if stands_for_itself(b) {
        seq![b as char]
    } else if b == ' ' as u8 {
        seq!['+']
    } else {
        seq!['%', hex(b as int / 16), hex(b as int % 16)]
    }
}

/// How bytes are written in a query.
pub open spec fn form_bytes(bytes: Seq<u8>) -> Seq<char>
    decreases bytes.len(),
{
    if bytes.len() == 0 {
        Seq::empty()
    } else {
        form_byte(bytes[0]) + form_bytes(bytes.drop_first())
    }
}

/// How a pair is written in a query.
pub open spec fn form_pair(p: Pair) -> Seq<char> {
    form_bytes(encode_utf8(p.0)) + seq!['='] + form_bytes(encode_utf8(p.1))
}

/// The query that is written for pairs: one after the other, with `&` between
/// them.
pub open spec fn encoded(pairs: Seq<Pair>) -> Seq<char>
    decreases pairs.len(),
{
    if pairs.len() == 0 {
        Seq::empty()
    } else if pairs.len() == 1 {
        form_pair(pairs[0])
    } else {
        form_pair(pairs[0]) + seq!['&'] + encoded(pairs.drop_first())
    }
}

/// `form_urlencoded::parse`, which `url::Url::query_pairs` applies to the
/// query: gives [`decoded`]. An empty query holds no pair.
#[verifier::external_body]
pub(crate) fn decode_pairs(query: &str) -> (res: Vec<(String, String)>)
    ensures
        pair_texts(res@) == decoded(query@),
        query@.len() == 0 ==> res@.len() == 0,
{
    url::form_urlencoded::parse(query.as_bytes()).into_owned().collect()
}

/// Whether the bytes `a` come before `b` in a dictionary, or are `b`.
pub open spec fn bytes_leq(a: Seq<u8>, b: Seq<u8>) -> bool
    decreases a.len(),
{
    a.len() == 0 || b.len() > 0 && (a[0] < b[0] || a[0] == b[0] && bytes_leq(
        a.drop_first(),
        b.drop_first(),
    ))
}

/// The order of texts: that of their bytes.
pub open spec fn text_leq(a: Seq<char>, b: Seq<char>) -> bool {
    bytes_leq(encode_utf8(a), encode_utf8(b))
}

/// The order of pairs: by name, then by value.
pub open spec fn pair_leq(a: Pair, b: Pair) -> bool {
    if a.0 == b.0 {
        text_leq(a.1, b.1)
    } else {
        text_leq(a.0, b.0)
    }
}

/// [`pair_leq`] as a function value.
pub open spec fn by_name_and_value() -> spec_fn(Pair, Pair) -> bool {
    |a: Pair, b: Pair| pair_leq(a, b)
}

/// Pairs in order.
pub open spec fn sorted_pairs(pairs: Seq<Pair>) -> Seq<Pair> {
    pairs.sort_by(by_name_and_value())
}

proof fn lemma_bytes_reflexive(a: Seq<u8>)
    ensures
        bytes_leq(a, a),
    decreases a.len(),
{
    if a.len() > 0 {
        lemma_bytes_reflexive(a.drop_first());
    }
}

proof fn lemma_bytes_antisymmetric(a: Seq<u8>, b: Seq<u8>)
    requires
        bytes_leq(a, b),
        bytes_leq(b, a),
    ensures
        a == b,
    decreases a.len(),
{
    if a.len() > 0 && b.len() > 0 {
        lemma_bytes_antisymmetric(a.drop_first(), b.drop_first());
        assert(a =~= seq![a[0]] + a.drop_first());
        assert(b =~= seq![b[0]] + b.drop_first());
    } else {
        assert(a =~= b);
    }
}

proof fn lemma_bytes_transitive(a: Seq<u8>, b: Seq<u8>, c: Seq<u8>)
    requires
        bytes_leq(a, b),
        bytes_leq(b, c),
    ensures
        bytes_leq(a, c),
    decreases a.len(),
{
    if a.len() > 0 && a[0] == b[0] && b[0] == c[0] {
        lemma_bytes_transitive(a.drop_first(), b.drop_first(), c.drop_first());
    }
}

proof fn lemma_bytes_total(a: Seq<u8>, b: Seq<u8>)
    ensures
        bytes_leq(a, b) || bytes_leq(b, a),
    decreases a.len(),
{
    if a.len() > 0 && b.len() > 0 && a[0] == b[0] {
        lemma_bytes_total(a.drop_first(), b.drop_first());
    }
}

proof fn lemma_text_antisymmetric(a: Seq<char>, b: Seq<char>)
    requires
        text_leq(a, b),
        text_leq(b, a),
    ensures
        a == b,
{
    lemma_bytes_antisymmetric(encode_utf8(a), encode_utf8(b));
    encode_utf8_decode_utf8(a);
    encode_utf8_decode_utf8(b);
}

proof fn lemma_pair_transitive(a: Pair, b: Pair, c: Pair)
    requires
        pair_leq(a, b),
        pair_leq(b, c),
    ensures
        pair_leq(a, c),
{
    if a.0 == b.0 && b.0 == c.0 {
        lemma_bytes_transitive(encode_utf8(a.1), encode_utf8(b.1), encode_utf8(c.1));
    } else {
        lemma_bytes_reflexive(encode_utf8(a.0));
        lemma_bytes_reflexive(encode_utf8(b.0));
        lemma_bytes_transitive(encode_utf8(a.0), encode_utf8(b.0), encode_utf8(c.0));
        if a.0 == c.0 {
            lemma_text_antisymmetric(a.0, b.0);
        }
    }
}

/// [`pair_leq`] is a total order.
pub proof fn lemma_pair_order()
    ensures
        total_ordering(by_name_and_value()),
{
    let leq = by_name_and_value();
    assert forall|a: Pair| #[trigger] leq(a, a) by {
        lemma_bytes_reflexive(encode_utf8(a.1));
    }
    assert forall|a: Pair, b: Pair| #[trigger] leq(a, b) && #[trigger] leq(b, a) implies a == b by {
        if a.0 == b.0 {
            lemma_text_antisymmetric(a.1, b.1);
        } else {
            lemma_text_antisymmetric(a.0, b.0);
        }
    }
    assert forall|a: Pair, b: Pair, c: Pair| #[trigger] leq(a, b) && #[trigger] leq(
        b,
        c,
    ) implies leq(a, c) by {
        lemma_pair_transitive(a, b, c);
    }
    assert forall|a: Pair, b: Pair| #[trigger] leq(a, b) || #[trigger] leq(b, a) by {
        lemma_bytes_total(encode_utf8(a.0), encode_utf8(b.0));
        lemma_bytes_total(encode_utf8(a.1), encode_utf8(b.1));
    }
}

/// Two texts that are split by a character, which the first halves do not hold,
/// are the same only if their halves are.
pub proof fn lemma_split(a: Seq<char>, b: Seq<char>, c: Seq<char>, d: Seq<char>, mark: char)
    requires
        a + seq![mark] + b == c + seq![mark] + d,
        !a.contains(mark),
        !c.contains(mark),
    ensures
        a == c,
        b == d,
{
    let s = a + seq![mark] + b;
    let t = c + seq![mark] + d;
    assert(s[a.len() as int] == mark);
    assert(t[c.len() as int] == mark);
    if a.len() < c.len() {
        assert(c[a.len() as int] == t[a.len() as int]);
        assert(c.contains(mark));
    }
    if c.len() < a.len() {
        assert(a[c.len() as int] == s[c.len() as int]);
        assert(a.contains(mark));
    }
    assert(a =~= s.take(a.len() as int));
    assert(c =~= t.take(c.len() as int));
    assert(b =~= s.skip(a.len() as int + 1));
    assert(d =~= t.skip(c.len() as int + 1));
}

/// What is written for a byte holds neither `=` nor `&`, and no other byte is
/// written so that it begins in the same way.
proof fn lemma_form_byte(a: u8, b: u8)
    ensures
        forall|i: int|
            0 <= i < form_byte(a).len() ==> form_byte(a)[i] != '=' && form_byte(a)[i] != '&',
        form_byte(a).len() > 0,
        form_byte(a)[0] == form_byte(b)[0] ==> form_byte(a).len() == form_byte(b).len(),
        form_byte(a) == form_byte(b) ==> a == b,
{
    let x = form_byte(a);
    let y = form_byte(b);
    if x == y && x.len() == 3 {
        assert(x[1] == y[1]);
        assert(x[2] == y[2]);
        assert(a as int / 16 == b as int / 16);
        assert(a as int % 16 == b as int % 16);
    }
    if x == y && x.len() == 1 {
        assert(x[0] == y[0]);
    }
}

proof fn lemma_form_bytes_plain(a: Seq<u8>)
    ensures
        !form_bytes(a).contains('='),
        !form_bytes(a).contains('&'),
    decreases a.len(),
{
    if a.len() > 0 {
        lemma_form_byte(a[0], a[0]);
        lemma_form_bytes_plain(a.drop_first());
        let rest = form_bytes(a.drop_first());
        assert forall|i: int| 0 <= i < form_bytes(a).len() implies form_bytes(a)[i] != '='
            && form_bytes(a)[i] != '&' by {
            let n = form_byte(a[0]).len();
            if i >= n {
                assert(rest.contains(rest[i - n]));
            }
        }
    }
}

proof fn lemma_form_bytes_injective(a: Seq<u8>, b: Seq<u8>)
    requires
        form_bytes(a) == form_bytes(b),
    ensures
        a == b,
    decreases a.len(),
{
    if a.len() > 0 {
        lemma_form_byte(a[0], a[0]);
    }
    if b.len() > 0 {
        lemma_form_byte(b[0], b[0]);
    }
    if a.len() > 0 && b.len() > 0 {
        let x = form_byte(a[0]);
        let y = form_byte(b[0]);
        assert(form_bytes(a)[0] == x[0]);
        assert(form_bytes(b)[0] == y[0]);
        lemma_form_byte(a[0], b[0]);
        assert(x =~= form_bytes(a).take(x.len() as int));
        assert(y =~= form_bytes(b).take(y.len() as int));
        assert(form_bytes(a.drop_first()) =~= form_bytes(a).skip(x.len() as int));
        assert(form_bytes(b.drop_first()) =~= form_bytes(b).skip(y.len() as int));
        lemma_form_bytes_injective(a.drop_first(), b.drop_first());
        assert(a =~= seq![a[0]] + a.drop_first());
        assert(b =~= seq![b[0]] + b.drop_first());
    } else {
        assert(a.len() > 0 ==> form_bytes(a).len() >= form_byte(a[0]).len());
        assert(b.len() > 0 ==> form_bytes(b).len() >= form_byte(b[0]).len());
        assert(a =~= b);
    }
}

proof fn lemma_form_pair(a: Pair)
    ensures
        !form_pair(a).contains('&'),
        form_pair(a).len() > 0,
{
    lemma_form_bytes_plain(encode_utf8(a.0));
    lemma_form_bytes_plain(encode_utf8(a.1));
    let name = form_bytes(encode_utf8(a.0));
    let value = form_bytes(encode_utf8(a.1));
    assert forall|i: int| 0 <= i < form_pair(a).len() implies form_pair(a)[i] != '&' by {
        if i < name.len() {
            assert(name.contains(name[i]));
        } else if i > name.len() {
            assert(value.contains(value[i - name.len() - 1]));
        }
    }
}

proof fn lemma_form_pair_injective(a: Pair, b: Pair)
    requires
        form_pair(a) == form_pair(b),
    ensures
        a == b,
{
    lemma_form_bytes_plain(encode_utf8(a.0));
    lemma_form_bytes_plain(encode_utf8(b.0));
    lemma_split(
        form_bytes(encode_utf8(a.0)),
        form_bytes(encode_utf8(a.1)),
        form_bytes(encode_utf8(b.0)),
        form_bytes(encode_utf8(b.1)),
        '=',
    );
    lemma_form_bytes_injective(encode_utf8(a.0), encode_utf8(b.0));
    lemma_form_bytes_injective(encode_utf8(a.1), encode_utf8(b.1));
    encode_utf8_decode_utf8(a.0);
    encode_utf8_decode_utf8(b.0);
    encode_utf8_decode_utf8(a.1);
    encode_utf8_decode_utf8(b.1);
}

/// Different pairs are written differently.
pub proof fn lemma_encoded_injective(a: Seq<Pair>, b: Seq<Pair>)
    requires
        encoded(a) == encoded(b),
    ensures
        a == b,
    decreases a.len(),
{
    if a.len() > 0 {
        lemma_form_pair(a[0]);
    }
    if b.len() > 0 {
        lemma_form_pair(b[0]);
    }
    if a.len() == 0 || b.len() == 0 {
        assert(a =~= b);
    } else if a.len() == 1 && b.len() == 1 {
        lemma_form_pair_injective(a[0], b[0]);
        assert(a =~= b);
    } else if a.len() == 1 {
        assert(encoded(b)[form_pair(b[0]).len() as int] == '&');
        assert(form_pair(a[0]).contains('&'));
    } else if b.len() == 1 {
        assert(encoded(a)[form_pair(a[0]).len() as int] == '&');
        assert(form_pair(b[0]).contains('&'));
    } else {
        lemma_split(
            form_pair(a[0]),
            encoded(a.drop_first()),
            form_pair(b[0]),
            encoded(b.drop_first()),
            '&',
        );
        lemma_form_pair_injective(a[0], b[0]);
        lemma_encoded_injective(a.drop_first(), b.drop_first());
        assert(a =~= seq![a[0]] + a.drop_first());
        assert(b =~= seq![b[0]] + b.drop_first());
    }
}

/// Sorting loses no pair and adds none.
pub proof fn law_sorting_keeps_pairs(pairs: Seq<Pair>)
    ensures
        sorted_pairs(pairs).to_multiset() == pairs.to_multiset(),
        sorted_pairs(pairs).len() == pairs.len(),
        sorted_by(sorted_pairs(pairs), by_name_and_value()),
{
    lemma_pair_order();
    pairs.lemma_sort_by_ensures(by_name_and_value());
    to_multiset_len(pairs);
    to_multiset_len(sorted_pairs(pairs));
}

/// The order of a query's pairs does not matter once they are sorted.
pub proof fn law_sorting_forgets_order(a: Seq<Pair>, b: Seq<Pair>)
    requires
        a.to_multiset() == b.to_multiset(),
    ensures
        sorted_pairs(a) == sorted_pairs(b),
{
    lemma_pair_order();
    a.lemma_sort_by_ensures(by_name_and_value());
    b.lemma_sort_by_ensures(by_name_and_value());
    lemma_sorted_unique(sorted_pairs(a), sorted_pairs(b), by_name_and_value());
}

/// Whether bytes come before others in a dictionary, or are the same.
fn bytes_in_order(a: &[u8], b: &[u8]) -> (res: bool)
    ensures
        res == bytes_leq(a@, b@),
{
    let mut i: usize = 0;
    assert(a@.skip(0) =~= a@);
    assert(b@.skip(0) =~= b@);
    loop
        invariant
            i <= a@.len(),
            i <= b@.len(),
            bytes_leq(a@, b@) == bytes_leq(a@.skip(i as int), b@.skip(i as int)),
        decreases a@.len() - i,
    {
        if i == a.len() {
            return true;
        }
        if i == b.len() {
            return false;
        }
        if a[i] != b[i] {
            return a[i] < b[i];
        }
        assert(a@.skip(i as int).drop_first() =~= a@.skip(i + 1));
        assert(b@.skip(i as int).drop_first() =~= b@.skip(i + 1));
        i += 1;
    }
}

/// Whether one pair comes before another, or is the same.
fn in_order(a: &(String, String), b: &(String, String)) -> (res: bool)
    ensures
        res == pair_leq((a.0@, a.1@), (b.0@, b.1@)),
{
    if a.0 == b.0 {
        bytes_in_order(a.1.as_str().as_bytes(), b.1.as_str().as_bytes())
    } else {
        bytes_in_order(a.0.as_str().as_bytes(), b.0.as_str().as_bytes())
    }
}

/// Puts two runs of pairs that are in order together, in order.
fn merge(l: &Vec<(String, String)>, r: &Vec<(String, String)>) -> (out: Vec<(String, String)>)
    requires
        sorted_by(pair_texts(l@), by_name_and_value()),
        sorted_by(pair_texts(r@), by_name_and_value()),
    ensures
        sorted_by(pair_texts(out@), by_name_and_value()),
        pair_texts(out@).to_multiset() == (pair_texts(l@) + pair_texts(r@)).to_multiset(),
{
    let mut out: Vec<(String, String)> = Vec::new();
    let mut i: usize = 0;
    let mut j: usize = 0;
    let ghost leq = by_name_and_value();
    let ghost lt = pair_texts(l@);
    let ghost rt = pair_texts(r@);
    proof {
        assert(pair_texts(out@) =~= Seq::empty());
        assert(lt.take(0) + rt.take(0) =~= Seq::empty());
    }
    while i < l.len() || j < r.len()
        invariant
            leq == by_name_and_value(),
            lt == pair_texts(l@),
            rt == pair_texts(r@),
            i <= l@.len(),
            j <= r@.len(),
            sorted_by(lt, leq),
            sorted_by(rt, leq),
            sorted_by(pair_texts(out@), leq),
            pair_texts(out@).to_multiset() == (lt.take(i as int) + rt.take(j as int)).to_multiset(),
            forall|a: int, b: int|
                0 <= a < out@.len() && i <= b < lt.len() ==> #[trigger] leq(
                    pair_texts(out@)[a],
                    lt[b],
                ),
            forall|a: int, b: int|
                0 <= a < out@.len() && j <= b < rt.len() ==> #[trigger] leq(
                    pair_texts(out@)[a],
                    rt[b],
                ),
        decreases l@.len() - i + r@.len() - j,
    {
        let ghost before = pair_texts(out@);
        let ghost taken = lt.take(i as int) + rt.take(j as int);
        let left = j == r.len() || i < l.len() && in_order(&l[i], &r[j]);
        proof {
            lemma_pair_order();
            vstd::seq_lib::to_multiset_build(before, if left {
                lt[i as int]
            } else {
                rt[j as int]
            });
        }
        if left {
            proof {
                let x = lt[i as int];
                assert(lt.take(i + 1) =~= lt.take(i as int).push(x));
                vstd::seq_lib::lemma_multiset_commutative(lt.take(i as int), rt.take(j as int));
                vstd::seq_lib::lemma_multiset_commutative(lt.take(i + 1), rt.take(j as int));
                vstd::seq_lib::to_multiset_build(lt.take(i as int), x);
                assert forall|b: int| i <= b < lt.len() implies #[trigger] leq(x, lt[b]) by {}
                assert forall|b: int| j <= b < rt.len() implies #[trigger] leq(x, rt[b]) by {
                    assert(leq(x, rt[j as int]));
                    assert(b > j ==> leq(rt[j as int], rt[b]));
                }
            }
            out.push((l[i].0.clone(), l[i].1.clone()));
            i += 1;
            assert(pair_texts(out@) =~= before.push(lt[i - 1]));
        } else {
            proof {
                let x = rt[j as int];
                assert(rt.take(j + 1) =~= rt.take(j as int).push(x));
                vstd::seq_lib::lemma_multiset_commutative(lt.take(i as int), rt.take(j as int));
                vstd::seq_lib::lemma_multiset_commutative(lt.take(i as int), rt.take(j + 1));
                vstd::seq_lib::to_multiset_build(rt.take(j as int), x);
                assert forall|b: int| j <= b < rt.len() implies #[trigger] leq(x, rt[b]) by {}
                assert forall|b: int| i <= b < lt.len() implies #[trigger] leq(x, lt[b]) by {
                    assert(leq(x, lt[i as int]) || leq(lt[i as int], x));
                    assert(b > i ==> leq(lt[i as int], lt[b]));
                }
            }
            out.push((r[j].0.clone(), r[j].1.clone()));
            j += 1;
            assert(pair_texts(out@) =~= before.push(rt[j - 1]));
        }
    }
    assert(lt.take(i as int) =~= lt);
    assert(rt.take(j as int) =~= rt);
    out
}

/// Sorts pairs by name, then by value.
pub fn sort_pairs(pairs: Vec<(String, String)>) -> (res: Vec<(String, String)>)
    ensures
        pair_texts(res@) == sorted_pairs(pair_texts(pairs@)),
    decreases pairs@.len(),
{
    let ghost all = pair_texts(pairs@);
    proof {
        lemma_pair_order();
        all.lemma_sort_by_ensures(by_name_and_value());
    }
    if pairs.len() <= 1 {
        proof {
            lemma_sorted_unique(all, sorted_pairs(all), by_name_and_value());
        }
        return pairs;
    }
    let mut left = pairs;
    let mid = left.len() / 2;
    let right = left.split_off(mid);
    let ghost lt = pair_texts(left@);
    let ghost rt = pair_texts(right@);
    let l = sort_pairs(left);
    let r = sort_pairs(right);
    proof {
        lt.lemma_sort_by_ensures(by_name_and_value());
        rt.lemma_sort_by_ensures(by_name_and_value());
    }
    let out = merge(&l, &r);
    proof {
        assert(all =~= lt + rt);
        vstd::seq_lib::lemma_multiset_commutative(lt, rt);
        vstd::seq_lib::lemma_multiset_commutative(pair_texts(l@), pair_texts(r@));
        lemma_sorted_unique(pair_texts(out@), sorted_pairs(all), by_name_and_value());
    }
    out
}

/// Texts are ordered as in a dictionary of bytes: at the first difference the
/// smaller byte decides, and a text comes before those that go on from it.
pub proof fn law_byte_order(
    same: Seq<u8>,
    smaller: u8,
    larger: u8,
    rest: Seq<u8>,
    other: Seq<u8>,
)
    requires
        smaller < larger,
    ensures
        bytes_leq(same, same + rest),
        rest.len() > 0 ==> !bytes_leq(same + rest, same),
        bytes_leq(same + seq![smaller] + rest, same + seq![larger] + other),
        !bytes_leq(same + seq![larger] + other, same + seq![smaller] + rest),
    decreases same.len(),
{
    let a = same + seq![smaller] + rest;
    let b = same + seq![larger] + other;
    let c = same + rest;
    if same.len() > 0 {
        let tail = same.drop_first();
        law_byte_order(tail, smaller, larger, rest, other);
        assert(a.drop_first() =~= tail + seq![smaller] + rest);
        assert(b.drop_first() =~= tail + seq![larger] + other);
        assert(c.drop_first() =~= tail + rest);
    }
}

/// Pairs are ordered by their names, and under one name by their values, as the
/// bytes of these are.
pub proof fn law_pair_order(a: Pair, b: Pair)
    ensures
        a.0 != b.0 ==> (pair_leq(a, b) <==> bytes_leq(encode_utf8(a.0), encode_utf8(b.0))),
        a.0 == b.0 ==> (pair_leq(a, b) <==> bytes_leq(encode_utf8(a.1), encode_utf8(b.1))),
        by_name_and_value()(a, b) <==> pair_leq(a, b),
{
}

/// A query is written pair by pair: an `&` between two, an `=` between the name
/// and the value, and each text by its bytes.
pub proof fn law_written_queries(pairs: Seq<Pair>, last: Pair)
    ensures
        encoded(Seq::empty()) == Seq::<char>::empty(),
        encoded(seq![last]) == form_bytes(encode_utf8(last.0)) + seq!['='] + form_bytes(
            encode_utf8(last.1),
        ),
        pairs.len() > 0 ==> encoded(pairs.push(last)) == encoded(pairs) + seq!['&'] + encoded(
            seq![last],
        ),
    decreases pairs.len(),
{
    if pairs.len() == 1 {
        assert(pairs.push(last).drop_first() =~= seq![last]);
        assert(encoded(pairs.push(last)) =~= encoded(pairs) + seq!['&'] + encoded(seq![last]));
    } else if pairs.len() > 1 {
        let rest = pairs.drop_first();
        law_written_queries(rest, last);
        assert(pairs.push(last).drop_first() =~= rest.push(last));
        assert(encoded(pairs.push(last)) =~= encoded(pairs) + seq!['&'] + encoded(seq![last]));
    }
}

} // verus!
