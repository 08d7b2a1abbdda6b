//! Text as a sequence of characters: searching, trimming, splitting.
use vstd::prelude::*;
use vstd::slice::slice_subrange;
use vstd::utf8::encode_utf8;

verus! {

/// `String::push` appends one character.
pub assume_specification[ String::push ](s: &mut String, c: char)
    ensures
        final(s)@ == old(s)@.push(c),
;

/// The characters of a text.
pub fn chars_of(s: &str) -> (chars: Vec<char>)
    ensures
        chars@ == s@,
{
    let mut chars: Vec<char> = Vec::new();
    for c in it: s.chars()
        invariant
            it.seq() == s@,
            chars@ == s@.take(it.index() as int),
    {
        chars.push(c);
    }
    chars
}

/// The text that a run of characters spells.
pub fn string_of(chars: &[char]) -> (s: String)
    ensures
        s@ == chars@,
{
    let mut s = String::new();
    for i in 0..chars.len()
        invariant
            s@ == chars@.take(i as int),
    {
        s.push(chars[i]);
    }
    s
}

/// Whether two runs of characters are the same.
pub fn same(a: &[char], b: &[char]) -> (res: bool)
    ensures
        res == (a@ == b@),
{
    if a.len() != b.len() {
        return false;
    }
    for i in 0..a.len()
        invariant
            a@.len() == b@.len(),
            forall|j: int| 0 <= j < i ==> a@[j] == b@[j],
    {
        if a[i] != b[i] {
            return false;
        }
    }
    assert(a@ =~= b@);
    true
}

/// Whether a run of characters spells a given text.
pub fn spells(a: &[char], s: &str) -> (res: bool)
    ensures
        res == (a@ == s@),
{
    same(a, chars_of(s).as_slice())
}

/// Whether two texts are the same.
pub fn same_text(a: &str, b: &str) -> (res: bool)
    ensures
        res == (a@ == b@),
{
    spells(chars_of(a).as_slice(), b)
}

/// The characters with the Unicode property `White_Space`.
pub open spec fn white_space(c: char) -> bool {
    ||| '\u{9}' <= c <= '\u{d}'
    ||| c == '\u{20}'
    ||| c == '\u{85}'
    ||| c == '\u{a0}'
    ||| c == '\u{1680}'
    ||| '\u{2000}' <= c <= '\u{200a}'
    ||| c == '\u{2028}'
    ||| c == '\u{2029}'
    ||| c == '\u{202f}'
    ||| c == '\u{205f}'
    ||| c == '\u{3000}'
}

/// Whether a character is white space.
pub fn is_white_space(c: char) -> (res: bool)
    ensures
        res == white_space(c),
{
    ('\u{9}' <= c && c <= '\u{d}') || c == '\u{20}' || c == '\u{85}' || c == '\u{a0}' || c
        == '\u{1680}' || ('\u{2000}' <= c && c <= '\u{200a}') || c == '\u{2028}' || c == '\u{2029}'
        || c == '\u{202f}' || c == '\u{205f}' || c == '\u{3000}'
}

/// `s` without the white space it begins with.
pub open spec fn trim_start(s: Seq<char>) -> Seq<char>
    decreases s.len(),
{
    if s.len() > 0 && white_space(s[0]) {
        trim_start(s.drop_first())
    } else {
        s
    }
}

/// `s` without the white space it ends with.
pub open spec fn trim_end(s: Seq<char>) -> Seq<char>
    decreases s.len(),
{
    if s.len() > 0 && white_space(s.last()) {
        trim_end(s.drop_last())
    } else {
        s
    }
}

/// `s` without white space around it.
pub open spec fn trimmed(s: Seq<char>) -> Seq<char> {
    trim_end(trim_start(s))
}

/// Removes the white space around a text.
pub fn trim(s: &[char]) -> (res: &[char])
    ensures
        res@ == trimmed(s@),
{
    let n = s.len();
    let mut from: usize = 0;
    assert(s@.skip(0) =~= s@);
    while from < n && is_white_space(s[from])
        invariant
            n == s@.len(),
            from <= n,
            trim_start(s@.skip(from as int)) == trim_start(s@),
        decreases n - from,
    {
        assert(s@.skip(from as int).drop_first() =~= s@.skip(from + 1));
        from += 1;
    }
    let mut to: usize = n;
    assert(s@.skip(from as int) =~= s@.subrange(from as int, to as int));
    while to > from && is_white_space(s[to - 1])
        invariant
            n == s@.len(),
            from <= to <= n,
            trim_end(s@.subrange(from as int, to as int)) == trimmed(s@),
        decreases to,
    {
        assert(s@.subrange(from as int, to as int).drop_last() =~= s@.subrange(
            from as int,
            to - 1,
        ));
        to -= 1;
    }
    slice_subrange(s, from, to)
}

/// The bytes of a text are those of its parts.
pub proof fn lemma_bytes_of_parts(a: Seq<char>, b: Seq<char>)
    ensures
        encode_utf8(a + b) == encode_utf8(a) + encode_utf8(b),
    decreases a.len(),
{
    if a.len() == 0 {
        assert(a + b =~= b);
        assert(encode_utf8(a) + encode_utf8(b) =~= encode_utf8(b));
    } else {
        assert((a + b).drop_first() =~= a.drop_first() + b);
        lemma_bytes_of_parts(a.drop_first(), b);
        assert(encode_utf8(a + b) =~= encode_utf8(a) + encode_utf8(b));
    }
}

/// Trimming makes a text no longer.
pub proof fn lemma_trimmed_bytes(s: Seq<char>)
    ensures
        encode_utf8(trimmed(s)).len() <= encode_utf8(s).len(),
{
    lemma_trim_start_bytes(s);
    lemma_trim_end_bytes(trim_start(s));
}

proof fn lemma_trim_start_bytes(s: Seq<char>)
    ensures
        encode_utf8(trim_start(s)).len() <= encode_utf8(s).len(),
    decreases s.len(),
{
    if s.len() > 0 && white_space(s[0]) {
        lemma_trim_start_bytes(s.drop_first());
    }
}

proof fn lemma_trim_end_bytes(s: Seq<char>)
    ensures
        encode_utf8(trim_end(s)).len() <= encode_utf8(s).len(),
    decreases s.len(),
{
    if s.len() > 0 && white_space(s.last()) {
        lemma_trim_end_bytes(s.drop_last());
        lemma_bytes_of_parts(s.drop_last(), seq![s.last()]);
        assert(s =~= s.drop_last() + seq![s.last()]);
    }
}

/// A capital ASCII letter as its small letter, any other character as it is.
pub open spec fn lower(c: char) -> char {
    if 'A' <= c <= 'Z' {
        ((c as u8) + 32) as char
    } else {
        c
    }
}

/// A text with its capital ASCII letters made small.
pub open spec fn lowered(s: Seq<char>) -> Seq<char> {
    s.map_values(|c: char| lower(c))
}

/// Makes a capital ASCII letter small.
pub fn to_lower(c: char) -> (res: char)
    ensures
        res == lower(c),
{
    if 'A' <= c && c <= 'Z' {
        ((c as u8) + 32) as char
    } else {
        c
    }
}

/// Makes the capital ASCII letters of a text small.
pub fn lowercase(s: &[char]) -> (res: Vec<char>)
    ensures
        res@ == lowered(s@),
{
    let mut res: Vec<char> = Vec::new();
    for i in 0..s.len()
        invariant
            res@ == lowered(s@.take(i as int)),
    {
        res.push(to_lower(s[i]));
        assert(lowered(s@.take(i + 1)) =~= lowered(s@.take(i as int)).push(lower(s@[i as int])));
    }
    assert(s@.take(s@.len() as int) =~= s@);
    res
}

/// Where `c` first stands in `s`; the length of `s` where it does not.
pub open spec fn first(s: Seq<char>, c: char) -> int
    decreases s.len(),
{
    if s.len() == 0 || s[0] == c {
        0
    } else {
        1 + first(s.drop_first(), c)
    }
}

/// What characterises [`first`].
pub proof fn lemma_first(s: Seq<char>, c: char)
    ensures
        0 <= first(s, c) <= s.len(),
        first(s, c) < s.len() ==> s[first(s, c)] == c,
        forall|i: int| 0 <= i < first(s, c) ==> s[i] != c,
    decreases s.len(),
{
    if s.len() != 0 && s[0] != c {
        lemma_first(s.drop_first(), c);
        assert forall|i: int| 0 <= i < first(s, c) implies s[i] != c by {
            if i > 0 {
                assert(s[i] == s.drop_first()[i - 1]);
            }
        }
    }
}

/// Finds where a character first stands.
pub fn find_char(s: &[char], c: char) -> (res: usize)
    ensures
        res == first(s@, c),
        res <= s@.len(),
{
    let mut i: usize = 0;
    assert(s@.skip(0) =~= s@);
    while i < s.len() && s[i] != c
        invariant
            i <= s@.len(),
            first(s@, c) == i + first(s@.skip(i as int), c),
        decreases s@.len() - i,
    {
        assert(s@.skip(i as int).drop_first() =~= s@.skip(i + 1));
        i += 1;
    }
    i
}

/// [`first`] is the one position that [`lemma_first`] describes.
pub proof fn lemma_first_unique(s: Seq<char>, c: char, k: int)
    requires
        0 <= k <= s.len(),
        k < s.len() ==> s[k] == c,
        forall|i: int| 0 <= i < k ==> s[i] != c,
    ensures
        first(s, c) == k,
{
    lemma_first(s, c);
    if first(s, c) < k {
        assert(s[first(s, c)] == c);
    }
}

/// Small letters stand where a text has letters: other characters, and white
/// space, stay where they are.
pub proof fn lemma_lowered(s: Seq<char>, c: char)
    requires
        !('A' <= c <= 'Z') && !('a' <= c <= 'z'),
    ensures
        first(lowered(s), c) == first(s, c),
        lowered(trimmed(s)) == trimmed(lowered(s)),
{
    lemma_first(s, c);
    lemma_first_unique(lowered(s), c, first(s, c));
    lemma_lowered_start(s);
    lemma_lowered_end(trim_start(s));
}

proof fn lemma_lowered_start(s: Seq<char>)
    ensures
        lowered(trim_start(s)) == trim_start(lowered(s)),
    decreases s.len(),
{
    if s.len() > 0 && white_space(s[0]) {
        assert(lowered(s).drop_first() =~= lowered(s.drop_first()));
        lemma_lowered_start(s.drop_first());
    }
}

proof fn lemma_lowered_end(s: Seq<char>)
    ensures
        lowered(trim_end(s)) == trim_end(lowered(s)),
    decreases s.len(),
{
    if s.len() > 0 && white_space(s.last()) {
        assert(lowered(s).drop_last() =~= lowered(s.drop_last()));
        lemma_lowered_end(s.drop_last());
    }
}

/// Whether `p` stands in `s` at position `k`.
pub open spec fn occurs_at(s: Seq<char>, p: Seq<char>, k: int) -> bool {
    0 <= k && k + p.len() <= s.len() && s.subrange(k, k + p.len()) == p
}

/// Whether `p` stands somewhere in `s`.
pub open spec fn occurs(s: Seq<char>, p: Seq<char>) -> bool {
    exists|k: int| occurs_at(s, p, k)
}

/// Whether one text stands in another at a given position.
pub fn stands_at(s: &[char], p: &[char], k: usize) -> (res: bool)
    requires
        k <= s@.len(),
    ensures
        res == occurs_at(s@, p@, k as int),
{
    if s.len() - k < p.len() {
        return false;
    }
    same(slice_subrange(s, k, k + p.len()), p)
}

/// Whether a text begins with another.
pub fn begins_with(s: &[char], p: &[char]) -> (res: bool)
    ensures
        res == p@.is_prefix_of(s@),
{
    let res = stands_at(s, p, 0);
    assert(p@.is_prefix_of(s@) == occurs_at(s@, p@, 0)) by {
        if p@.is_prefix_of(s@) {
            assert(s@.subrange(0, p@.len() as int) =~= p@);
        }
    }
    res
}

/// Finds the first position from `from` on at which `p` stands in `s`.
pub fn find_from(s: &[char], p: &[char], from: usize) -> (res: Option<usize>)
    requires
        from <= s@.len(),
    ensures
        match res {
            Some(k) => {
                &&& from <= k
                &&& occurs_at(s@, p@, k as int)
                &&& forall|j: int| from <= j < k ==> !occurs_at(s@, p@, j)
            },
            None => forall|j: int| from <= j ==> !occurs_at(s@, p@, j),
        },
{
    let mut k: usize = from;
    loop
        invariant
            from <= k <= s@.len(),
            forall|j: int| from <= j < k ==> !occurs_at(s@, p@, j),
        decreases s@.len() - k,
    {
        if stands_at(s, p, k) {
            return Some(k);
        }
        if k == s.len() {
            return None;
        }
        k += 1;
    }
}

/// Whether one text stands somewhere in another.
pub fn contains(s: &[char], p: &[char]) -> (res: bool)
    ensures
        res == occurs(s@, p@),
{
    match find_from(s, p, 0) {
        Some(k) => true,
        None => {
            assert(!occurs(s@, p@)) by {
                if occurs(s@, p@) {
                    let k = choose|k: int| occurs_at(s@, p@, k);
                    assert(0 <= k);
                }
            }
            false
        },
    }
}

/// A line without the `\r` of a `\r\n` line ending.
pub open spec fn without_cr(line: Seq<char>) -> Seq<char> {
    if line.len() > 0 && line.last() == '\r' {
        line.drop_last()
    } else {
        line
    }
}

/// The lines of a text. A line ends with `\n` or `\r\n`; the last line may go
/// without a line ending.
pub open spec fn lines(s: Seq<char>) -> Seq<Seq<char>>
    decreases s.len(),
    via lines_end
{
    if s.len() == 0 {
        Seq::empty()
    } else if first(s, '\n') == s.len() {
        seq![s]
    } else {
        seq![without_cr(s.take(first(s, '\n')))] + lines(s.skip(first(s, '\n') + 1))
    }
}

#[via_fn]
proof fn lines_end(s: Seq<char>) {
    lemma_first(s, '\n');
}

/// The texts that a vector of strings holds.
pub open spec fn string_texts(v: Seq<String>) -> Seq<Seq<char>> {
    v.map_values(|s: String| s@)
}

/// The texts that a vector of runs of characters holds.
pub open spec fn texts(v: Seq<Vec<char>>) -> Seq<Seq<char>> {
    v.map_values(|t: Vec<char>| t@)
}

/// Splits a text into its lines.
pub fn split_lines(s: &[char]) -> (res: Vec<Vec<char>>)
    ensures
        texts(res@) == lines(s@),
{
    let n = s.len();
    let mut res: Vec<Vec<char>> = Vec::new();
    let mut at: usize = 0;
    assert(s@.skip(0) =~= s@);
    assert(texts(res@) + lines(s@) =~= lines(s@));
    while at < n
        invariant
            n == s@.len(),
            at <= n,
            texts(res@) + lines(s@.skip(at as int)) == lines(s@),
        decreases n - at,
    {
        let rest = slice_subrange(s, at, n);
        assert(rest@ =~= s@.skip(at as int));
        let end = find_char(rest, '\n');
        proof {
            lemma_first(rest@, '\n');
        }
        let ghost before = texts(res@);
        if end == rest.len() {
            res.push(vstd::slice::slice_to_vec(rest));
            assert(texts(res@) =~= before.push(rest@));
            assert(before.push(rest@) =~= before + seq![rest@]);
            at = n;
            assert(s@.skip(at as int).len() == 0);
            assert(texts(res@) + lines(s@.skip(at as int)) =~= texts(res@));
        } else {
            let mut to: usize = end;
            if to > 0 && rest[to - 1] == '\r' {
                to -= 1;
            }
            let line = slice_subrange(rest, 0, to);
            assert(line@ =~= without_cr(rest@.take(end as int)));
            res.push(vstd::slice::slice_to_vec(line));
            assert(texts(res@) =~= before.push(line@));
            assert(rest@.skip(end + 1) =~= s@.skip(at + end + 1));
            assert(before + (seq![line@] + lines(s@.skip(at + end + 1))) =~= texts(res@) + lines(
                s@.skip(at + end + 1),
            ));
            at = at + end + 1;
        }
    }
    assert(s@.skip(at as int).len() == 0);
    assert(texts(res@) + lines(s@.skip(at as int)) =~= texts(res@));
    res
}

/// White space is what Unicode lists as such: the controls from tab to carriage
/// return, the space, the next-line control, and the spaces and separators
/// outside ASCII.
pub proof fn law_white_space(c: char)
    ensures
        white_space(c) <==> ({
            let n = c as u32;
            ||| 9 <= n <= 13 || n == 32 || n == 133 || n == 160 || n == 5760
            ||| 8192 <= n <= 8202 || n == 8232 || n == 8233 || n == 8239 || n == 8287
            ||| n == 12288
        }),
{
}

/// Trimming takes white space away at both ends, all of it, and nothing else.
pub proof fn law_trimming(s: Seq<char>)
    ensures
        exists|i: int, j: int|
            {
                &&& 0 <= i <= j <= s.len()
                &&& trimmed(s) == #[trigger] s.subrange(i, j)
                &&& forall|k: int| 0 <= k < i || j <= k < s.len() ==> white_space(#[trigger] s[k])
                &&& i < j ==> !white_space(s[i]) && !white_space(s[j - 1])
            },
{
    let i = lemma_trim_start_at(s);
    let rest = trim_start(s);
    let n = lemma_trim_end_at(rest);
    let j = i + n;
    if n == 0 && i < s.len() {
        assert(rest[0] == s[i]);
        assert(white_space(rest[0]));
    }
    assert(trimmed(s) =~= s.subrange(i, j));
    assert forall|k: int| 0 <= k < i || j <= k < s.len() implies white_space(#[trigger] s[k]) by {
        if k >= j {
            assert(rest[k - i] == s[k]);
        }
    }
    if i < j {
        assert(rest[0] == s[i]);
        assert(rest[n - 1] == s[j - 1]);
    }
}

proof fn lemma_trim_start_at(s: Seq<char>) -> (i: int)
    ensures
        0 <= i <= s.len(),
        trim_start(s) == s.skip(i),
        forall|k: int| 0 <= k < i ==> white_space(#[trigger] s[k]),
        i < s.len() ==> !white_space(s[i]),
    decreases s.len(),
{
    if s.len() > 0 && white_space(s[0]) {
        let rest = s.drop_first();
        let i = lemma_trim_start_at(rest);
        assert(rest.skip(i) =~= s.skip(i + 1));
        assert forall|k: int| 0 <= k < i + 1 implies white_space(#[trigger] s[k]) by {
            if k > 0 {
                assert(rest[k - 1] == s[k]);
            }
        }
        if i + 1 < s.len() {
            assert(rest[i] == s[i + 1]);
        }
        i + 1
    } else {
        assert(s.skip(0) =~= s);
        0
    }
}

proof fn lemma_trim_end_at(s: Seq<char>) -> (n: int)
    ensures
        0 <= n <= s.len(),
        trim_end(s) == s.take(n),
        forall|k: int| n <= k < s.len() ==> white_space(#[trigger] s[k]),
        n > 0 ==> !white_space(s[n - 1]),
    decreases s.len(),
{
    if s.len() > 0 && white_space(s.last()) {
        let rest = s.drop_last();
        let n = lemma_trim_end_at(rest);
        assert(rest.take(n) =~= s.take(n));
        assert forall|k: int| n <= k < s.len() implies white_space(#[trigger] s[k]) by {
            if k < rest.len() {
                assert(rest[k] == s[k]);
            }
        }
        if n > 0 {
            assert(rest[n - 1] == s[n - 1]);
        }
        n
    } else {
        assert(s.take(s.len() as int) =~= s);
        s.len() as int
    }
}

/// Each capital ASCII letter becomes its small letter, which comes 32 code
/// points later, and every other character stays.
pub proof fn law_lowering(s: Seq<char>)
    ensures
        lowered(s).len() == s.len(),
        forall|i: int|
            0 <= i < s.len() ==> if 65 <= (#[trigger] s[i]) as u32 <= 90 {
                lowered(s)[i] as u32 == s[i] as u32 + 32
            } else {
                lowered(s)[i] == s[i]
            },
{
}

/// A text falls into lines at its line feeds. A carriage return before one
/// belongs to the line ending, and a last line needs none.
pub proof fn law_lines(line: Seq<char>, rest: Seq<char>)
    requires
        !line.contains('\n'),
    ensures
        lines(Seq::empty()) == Seq::<Seq<char>>::empty(),
        line.len() > 0 ==> lines(line) == seq![line],
        line.len() == 0 || line.last() != '\r' ==> lines(line + seq!['\n'] + rest) == seq![line]
            + lines(rest),
        lines(line + seq!['\r', '\n'] + rest) == seq![line] + lines(rest),
{
    let n = line.len() as int;
    assert forall|i: int| 0 <= i < n implies line[i] != '\n' by {
        assert(line.contains(line[i]));
    }
    lemma_first_unique(line, '\n', n);
    let s = line + seq!['\n'] + rest;
    assert(s[n] == '\n');
    lemma_first_unique(s, '\n', n);
    assert(s.take(n) =~= line);
    assert(s.skip(n + 1) =~= rest);
    let t = line + seq!['\r', '\n'] + rest;
    assert(t[n] == '\r');
    assert(t[n + 1] == '\n');
    lemma_first_unique(t, '\n', n + 1);
    assert(t.take(n + 1).drop_last() =~= line);
    assert(t.skip(n + 2) =~= rest);
}

/// A text stands in another if the other is made of something, the text, and
/// something more.
pub proof fn law_occurring(s: Seq<char>, p: Seq<char>)
    ensures
        occurs(s, p) <==> exists|a: Seq<char>, b: Seq<char>| s == #[trigger] (a + p + b),
{
    if occurs(s, p) {
        let k = choose|k: int| occurs_at(s, p, k);
        assert(s =~= s.take(k) + p + s.skip(k + p.len()));
    }
    if exists|a: Seq<char>, b: Seq<char>| s == #[trigger] (a + p + b) {
        let (a, b) = choose|a: Seq<char>, b: Seq<char>| s == #[trigger] (a + p + b);
        assert(s.subrange(a.len() as int, a.len() as int + p.len()) =~= p);
        assert(occurs_at(s, p, a.len() as int));
    }
}

/// Mapping and filtering goes element by element, from the front too.
pub proof fn lemma_filter_map_front<A, B>(x: A, rest: Seq<A>, f: spec_fn(A) -> Option<B>)
    ensures
        (seq![x] + rest).filter_map(f) == match f(x) {
            Some(y) => seq![y] + rest.filter_map(f),
            None => rest.filter_map(f),
        },
    decreases rest.len(),
{
    let all = seq![x] + rest;
    assert(all.last() == if rest.len() == 0 {
        x
    } else {
        rest.last()
    });
    if rest.len() == 0 {
        assert(all.drop_last() =~= Seq::empty());
        assert(all.drop_last().filter_map(f) =~= Seq::empty());
        assert(rest.filter_map(f) =~= Seq::empty());
    } else {
        assert(all.drop_last() =~= seq![x] + rest.drop_last());
        lemma_filter_map_front(x, rest.drop_last(), f);
    }
    match f(x) {
        Some(y) => {
            assert(all.filter_map(f) =~= seq![y] + rest.filter_map(f));
        },
        None => {
            assert(all.filter_map(f) =~= rest.filter_map(f));
        },
    }
}

} // verus!
