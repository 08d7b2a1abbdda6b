//! The directives of a `robots.txt`, line by line.
use crate::text::{
    chars_of, find_char, first, law_lines, law_trimming, lemma_filter_map_front, lemma_first,
    lemma_first_unique, lemma_lowered, lines, lowercase, lowered, spells, split_lines, string_of,
    texts, trim, trim_end, trim_start, trimmed, white_space,
};
use vstd::prelude::*;
use vstd::slice::slice_subrange;

verus! {

/// A span of time between two requests.
#[derive(Clone, Copy, Debug, PartialEq, Eq, Structural)]
pub struct Delay {
    pub nanos: u64,
}

/// The longest delay that a site is granted: a minute.
pub const MAX_CRAWL_DELAY: u64 = 60_000_000_000;

impl Delay {
    /// A delay of so many milliseconds.
    pub fn from_millis(millis: u64) -> (res: Delay)
        requires
            millis * 1_000_000 <= u64::MAX,
        ensures
            res.nanos == millis * 1_000_000,
    {
        Delay { nanos: millis * 1_000_000 }
    }
}

/// The number of seconds that a text gives, in nanoseconds: the text read as a
/// decimal number of double precision by `str::parse`, and that number as a
/// span of time by `Duration::try_from_secs_f64`. A text that is no number and
/// a number that is no span of time give nothing.
pub uninterp spec fn seconds(text: Seq<char>) -> Option<u128>;

/// `str::parse` to a number of double precision and
/// `Duration::try_from_secs_f64`, which together give [`seconds`]. The two
/// stand together because the number between them is a floating-point one,
/// which this library does not hold.
#[verifier::external_body]
fn read_seconds(text: &str) -> (res: Option<u128>)
    ensures
        res == seconds(text@),
{
    std::time::Duration::try_from_secs_f64(text.parse().ok()?).ok().map(|d| d.as_nanos())
}

/// What a line of a `robots.txt` says.
pub enum Directive {
    Agent(String),
    Allow(String),
    Disallow(String),
    CrawlDelay(Option<Delay>),
    Other,
}

/// A directive over views.
pub enum DirectiveView {
    Agent(Seq<char>),
    Allow(Seq<char>),
    Disallow(Seq<char>),
    CrawlDelay(Option<Delay>),
    Other,
}

impl View for Directive {
    type V = DirectiveView;

    open spec fn view(&self) -> DirectiveView {
        match *self {
            Directive::Agent(agent) => DirectiveView::Agent(agent@),
            Directive::Allow(pattern) => DirectiveView::Allow(pattern@),
            Directive::Disallow(pattern) => DirectiveView::Disallow(pattern@),
            Directive::CrawlDelay(delay) => DirectiveView::CrawlDelay(delay),
            Directive::Other => DirectiveView::Other,
        }
    }
}

/// The key and the value of a line: what stands before and after its first
/// colon, without the comment that a `#` begins. The key is in small letters.
pub open spec fn field(line: Seq<char>) -> Option<(Seq<char>, Seq<char>)> {
    let text = trimmed(line.take(first(line, '#')));
    let colon = first(text, ':');
    if colon == text.len() {
        None
    } else {
        Some((lowered(trimmed(text.take(colon))), trimmed(text.skip(colon + 1))))
    }
}

/// A span of time, no longer than the longest that is granted.
pub open spec fn capped(nanos: Option<u128>) -> Option<Delay> {
    match nanos {
        Some(n) => Some(
            Delay {
                nanos: if n <= MAX_CRAWL_DELAY {
                    n as u64
                } else {
                    MAX_CRAWL_DELAY
                },
            },
        ),
        None => None,
    }
}

/// What a key and a value say, where `delay` is the number of seconds that the
/// value gives, in nanoseconds.
pub open spec fn classified(
    key: Seq<char>,
    value: Seq<char>,
    delay: Option<u128>,
) -> DirectiveView {
    if key == "user-agent"@ {
        DirectiveView::Agent(lowered(value))
    } else if key == "disallow"@ && value.len() > 0 {
        DirectiveView::Disallow(value)
    } else if key == "allow"@ && value.len() > 0 {
        DirectiveView::Allow(value)
    } else if key == "crawl-delay"@ {
        DirectiveView::CrawlDelay(capped(delay))
    } else {
        DirectiveView::Other
    }
}

/// What a line says, if it has a key.
pub open spec fn directive_of(line: Seq<char>) -> Option<DirectiveView> {
    match field(line) {
        Some((key, value)) => Some(classified(key, value, seconds(value))),
        None => None,
    }
}

/// What the lines of a `robots.txt` say.
pub open spec fn directives(body: Seq<char>) -> Seq<DirectiveView> {
    lines(body).filter_map(|line: Seq<char>| directive_of(line))
}

/// The directives that a vector holds, over views.
pub open spec fn directive_views(ds: Seq<Directive>) -> Seq<DirectiveView> {
    ds.map_values(|d: Directive| d@)
}

/// Splits a line into its key and its value.
pub fn split_field(line: &[char]) -> (res: Option<(Vec<char>, Vec<char>)>)
    ensures
        match res {
            Some((key, value)) => field(line@) == Some((key@, value@)),
            None => field(line@) is None,
        },
{
    proof {
        lemma_first(line@, '#');
    }
    let text = trim(slice_subrange(line, 0, find_char(line, '#')));
    assert(text@ == trimmed(line@.take(first(line@, '#'))));
    proof {
        lemma_first(text@, ':');
    }
    let colon = find_char(text, ':');
    if colon == text.len() {
        return None;
    }
    let key = trim(slice_subrange(text, 0, colon));
    let value = trim(slice_subrange(text, colon + 1, text.len()));
    assert(text@.subrange(0, colon as int) =~= text@.take(colon as int));
    assert(text@.subrange(colon + 1, text@.len() as int) =~= text@.skip(colon + 1));
    Some((lowercase(key), vstd::slice::slice_to_vec(value)))
}

/// Says what a key and a value mean, given the number of seconds that the
/// value gives, in nanoseconds.
pub fn classify(key: &[char], value: &[char], delay: Option<u128>) -> (res: Directive)
    ensures
        res@ == classified(key@, value@, delay),
{
    if spells(key, "user-agent") {
        Directive::Agent(string_of(lowercase(value).as_slice()))
    } else if spells(key, "disallow") && value.len() > 0 {
        Directive::Disallow(string_of(value))
    } else if spells(key, "allow") && value.len() > 0 {
        Directive::Allow(string_of(value))
    } else if spells(key, "crawl-delay") {
        Directive::CrawlDelay(
            match delay {
                Some(n) => if n <= MAX_CRAWL_DELAY as u128 {
                    Some(Delay { nanos: n as u64 })
                } else {
                    Some(Delay { nanos: MAX_CRAWL_DELAY })
                },
                None => None,
            },
        )
    } else {
        Directive::Other
    }
}

/// Says what a line means.
pub fn read_directive(line: &[char]) -> (res: Option<Directive>)
    ensures
        match res {
            Some(d) => directive_of(line@) == Some(d@),
            None => directive_of(line@) is None,
        },
{
    match split_field(line) {
        Some((key, value)) => {
            let delay: Option<u128> = if spells(key.as_slice(), "crawl-delay") {
                read_seconds(string_of(value.as_slice()).as_str())
            } else {
                None
            };
            Some(classify(key.as_slice(), value.as_slice(), delay))
        },
        None => None,
    }
}

/// Reads the directives of a `robots.txt`.
pub fn read_directives(body: &str) -> (res: Vec<Directive>)
    ensures
        directive_views(res@) == directives(body@),
{
    let all = split_lines(chars_of(body).as_slice());
    let ghost said = |line: Seq<char>| directive_of(line);
    let ghost lines = texts(all@);
    let mut res: Vec<Directive> = Vec::new();
    assert(directive_views(res@) =~= lines.take(0).filter_map(said));
    for i in 0..all.len()
        invariant
            said == (|line: Seq<char>| directive_of(line)),
            lines == texts(all@),
            directive_views(res@) == lines.take(i as int).filter_map(said),
    {
        let ghost before = directive_views(res@);
        proof {
            lines.lemma_filter_map_take_succ(said, i as int);
            assert(lines[i as int] == all@[i as int]@);
        }
        match read_directive(all[i].as_slice()) {
            Some(d) => {
                res.push(d);
                assert(directive_views(res@) =~= before + seq![d@]);
            },
            None => {
                assert(before + Seq::<DirectiveView>::empty() =~= before);
            },
        }
    }
    assert(lines.take(lines.len() as int) =~= lines);
    res
}

/// What follows a `#` on a line does not matter.
pub proof fn law_comments_are_ignored(line: Seq<char>, comment: Seq<char>)
    ensures
        directive_of(line + seq!['#'] + comment) == directive_of(line),
{
    let long = line + seq!['#'] + comment;
    lemma_first(line, '#');
    let at = first(line, '#');
    assert(long[line.len() as int] == '#');
    assert forall|i: int| 0 <= i < at implies long[i] != '#' by {
        assert(long[i] == line[i]);
    }
    if at < line.len() {
        assert(long[at] == line[at]);
    }
    lemma_first_unique(long, '#', at);
    assert(long.take(at) =~= line.take(at));
}

/// Capital letters in a line do not matter for its key, and for its value only
/// in that they stay.
pub proof fn law_key_case_does_not_matter(a: Seq<char>, b: Seq<char>)
    requires
        lowered(a) == lowered(b),
    ensures
        match (field(a), field(b)) {
            (Some((key_a, value_a)), Some((key_b, value_b))) => key_a == key_b && lowered(value_a)
                == lowered(value_b),
            (None, None) => true,
            _ => false,
        },
{
    lemma_field_lowered(a);
    lemma_field_lowered(b);
}

proof fn lemma_field_lowered(line: Seq<char>)
    ensures
        match (field(line), field(lowered(line))) {
            (Some((key, value)), Some((low_key, low_value))) => key == low_key && lowered(value)
                == low_value,
            (None, None) => true,
            _ => false,
        },
{
    let at = first(line, '#');
    lemma_first(line, '#');
    lemma_lowered(line, '#');
    assert(lowered(line).take(at) =~= lowered(line.take(at)));
    lemma_lowered(line.take(at), '#');
    let text = trimmed(line.take(at));
    let colon = first(text, ':');
    lemma_first(text, ':');
    lemma_lowered(text, ':');
    if colon < text.len() {
        assert(lowered(text).take(colon) =~= lowered(text.take(colon)));
        assert(lowered(text).skip(colon + 1) =~= lowered(text.skip(colon + 1)));
        lemma_lowered(text.take(colon), ':');
        lemma_lowered(text.skip(colon + 1), ':');
        assert(lowered(lowered(trimmed(text.take(colon)))) =~= lowered(trimmed(text.take(colon))));
    }
}

/// A line of a `robots.txt` says what its key and its value say: the key is what
/// stands before the first colon, in whatever case, the value what stands after
/// it, and both without white space around them. A rule without a pattern and
/// an unknown key say nothing, but count as lines.
pub proof fn law_what_a_line_says(key: Seq<char>, value: Seq<char>)
    requires
        !key.contains('#'),
        !key.contains(':'),
        !value.contains('#'),
    ensures
        ({
            let said = directive_of(key + seq![':'] + value);
            let k = lowered(trimmed(key));
            let v = trimmed(value);
            &&& k == "user-agent"@ ==> said == Some(DirectiveView::Agent(lowered(v)))
            &&& k == "disallow"@ && v.len() > 0 ==> said == Some(DirectiveView::Disallow(v))
            &&& k == "allow"@ && v.len() > 0 ==> said == Some(DirectiveView::Allow(v))
            &&& (k == "disallow"@ || k == "allow"@) && v.len() == 0 ==> said == Some(
                DirectiveView::Other,
            )
            &&& k == "crawl-delay"@ ==> {
                &&& seconds(v) is None ==> said == Some(DirectiveView::CrawlDelay(None))
                &&& seconds(v) matches Some(n) ==> said matches Some(
                    DirectiveView::CrawlDelay(Some(delay)),
                ) && delay.nanos == if n <= 60_000_000_000 {
                    n as int
                } else {
                    60_000_000_000
                }
            }
            &&& k != "user-agent"@ && k != "disallow"@ && k != "allow"@ && k != "crawl-delay"@
                ==> said == Some(DirectiveView::Other)
        }),
{
    let line = key + seq![':'] + value;
    lemma_no_mark(line, '#', key, value);
    lemma_first_unique(line, '#', line.len() as int);
    assert(line.take(line.len() as int) =~= line);
    lemma_trimmed_field(key, value);
    reveal_strlit("user-agent");
    reveal_strlit("disallow");
    reveal_strlit("allow");
    reveal_strlit("crawl-delay");
    assert("user-agent"@.len() == 10 && "disallow"@.len() == 8 && "allow"@.len() == 5
        && "crawl-delay"@.len() == 11);
}

/// A line without a colon before its comment says nothing and does not count.
pub proof fn law_lines_without_colon_are_skipped(line: Seq<char>)
    requires
        !line.contains(':'),
    ensures
        directive_of(line) is None,
{
    lemma_first(line, '#');
    let text = line.take(first(line, '#'));
    law_trimming(text);
    let t = trimmed(text);
    let (i, j) = choose|i: int, j: int|
        {
            &&& 0 <= i <= j <= text.len()
            &&& t == #[trigger] text.subrange(i, j)
            &&& forall|k: int|
                0 <= k < i || j <= k < text.len() ==> white_space(#[trigger] text[k])
            &&& i < j ==> !white_space(text[i]) && !white_space(text[j - 1])
        };
    assert forall|k: int| 0 <= k < t.len() implies t[k] != ':' by {
        assert(t[k] == line[i + k]);
        assert(line.contains(line[i + k]));
    }
    lemma_first_unique(t, ':', t.len() as int);
}

proof fn lemma_no_mark(line: Seq<char>, mark: char, key: Seq<char>, value: Seq<char>)
    requires
        line == key + seq![':'] + value,
        mark != ':',
        !key.contains(mark),
        !value.contains(mark),
    ensures
        forall|i: int| 0 <= i < line.len() ==> line[i] != mark,
{
    assert forall|i: int| 0 <= i < line.len() implies line[i] != mark by {
        if i < key.len() {
            assert(key.contains(key[i]));
        } else if i > key.len() {
            assert(value.contains(value[i - key.len() - 1]));
        }
    }
}

/// Trimming a line trims the start of its key and the end of its value.
proof fn lemma_trimmed_field(key: Seq<char>, value: Seq<char>)
    requires
        !key.contains(':'),
    ensures
        ({
            let text = trimmed(key + seq![':'] + value);
            let colon = first(text, ':');
            &&& 0 <= colon < text.len()
            &&& trimmed(text.take(colon)) == trimmed(key)
            &&& trimmed(text.skip(colon + 1)) == trimmed(value)
        }),
{
    let line = key + seq![':'] + value;
    let k = trim_start(key);
    let v = trim_end(value);
    lemma_trim_start_of(key, seq![':'] + value);
    assert(key + (seq![':'] + value) =~= line);
    assert((seq![':'] + value)[0] == ':');
    assert(trim_start(line) == k + (seq![':'] + value));
    lemma_trim_end_of(k + seq![':'], value);
    assert(k + (seq![':'] + value) =~= (k + seq![':']) + value);
    let text = trimmed(line);
    assert(text == (k + seq![':']) + v);
    lemma_part_of_start(key);
    assert forall|i: int| 0 <= i < k.len() implies k[i] != ':' by {
        assert(key.contains(k[i]));
    }
    assert(text[k.len() as int] == ':');
    lemma_first_unique(text, ':', k.len() as int);
    assert(text.take(k.len() as int) =~= k);
    assert(text.skip(k.len() as int + 1) =~= v);
    lemma_trim_twice(key);
    lemma_trim_twice(value);
}

proof fn lemma_part_of_start(s: Seq<char>)
    ensures
        forall|i: int| 0 <= i < trim_start(s).len() ==> s.contains(#[trigger] trim_start(s)[i]),
    decreases s.len(),
{
    if s.len() > 0 && white_space(s[0]) {
        lemma_part_of_start(s.drop_first());
        assert forall|i: int| 0 <= i < trim_start(s).len() implies s.contains(
            #[trigger] trim_start(s)[i],
        ) by {
            let c = trim_start(s)[i];
            assert(s.drop_first().contains(trim_start(s.drop_first())[i]));
            let j = choose|j: int| 0 <= j < s.drop_first().len() && s.drop_first()[j] == c;
            assert(s[j + 1] == c);
        }
    } else {
        assert forall|i: int| 0 <= i < s.len() implies s.contains(#[trigger] s[i]) by {}
    }
}

proof fn lemma_trim_start_of(s: Seq<char>, rest: Seq<char>)
    requires
        rest.len() > 0,
        !white_space(rest[0]),
    ensures
        trim_start(s + rest) == trim_start(s) + rest,
    decreases s.len(),
{
    if s.len() == 0 {
        assert(s + rest =~= rest);
        assert(trim_start(s) + rest =~= rest);
    } else {
        assert((s + rest)[0] == s[0]);
        assert((s + rest).drop_first() =~= s.drop_first() + rest);
        if white_space(s[0]) {
            lemma_trim_start_of(s.drop_first(), rest);
        }
    }
}

proof fn lemma_trim_end_of(start: Seq<char>, s: Seq<char>)
    requires
        start.len() > 0,
        !white_space(start.last()),
    ensures
        trim_end(start + s) == start + trim_end(s),
    decreases s.len(),
{
    if s.len() == 0 {
        assert(start + s =~= start);
        assert(start + trim_end(s) =~= start);
    } else {
        assert((start + s).last() == s.last());
        assert((start + s).drop_last() =~= start + s.drop_last());
        if white_space(s.last()) {
            lemma_trim_end_of(start, s.drop_last());
        }
    }
}

proof fn lemma_trim_twice(s: Seq<char>)
    ensures
        trimmed(trim_start(s)) == trimmed(s),
        trimmed(trim_end(s)) == trimmed(s),
    decreases s.len(),
{
    lemma_start_again(s);
    if s.len() > 0 && white_space(s.last()) {
        lemma_trim_twice(s.drop_last());
        lemma_trimmed_without_last(s);
    }
}

proof fn lemma_start_again(s: Seq<char>)
    ensures
        trim_start(trim_start(s)) == trim_start(s),
    decreases s.len(),
{
    if s.len() > 0 && white_space(s[0]) {
        lemma_start_again(s.drop_first());
    }
}

proof fn lemma_trimmed_without_last(s: Seq<char>)
    requires
        s.len() > 0,
        white_space(s.last()),
    ensures
        trimmed(s.drop_last()) == trimmed(s),
    decreases s.len(),
{
    if white_space(s[0]) {
        if s.len() > 1 {
            assert(s.drop_last().drop_first() =~= s.drop_first().drop_last());
            lemma_trimmed_without_last(s.drop_first());
        } else {
            assert(s.drop_last() =~= s.drop_first());
        }
    }
}

/// A `robots.txt` is read line by line, in order: each line that says something
/// counts, wherever it stands.
pub proof fn law_read_line_by_line(line: Seq<char>, rest: Seq<char>)
    requires
        !line.contains('\n'),
    ensures
        line.len() == 0 || line.last() != '\r' ==> directives(line + seq!['\n'] + rest)
            == match directive_of(line) {
            Some(d) => seq![d] + directives(rest),
            None => directives(rest),
        },
        directives(line + seq!['\r', '\n'] + rest) == match directive_of(line) {
            Some(d) => seq![d] + directives(rest),
            None => directives(rest),
        },
        line.len() > 0 ==> directives(line) == match directive_of(line) {
            Some(d) => seq![d],
            None => Seq::empty(),
        },
        directives(Seq::empty()) == Seq::<DirectiveView>::empty(),
{
    let said = |line: Seq<char>| directive_of(line);
    law_lines(line, rest);
    lemma_filter_map_front(line, lines(rest), said);
    lemma_filter_map_front(line, Seq::<Seq<char>>::empty(), said);
    assert(seq![line] + Seq::<Seq<char>>::empty() =~= seq![line]);
    assert(Seq::<Seq<char>>::empty().filter_map(said) =~= Seq::empty());
    if let Some(d) = directive_of(line) {
        assert(seq![d] + Seq::<DirectiveView>::empty() =~= seq![d]);
    }
}

/// What a key says of a value: an agent in small letters, a pattern as it is, a
/// delay up to a minute, and nothing where there is no pattern or the key is
/// unknown.
pub proof fn law_what_a_key_says(value: Seq<char>, delay: Option<u128>, other: Seq<char>)
    ensures
        classified("user-agent"@, value, delay) == DirectiveView::Agent(lowered(value)),
        value.len() > 0 ==> classified("allow"@, value, delay) == DirectiveView::Allow(value),
        value.len() > 0 ==> classified("disallow"@, value, delay) == DirectiveView::Disallow(
            value,
        ),
        value.len() == 0 ==> classified("allow"@, value, delay) == DirectiveView::Other,
        value.len() == 0 ==> classified("disallow"@, value, delay) == DirectiveView::Other,
        delay is None ==> classified("crawl-delay"@, value, delay) == DirectiveView::CrawlDelay(
            None,
        ),
        delay matches Some(n) ==> classified("crawl-delay"@, value, delay)
            == DirectiveView::CrawlDelay(
            Some(
                Delay {
                    nanos: if n <= 60_000_000_000 {
                        n as u64
                    } else {
                        60_000_000_000
                    },
                },
            ),
        ),
        other != "user-agent"@ && other != "allow"@ && other != "disallow"@ && other
            != "crawl-delay"@ ==> classified(other, value, delay) == DirectiveView::Other,
{
    reveal_strlit("user-agent");
    reveal_strlit("disallow");
    reveal_strlit("allow");
    reveal_strlit("crawl-delay");
    assert("user-agent"@.len() == 10 && "disallow"@.len() == 8 && "allow"@.len() == 5
        && "crawl-delay"@.len() == 11);
}

} // verus!
