//! What a site's `robots.txt` asks of a crawler.
use crate::directive::{
    directive_of, directive_views, directives, read_directives, Delay, Directive, DirectiveView,
    MAX_CRAWL_DELAY,
};
use crate::pattern::{law_plain_pattern_is_prefix, pattern_matches, pattern_matches_spec};
use crate::text::{
    chars_of, contains, find_char, first, lemma_first, lemma_first_unique, lemma_lowered, lines,
    lowercase, lowered, occurs, same_text, spells, string_texts,
};
use crate::web_url::{part, Address, UrlView};
use vstd::prelude::*;
use vstd::slice::slice_subrange;
use vstd::utf8::encode_utf8;

verus! {

/// The rules for a set of agents. A rule is whether it allows, and its pattern.
struct Group {
    agents: Vec<String>,
    rules: Vec<(bool, String)>,
    delay: Option<Delay>,
}

/// A group over views.
#[verifier::ext_equal]
pub struct GroupView {
    pub agents: Seq<Seq<char>>,
    pub rules: Seq<(bool, Seq<char>)>,
    pub delay: Option<Delay>,
}

/// The rules that a vector holds, over views.
pub open spec fn rule_views(rules: Seq<(bool, String)>) -> Seq<(bool, Seq<char>)> {
    rules.map_values(|r: (bool, String)| (r.0, r.1@))
}

impl View for Group {
    type V = GroupView;

    closed spec fn view(&self) -> GroupView {
        GroupView {
            agents: string_texts(self.agents@),
            rules: rule_views(self.rules@),
            delay: self.delay,
        }
    }
}

/// The groups that a vector holds, over views.
closed spec fn group_views(groups: Seq<Group>) -> Seq<GroupView> {
    groups.map_values(|g: Group| g@)
}

/// A group to which a directive, not one that names an agent, was added.
pub open spec fn with_directive(group: GroupView, d: DirectiveView) -> GroupView {
    match d {
        DirectiveView::Allow(pattern) => GroupView {
            rules: group.rules.push((true, pattern)),
            ..group
        },
        DirectiveView::Disallow(pattern) => GroupView {
            rules: group.rules.push((false, pattern)),
            ..group
        },
        DirectiveView::CrawlDelay(delay) => GroupView { delay, ..group },
        _ => group,
    }
}

/// The groups that directives form. A directive that names an agent begins a
/// group, unless the directive before it names one too: agents named in a row
/// share a group. Every other directive belongs to the group before it;
/// before the first group it is lost.
pub open spec fn groups(ds: Seq<DirectiveView>) -> Seq<GroupView>
    decreases ds.len(),
{
    if ds.len() == 0 {
        Seq::empty()
    } else {
        let before = groups(ds.drop_last());
        match ds.last() {
            DirectiveView::Agent(agent) => if ds.len() >= 2 && ds[ds.len() - 2] is Agent {
                before.drop_last().push(
                    GroupView { agents: before.last().agents.push(agent), ..before.last() },
                )
            } else {
                before.push(
                    GroupView { agents: seq![agent], rules: Seq::empty(), delay: None },
                )
            },
            d => if before.len() == 0 {
                before
            } else {
                before.drop_last().push(with_directive(before.last(), d))
            },
        }
    }
}

/// The product token of a user agent: what stands before its first `/`, in
/// small letters.
pub open spec fn product_token(user_agent: Seq<char>) -> Seq<char> {
    lowered(user_agent.take(first(user_agent, '/')))
}

/// Whether an agent's name means the crawler with a given product token.
pub open spec fn names(agent: Seq<char>, token: Seq<char>) -> bool {
    agent != "*"@ && agent.len() > 0 && occurs(token, agent)
}

/// Whether a group names the crawler with a given product token.
pub open spec fn is_specific(group: GroupView, token: Seq<char>) -> bool {
    exists|i: int| 0 <= i < group.agents.len() && names(#[trigger] group.agents[i], token)
}

/// Whether a group is for any crawler.
pub open spec fn is_wildcard(group: GroupView) -> bool {
    group.agents.contains("*"@)
}

/// The groups that a crawler heeds: those that name it, or, if none does, those
/// for any crawler.
pub open spec fn chosen(groups: Seq<GroupView>, token: Seq<char>) -> Seq<GroupView> {
    let specific = groups.filter(|g: GroupView| is_specific(g, token));
    if specific.len() == 0 {
        groups.filter(|g: GroupView| is_wildcard(g))
    } else {
        specific
    }
}

/// What a site asks of a crawler: rules, each whether it allows and its
/// pattern, and a delay between two requests.
pub struct Robots {
    /// `(is_allow, pattern)`
    pub rules: Vec<(bool, String)>,
    pub crawl_delay: Option<Delay>,
}

/// What a site asks, over views.
#[verifier::ext_equal]
pub struct RobotsView {
    pub rules: Seq<(bool, Seq<char>)>,
    pub crawl_delay: Option<Delay>,
}

impl View for Robots {
    type V = RobotsView;

    open spec fn view(&self) -> RobotsView {
        RobotsView { rules: rule_views(self.rules@), crawl_delay: self.crawl_delay }
    }
}

/// A site that asks nothing.
pub open spec fn no_robots() -> RobotsView {
    RobotsView { rules: Seq::empty(), crawl_delay: None }
}

/// What groups ask together: all their rules, and the last delay that one sets.
pub open spec fn merged(groups: Seq<GroupView>) -> RobotsView
    decreases groups.len(),
{
    if groups.len() == 0 {
        no_robots()
    } else {
        let before = merged(groups.drop_last());
        RobotsView {
            rules: before.rules + groups.last().rules,
            crawl_delay: if groups.last().delay is Some {
                groups.last().delay
            } else {
                before.crawl_delay
            },
        }
    }
}

/// What directives ask of the crawler with a given user agent.
pub open spec fn asked(ds: Seq<DirectiveView>, user_agent: Seq<char>) -> RobotsView {
    merged(chosen(groups(ds), product_token(user_agent)))
}

/// What a `robots.txt` asks of the crawler with a given user agent.
pub open spec fn robots_of(body: Seq<char>, user_agent: Seq<char>) -> RobotsView {
    asked(directives(body), user_agent)
}

/// Adds a directive that does not name an agent to a group.
fn add_directive(group: Group, d: &Directive) -> (res: Group)
    ensures
        res@ == with_directive(group@, d@),
{
    let mut group = group;
    match d {
        Directive::Allow(pattern) => {
            let ghost before = group@.rules;
            group.rules.push((true, pattern.clone()));
            assert(group@.rules =~= before.push((true, pattern@)));
        },
        Directive::Disallow(pattern) => {
            let ghost before = group@.rules;
            group.rules.push((false, pattern.clone()));
            assert(group@.rules =~= before.push((false, pattern@)));
        },
        Directive::CrawlDelay(delay) => {
            group.delay = *delay;
        },
        _ => {},
    }
    group
}

/// Forms the groups of directives.
fn form_groups(ds: &Vec<Directive>) -> (res: Vec<Group>)
    ensures
        group_views(res@) == groups(directive_views(ds@)),
{
    let mut res: Vec<Group> = Vec::new();
    let mut last_was_agent = false;
    let ghost all = directive_views(ds@);
    assert(group_views(res@) =~= groups(all.take(0)));
    for i in 0..ds.len()
        invariant
            all == directive_views(ds@),
            group_views(res@) == groups(all.take(i as int)),
            last_was_agent == (i > 0 && all[i - 1] is Agent),
            last_was_agent ==> res@.len() > 0,
    {
        let ghost before = group_views(res@);
        let ghost seen = all.take(i + 1);
        proof {
            assert(seen.drop_last() =~= all.take(i as int));
            assert(seen.last() == ds@[i as int]@);
        }
        match &ds[i] {
            Directive::Agent(agent) => {
                if !last_was_agent {
                    let mut agents: Vec<String> = Vec::new();
                    agents.push(agent.clone());
                    let group = Group { agents, rules: Vec::new(), delay: None };
                    assert(group@ =~= GroupView {
                        agents: seq![agent@],
                        rules: Seq::empty(),
                        delay: None,
                    });
                    res.push(group);
                    assert(group_views(res@) =~= before.push(group@));
                } else {
                    let popped = res.pop();
                    match popped {
                        Some(mut group) => {
                            let ghost old_group = group@;
                            group.agents.push(agent.clone());
                            assert(group@ =~= GroupView {
                                agents: old_group.agents.push(agent@),
                                ..old_group
                            });
                            assert(group_views(res@) =~= before.drop_last());
                            res.push(group);
                            assert(group_views(res@) =~= before.drop_last().push(group@));
                        },
                        None => {},
                    }
                }
                last_was_agent = true;
            },
            d => {
                last_was_agent = false;
                let popped = res.pop();
                match popped {
                    Some(group) => {
                        assert(group_views(res@) =~= before.drop_last());
                        let group = add_directive(group, d);
                        res.push(group);
                        assert(group_views(res@) =~= before.drop_last().push(group@));
                    },
                    None => {},
                }
            },
        }
    }
    assert(all.take(all.len() as int) =~= all);
    res
}

impl Group {
    /// Whether the group names the crawler with a given product token.
    fn names_token(&self, token: &[char]) -> (res: bool)
        ensures
            res == is_specific(self@, token@),
    {
        for i in 0..self.agents.len()
            invariant
                forall|j: int|
                    0 <= j < i ==> !names(#[trigger] self@.agents[j], token@),
        {
            let agent = chars_of(self.agents[i].as_str());
            assert(self@.agents[i as int] == agent@);
            if !spells(agent.as_slice(), "*") && agent.len() > 0 && contains(
                token,
                agent.as_slice(),
            ) {
                return true;
            }
        }
        false
    }

    /// Whether the group is for any crawler.
    fn names_any(&self) -> (res: bool)
        ensures
            res == is_wildcard(self@),
    {
        for i in 0..self.agents.len()
            invariant
                forall|j: int| 0 <= j < i ==> #[trigger] self@.agents[j] != "*"@,
        {
            assert(self@.agents[i as int] == self.agents@[i as int]@);
            if same_text(self.agents[i].as_str(), "*") {
                return true;
            }
        }
        false
    }
}

impl Default for Robots {
    /// A site that asks nothing.
    fn default() -> (res: Robots)
        ensures
            res@ == no_robots(),
    {
        let res = Robots { rules: Vec::new(), crawl_delay: None };
        assert(res@ =~= no_robots());
        res
    }
}

impl Robots {
    /// Adds what a group asks.
    fn heed(&mut self, group: &Group)
        ensures
            final(self)@ == (RobotsView {
                rules: old(self)@.rules + group@.rules,
                crawl_delay: if group@.delay is Some {
                    group@.delay
                } else {
                    old(self)@.crawl_delay
                },
            }),
    {
        let ghost start = self@;
        for i in 0..group.rules.len()
            invariant
                start == old(self)@,
                self.crawl_delay == start.crawl_delay,
                rule_views(self.rules@) == start.rules + group@.rules.take(i as int),
        {
            let ghost before = rule_views(self.rules@);
            let ghost rule = (group.rules@[i as int].0, group.rules@[i as int].1@);
            self.rules.push((group.rules[i].0, group.rules[i].1.clone()));
            assert(rule_views(self.rules@) =~= before.push(rule));
            assert(group@.rules[i as int] == rule);
            assert(start.rules + group@.rules.take(i + 1) =~= before.push(rule));
        }
        assert(group@.rules.take(group@.rules.len() as int) =~= group@.rules);
        if group.delay.is_some() {
            self.crawl_delay = group.delay;
        }
    }

    /// What directives ask of the crawler with a given user agent. A group
    /// naming our product token beats the `*` group.
    pub fn from_directives(ds: &Vec<Directive>, user_agent: &str) -> (res: Robots)
        ensures
            res@ == asked(directive_views(ds@), user_agent@),
    {
        let all = form_groups(ds);
        let agent = chars_of(user_agent);
        proof {
            lemma_first(agent@, '/');
        }
        let end = find_char(agent.as_slice(), '/');
        let token_chars = lowercase(slice_subrange(agent.as_slice(), 0, end));
        let token = token_chars.as_slice();
        assert(token@ == product_token(user_agent@));
        let ghost views = group_views(all@);
        let ghost specific = |g: GroupView| is_specific(g, token@);
        let ghost wildcard = |g: GroupView| is_wildcard(g);

        let mut for_us = Robots::default();
        let mut for_any = Robots::default();
        let mut named = false;
        assert(views.take(0) =~= Seq::empty());
        assert(views.take(0).filter(specific) =~= Seq::empty()) by {
            reveal(Seq::filter);
        }
        assert(views.take(0).filter(wildcard) =~= Seq::empty()) by {
            reveal(Seq::filter);
        }
        for i in 0..all.len()
            invariant
                views == group_views(all@),
                specific == (|g: GroupView| is_specific(g, token@)),
                wildcard == (|g: GroupView| is_wildcard(g)),
                for_us@ == merged(views.take(i as int).filter(specific)),
                for_any@ == merged(views.take(i as int).filter(wildcard)),
                named == (views.take(i as int).filter(specific).len() > 0),
        {
            proof {
                assert(views.take(i + 1) =~= views.take(i as int).push(views[i as int]));
                views.take(i as int).lemma_filter_push(views[i as int], specific);
                views.take(i as int).lemma_filter_push(views[i as int], wildcard);
                assert(views[i as int] == all@[i as int]@);
                lemma_merged_push(views.take(i as int).filter(specific), views[i as int]);
                lemma_merged_push(views.take(i as int).filter(wildcard), views[i as int]);
            }
            if all[i].names_token(token) {
                named = true;
                for_us.heed(&all[i]);
            }
            if all[i].names_any() {
                for_any.heed(&all[i]);
            }
        }
        assert(views.take(views.len() as int) =~= views);
        if named {
            for_us
        } else {
            for_any
        }
    }

    /// What a `robots.txt` asks of the crawler with a given user agent.
    pub fn parse(body: &str, user_agent: &str) -> (res: Robots)
        ensures
            res@ == robots_of(body@, user_agent@),
    {
        Robots::from_directives(&read_directives(body), user_agent)
    }
}

/// The length of a text, in bytes.
pub open spec fn byte_len(s: Seq<char>) -> nat {
    encode_utf8(s).len()
}

/// What rules are held against: the path of a URL and its query.
pub open spec fn target_of(v: UrlView) -> Seq<char> {
    (if v.path.len() == 0 {
        "/"@
    } else {
        v.path
    }) + part('?', v.query)
}

/// Whether the pattern of rule `i` matches.
pub open spec fn applies(rules: Seq<(bool, Seq<char>)>, target: Seq<char>, i: int) -> bool {
    0 <= i < rules.len() && pattern_matches_spec(rules[i].1, target)
}

/// Whether rule `i` matches, and no matching rule has a longer pattern.
pub open spec fn decides(rules: Seq<(bool, Seq<char>)>, target: Seq<char>, i: int) -> bool {
    &&& applies(rules, target, i)
    &&& forall|j: int| #[trigger]
        applies(rules, target, j) ==> byte_len(rules[j].1) <= byte_len(rules[i].1)
}

/// Whether rules permit a target. The longest matching pattern wins; on a tie,
/// allow wins; where no pattern matches, the target is allowed.
pub open spec fn permits(rules: Seq<(bool, Seq<char>)>, target: Seq<char>) -> bool {
    ||| forall|i: int| !#[trigger] applies(rules, target, i)
    ||| exists|i: int| #[trigger] decides(rules, target, i) && rules[i].0
}

impl Robots {
    /// Whether the rules permit a target, the path of a URL with its query.
    pub fn permits_target(&self, target: &str) -> (res: bool)
        ensures
            res == permits(self@.rules, target@),
    {
        let ghost rules = self@.rules;
        let mut best: Option<(usize, bool)> = None;
        for i in 0..self.rules.len()
            invariant
                rules == self@.rules,
                match best {
                    Some((len, allow)) => {
                        &&& exists|k: int|
                            k < i && #[trigger] applies(rules, target@, k) && byte_len(rules[k].1)
                                == len
                        &&& forall|k: int|
                            k < i && #[trigger] applies(rules, target@, k) ==> byte_len(rules[k].1)
                                <= len
                        &&& allow == exists|k: int|
                            k < i && #[trigger] applies(rules, target@, k) && byte_len(rules[k].1)
                                == len && rules[k].0
                    },
                    None => forall|k: int| k < i ==> !#[trigger] applies(rules, target@, k),
                },
        {
            assert(rules[i as int] == (self.rules@[i as int].0, self.rules@[i as int].1@));
            let is_allow = self.rules[i].0;
            let pattern = self.rules[i].1.as_str();
            let ghost before = best;
            if pattern_matches(pattern, target) {
                assert(applies(rules, target@, i as int));
                let len = pattern.as_bytes().len();
                assert(len == byte_len(rules[i as int].1));
                best = match best {
                    Some(current) => if current.0 > len {
                        Some(current)
                    } else if current.0 == len {
                        Some((len, current.1 || is_allow))
                    } else {
                        Some((len, is_allow))
                    },
                    None => Some((len, is_allow)),
                };
            }
        }
        match best {
            Some((len, allow)) => {
                proof {
                    if allow {
                        let k = choose|k: int| #[trigger]
                            applies(rules, target@, k) && byte_len(rules[k].1) == len && rules[k].0;
                        assert(decides(rules, target@, k));
                    }
                    if exists|k: int| #[trigger] decides(rules, target@, k) && rules[k].0 {
                        let k = choose|k: int| #[trigger] decides(rules, target@, k) && rules[k].0;
                        let longest = choose|j: int| #[trigger]
                            applies(rules, target@, j) && byte_len(rules[j].1) == len;
                        assert(byte_len(rules[longest].1) <= byte_len(rules[k].1));
                        assert(applies(rules, target@, k));
                    }
                }
                allow
            },
            None => true,
        }
    }

    /// Whether the site permits a URL.
    pub fn allowed(&self, url: &Address) -> (res: bool)
        ensures
            res == permits(self@.rules, target_of(url@)),
    {
        let mut target = if url.path().is_empty() {
            "/".to_owned()
        } else {
            url.path().to_owned()
        };
        match url.query() {
            Some(query) => {
                target.push('?');
                target.append(query);
            },
            None => {},
        }
        assert(target@ =~= target_of(url@));
        self.permits_target(target.as_str())
    }
}

/// A target is permitted exactly if every rule against it that matches is
/// outweighed by a matching rule for it whose pattern is at least as long.
pub proof fn law_longest_wins_and_allow_wins_ties(
    rules: Seq<(bool, Seq<char>)>,
    target: Seq<char>,
)
    ensures
        permits(rules, target) <==> forall|i: int| #[trigger]
            applies(rules, target, i) && !rules[i].0 ==> exists|j: int| #[trigger]
                applies(rules, target, j) && rules[j].0 && byte_len(rules[j].1) >= byte_len(
                    rules[i].1,
                ),
{
    if permits(rules, target) {
        assert forall|i: int| #[trigger] applies(rules, target, i) && !rules[i].0 implies exists|
            j: int,
        | #[trigger]
            applies(rules, target, j) && rules[j].0 && byte_len(rules[j].1) >= byte_len(
                rules[i].1,
            ) by {
            let j = choose|j: int| #[trigger] decides(rules, target, j) && rules[j].0;
            assert(applies(rules, target, j));
        }
    } else {
        let some = choose|i: int| #[trigger] applies(rules, target, i);
        let i = lemma_some_rule_decides(rules, target, some, rules.len() as int);
        assert(decides(rules, target, i));
        assert forall|j: int| #[trigger] applies(rules, target, j) && rules[j].0 implies byte_len(
            rules[j].1,
        ) < byte_len(rules[i].1) by {
            if byte_len(rules[j].1) >= byte_len(rules[i].1) {
                assert(decides(rules, target, j));
            }
        }
    }
}

/// Among the first `n` rules, one that matches with the longest pattern.
proof fn lemma_some_rule_decides(
    rules: Seq<(bool, Seq<char>)>,
    target: Seq<char>,
    some: int,
    n: int,
) -> (best: int)
    requires
        0 <= some < n <= rules.len(),
        applies(rules, target, some),
    ensures
        0 <= best < n,
        applies(rules, target, best),
        forall|j: int|
            j < n && #[trigger] applies(rules, target, j) ==> byte_len(rules[j].1) <= byte_len(
                rules[best].1,
            ),
    decreases n,
{
    let last = n - 1;
    if exists|j: int| j < last && #[trigger] applies(rules, target, j) {
        let other = choose|j: int| j < last && #[trigger] applies(rules, target, j);
        let best = lemma_some_rule_decides(rules, target, other, last);
        if applies(rules, target, last) && byte_len(rules[last].1) > byte_len(rules[best].1) {
            last
        } else {
            best
        }
    } else {
        some
    }
}

/// The order of the rules does not matter.
pub proof fn law_rule_order_does_not_matter(
    a: Seq<(bool, Seq<char>)>,
    b: Seq<(bool, Seq<char>)>,
    target: Seq<char>,
)
    requires
        forall|rule: (bool, Seq<char>)| a.contains(rule) == b.contains(rule),
    ensures
        permits(a, target) == permits(b, target),
{
    if permits(a, target) {
        lemma_permits_more(a, b, target);
    }
    if permits(b, target) {
        lemma_permits_more(b, a, target);
    }
}

proof fn lemma_permits_more(
    a: Seq<(bool, Seq<char>)>,
    b: Seq<(bool, Seq<char>)>,
    target: Seq<char>,
)
    requires
        forall|rule: (bool, Seq<char>)| a.contains(rule) == b.contains(rule),
        permits(a, target),
    ensures
        permits(b, target),
{
    law_longest_wins_and_allow_wins_ties(a, target);
    law_longest_wins_and_allow_wins_ties(b, target);
    assert forall|i: int| #[trigger] applies(b, target, i) && !b[i].0 implies exists|j: int|
     #[trigger]
        applies(b, target, j) && b[j].0 && byte_len(b[j].1) >= byte_len(b[i].1) by {
        assert(b.contains(b[i]));
        let k = choose|k: int| 0 <= k < a.len() && a[k] == b[i];
        assert(applies(a, target, k));
        let m = choose|m: int| #[trigger]
            applies(a, target, m) && a[m].0 && byte_len(a[m].1) >= byte_len(a[k].1);
        assert(a.contains(a[m]));
        let j = choose|j: int| 0 <= j < b.len() && b[j] == a[m];
        assert(applies(b, target, j));
    }
}

/// A site that asks nothing permits everything.
pub proof fn law_no_rules_permit_everything(target: Seq<char>)
    ensures
        permits(no_robots().rules, target),
{
}

/// Where a group names the crawler, only groups that name it are heeded.
pub proof fn law_specific_group_beats_wildcard(groups: Seq<GroupView>, token: Seq<char>)
    requires
        exists|i: int| 0 <= i < groups.len() && is_specific(#[trigger] groups[i], token),
    ensures
        chosen(groups, token).len() > 0,
        forall|i: int|
            0 <= i < chosen(groups, token).len() ==> is_specific(
                #[trigger] chosen(groups, token)[i],
                token,
            ),
{
    let specific = |g: GroupView| is_specific(g, token);
    let i = choose|i: int| 0 <= i < groups.len() && is_specific(#[trigger] groups[i], token);
    broadcast use vstd::seq_lib::group_filter_ensures;

    assert(specific(groups[i]));
    assert(groups.filter(specific).contains(groups[i]));
}

/// Where no group names the crawler and none is for any crawler, everything is
/// permitted.
pub proof fn law_other_agents_groups_are_ignored(
    ds: Seq<DirectiveView>,
    user_agent: Seq<char>,
    target: Seq<char>,
)
    requires
        forall|i: int|
            0 <= i < groups(ds).len() ==> !is_specific(
                #[trigger] groups(ds)[i],
                product_token(user_agent),
            ) && !is_wildcard(groups(ds)[i]),
    ensures
        asked(ds, user_agent) == no_robots(),
        permits(asked(ds, user_agent).rules, target),
{
    let all = groups(ds);
    let token = product_token(user_agent);
    let specific = |g: GroupView| is_specific(g, token);
    let wildcard = |g: GroupView| is_wildcard(g);
    all.lemma_all_neg_filter_empty(specific);
    all.lemma_all_neg_filter_empty(wildcard);
}

/// Whether a delay is no longer than the longest that is granted.
pub open spec fn within_cap(delay: Option<Delay>) -> bool {
    delay matches Some(d) ==> d.nanos <= MAX_CRAWL_DELAY
}

/// What stands before the first line that names an agent is lost.
pub proof fn law_lines_before_the_first_agent_are_lost(
    before: Seq<DirectiveView>,
    ds: Seq<DirectiveView>,
)
    requires
        forall|i: int| 0 <= i < before.len() ==> !(#[trigger] before[i] is Agent),
    ensures
        groups(before + ds) == groups(ds),
    decreases before.len() + ds.len(),
{
    let all = before + ds;
    if ds.len() > 0 {
        law_lines_before_the_first_agent_are_lost(before, ds.drop_last());
        assert(all.drop_last() =~= before + ds.drop_last());
        assert(all.last() == ds.last());
        if ds.len() == 1 && before.len() > 0 {
            assert(all[all.len() - 2] == before[before.len() - 1]);
        }
    } else if before.len() > 0 {
        assert(all =~= before);
        assert(before.last() == before[before.len() - 1]);
        law_lines_before_the_first_agent_are_lost(before.drop_last(), ds);
        assert(before.drop_last() + ds =~= before.drop_last());
    } else {
        assert(all =~= ds);
    }
}

/// Of the user agent only the product token counts, in small or capital
/// letters: not the version, nor anything else that follows a `/`.
pub proof fn law_only_the_product_token_counts(
    ds: Seq<DirectiveView>,
    token: Seq<char>,
    version: Seq<char>,
)
    requires
        !token.contains('/'),
    ensures
        asked(ds, token + seq!['/'] + version) == asked(ds, token),
        asked(ds, lowered(token)) == asked(ds, token),
{
    let agent = token + seq!['/'] + version;
    let n = token.len() as int;
    assert forall|i: int| 0 <= i < n implies token[i] != '/' by {
        assert(token.contains(token[i]));
    }
    assert(agent[n] == '/');
    lemma_first_unique(token, '/', n);
    lemma_first_unique(agent, '/', n);
    assert(agent.take(n) =~= token);
    assert(token.take(n) =~= token);
    lemma_lowered(token, '/');
    assert(lowered(token).take(n) =~= lowered(token));
    assert(lowered(lowered(token)) =~= lowered(token));
}

/// No delay that a `robots.txt` asks for is longer than a minute.
pub proof fn law_crawl_delay_is_capped(body: Seq<char>, user_agent: Seq<char>)
    ensures
        within_cap(robots_of(body, user_agent).crawl_delay),
{
    let ds = directives(body);
    let all = lines(body);
    let said = |line: Seq<char>| directive_of(line);
    assert forall|i: int| 0 <= i < ds.len() implies (#[trigger] ds[i] matches
        DirectiveView::CrawlDelay(d) ==> within_cap(d)) by {
        assert(ds.contains(ds[i]));
        all.lemma_filter_map_contains(said, ds[i]);
    }
    lemma_groups_capped(ds);
    let gs = groups(ds);
    let token = product_token(user_agent);
    assert forall|i: int| 0 <= i < chosen(gs, token).len() implies within_cap(
        (#[trigger] chosen(gs, token)[i]).delay,
    ) by {
        let g = chosen(gs, token)[i];
        let specific = |g: GroupView| is_specific(g, token);
        let wildcard = |g: GroupView| is_wildcard(g);
        assert(chosen(gs, token).contains(g));
        if gs.filter(specific).len() == 0 {
            gs.lemma_filter_contains_rev(wildcard, g);
        } else {
            gs.lemma_filter_contains_rev(specific, g);
        }
        assert(gs.contains(g));
    }
    lemma_merged_capped(chosen(gs, token));
}

proof fn lemma_groups_capped(ds: Seq<DirectiveView>)
    requires
        forall|i: int|
            0 <= i < ds.len() ==> (#[trigger] ds[i] matches DirectiveView::CrawlDelay(d)
                ==> within_cap(d)),
    ensures
        forall|i: int| 0 <= i < groups(ds).len() ==> within_cap((#[trigger] groups(ds)[i]).delay),
    decreases ds.len(),
{
    if ds.len() > 0 {
        assert forall|i: int| 0 <= i < ds.drop_last().len() implies (#[trigger] ds.drop_last()[i]
            matches DirectiveView::CrawlDelay(d) ==> within_cap(d)) by {
            assert(ds[i] == ds.drop_last()[i]);
        }
        lemma_groups_capped(ds.drop_last());
        let before = groups(ds.drop_last());
        if before.len() > 0 {
            assert(within_cap(before[before.len() - 1].delay));
        }
        assert(ds[ds.len() - 1] == ds.last());
        lemma_groups_nonempty(ds.drop_last());
    }
}

proof fn lemma_groups_nonempty(ds: Seq<DirectiveView>)
    ensures
        ds.len() > 0 && ds.last() is Agent ==> groups(ds).len() > 0,
    decreases ds.len(),
{
}

proof fn lemma_merged_capped(gs: Seq<GroupView>)
    requires
        forall|i: int| 0 <= i < gs.len() ==> within_cap((#[trigger] gs[i]).delay),
    ensures
        within_cap(merged(gs).crawl_delay),
    decreases gs.len(),
{
    if gs.len() > 0 {
        assert forall|i: int| 0 <= i < gs.drop_last().len() implies within_cap(
            (#[trigger] gs.drop_last()[i]).delay,
        ) by {
            assert(gs[i] == gs.drop_last()[i]);
        }
        lemma_merged_capped(gs.drop_last());
        assert(gs[gs.len() - 1] == gs.last());
    }
}

/// Agents named in a row share one group.
pub proof fn law_agents_in_a_row_share_a_group(
    ds: Seq<DirectiveView>,
    agent: Seq<char>,
)
    requires
        ds.len() > 0,
        ds.last() is Agent,
    ensures
        groups(ds).len() > 0,
        groups(ds.push(DirectiveView::Agent(agent))) == groups(ds).drop_last().push(
            GroupView {
                agents: groups(ds).last().agents.push(agent),
                ..groups(ds).last()
            },
        ),
{
    let next = ds.push(DirectiveView::Agent(agent));
    assert(next.drop_last() =~= ds);
    assert(next[next.len() - 2] == ds.last());
    lemma_groups_nonempty(ds);
}

proof fn lemma_merged_push(groups: Seq<GroupView>, group: GroupView)
    ensures
        merged(groups.push(group)) == (RobotsView {
            rules: merged(groups).rules + group.rules,
            crawl_delay: if group.delay is Some {
                group.delay
            } else {
                merged(groups).crawl_delay
            },
        }),
{
    assert(groups.push(group).drop_last() =~= groups);
}

/// Groups are formed line by line. A line that names an agent after one that
/// does not begins a group of its own; a rule goes to the end of the last
/// group's rules, a delay takes the place of its delay, and every group before
/// it stays as it is.
pub proof fn law_groups_are_formed_line_by_line(
    ds: Seq<DirectiveView>,
    pattern: Seq<char>,
    delay: Option<Delay>,
    agent: Seq<char>,
)
    ensures
        ({
            let gs = groups(ds);
            let n = gs.len() - 1;
            let allow = groups(ds.push(DirectiveView::Allow(pattern)));
            let disallow = groups(ds.push(DirectiveView::Disallow(pattern)));
            let paced = groups(ds.push(DirectiveView::CrawlDelay(delay)));
            let named = groups(ds.push(DirectiveView::Agent(agent)));
            &&& gs.len() == 0 ==> allow.len() == 0 && disallow.len() == 0 && paced.len() == 0
            &&& gs.len() > 0 ==> {
                &&& allow == gs.update(
                    n,
                    GroupView {
                        agents: gs[n].agents,
                        rules: gs[n].rules + seq![(true, pattern)],
                        delay: gs[n].delay,
                    },
                )
                &&& disallow == gs.update(
                    n,
                    GroupView {
                        agents: gs[n].agents,
                        rules: gs[n].rules + seq![(false, pattern)],
                        delay: gs[n].delay,
                    },
                )
                &&& paced == gs.update(
                    n,
                    GroupView { agents: gs[n].agents, rules: gs[n].rules, delay },
                )
            }
            &&& groups(ds.push(DirectiveView::Other)) == gs
            &&& ds.len() == 0 || !(ds.last() is Agent) ==> named == gs + seq![
                GroupView { agents: seq![agent], rules: Seq::empty(), delay: None },
            ]
        }),
        groups(Seq::empty()) == Seq::<GroupView>::empty(),
{
    let gs = groups(ds);
    let a = ds.push(DirectiveView::Allow(pattern));
    let b = ds.push(DirectiveView::Disallow(pattern));
    let c = ds.push(DirectiveView::CrawlDelay(delay));
    let d = ds.push(DirectiveView::Other);
    let e = ds.push(DirectiveView::Agent(agent));
    assert(a.drop_last() =~= ds);
    assert(b.drop_last() =~= ds);
    assert(c.drop_last() =~= ds);
    assert(d.drop_last() =~= ds);
    assert(e.drop_last() =~= ds);
    if ds.len() > 0 {
        assert(e[e.len() - 2] == ds.last());
    }
    if gs.len() > 0 {
        let n = gs.len() - 1;
        assert(gs[n].rules.push((true, pattern)) =~= gs[n].rules + seq![(true, pattern)]);
        assert(gs[n].rules.push((false, pattern)) =~= gs[n].rules + seq![(false, pattern)]);
        assert(groups(a) =~= gs.update(
            n,
            GroupView {
                agents: gs[n].agents,
                rules: gs[n].rules + seq![(true, pattern)],
                delay: gs[n].delay,
            },
        ));
        assert(groups(b) =~= gs.update(
            n,
            GroupView {
                agents: gs[n].agents,
                rules: gs[n].rules + seq![(false, pattern)],
                delay: gs[n].delay,
            },
        ));
        assert(groups(c) =~= gs.update(
            n,
            GroupView { agents: gs[n].agents, rules: gs[n].rules, delay },
        ));
        assert(groups(d) =~= gs);
    }
    if ds.len() == 0 || !(ds.last() is Agent) {
        assert(groups(e) =~= gs + seq![
            GroupView { agents: seq![agent], rules: Seq::empty(), delay: None },
        ]);
    }
}

/// Whether an agent in a group is meant to be the crawler with this name: it is
/// not the wildcard, and stands in the name.
pub open spec fn means(group: GroupView, name: Seq<char>) -> bool {
    exists|k: int|
        0 <= k < group.agents.len() && #[trigger] group.agents[k] != "*"@ && group.agents[k].len()
            > 0 && occurs(name, group.agents[k])
}

/// Whether the crawler with this name has to heed a group: the group means it,
/// or no group does and the group is for all.
pub open spec fn has_to_heed(groups: Seq<GroupView>, i: int, name: Seq<char>) -> bool {
    0 <= i < groups.len() && if exists|k: int|
        0 <= k < groups.len() && means(#[trigger] groups[k], name) {
        means(groups[i], name)
    } else {
        exists|k: int| 0 <= k < groups[i].agents.len() && #[trigger] groups[i].agents[k] == "*"@
    }
}

/// The rules that a crawler keeps are exactly those of the groups that it has to
/// heed, and its delay is that of the last of these that sets one. The crawler
/// goes by what stands before the first `/` of its user agent, in small letters.
pub proof fn law_what_is_asked(
    ds: Seq<DirectiveView>,
    user_agent: Seq<char>,
    product: Seq<char>,
    version: Seq<char>,
)
    requires
        !product.contains('/'),
        user_agent == product || user_agent == product + seq!['/'] + version,
    ensures
        ({
            let gs = groups(ds);
            let name = lowered(product);
            let kept = asked(ds, user_agent);
            &&& forall|rule: (bool, Seq<char>)| #[trigger]
                kept.rules.contains(rule) <==> exists|i: int|
                    #![trigger gs[i]]
                    has_to_heed(gs, i, name) && gs[i].rules.contains(rule)
            &&& kept.crawl_delay is None ==> forall|i: int| #[trigger]
                has_to_heed(gs, i, name) ==> gs[i].delay is None
            &&& kept.crawl_delay is Some ==> exists|i: int|
                {
                    &&& #[trigger] has_to_heed(gs, i, name)
                    &&& gs[i].delay == kept.crawl_delay
                    &&& forall|j: int|
                        i < j && #[trigger] has_to_heed(gs, j, name) ==> gs[j].delay is None
                }
        }),
{
    let gs = groups(ds);
    let name = lowered(product);
    let kept = asked(ds, user_agent);
    law_only_the_product_token_counts(ds, product, version);
    let n = product.len() as int;
    assert forall|i: int| 0 <= i < n implies product[i] != '/' by {
        assert(product.contains(product[i]));
    }
    lemma_first_unique(product, '/', n);
    assert(product.take(n) =~= product);
    assert(product_token(product) == name);
    assert(kept == merged(chosen(gs, name)));
    let specific = |g: GroupView| is_specific(g, name);
    let wildcard = |g: GroupView| is_wildcard(g);
    assert forall|g: GroupView| #[trigger] is_specific(g, name) == means(g, name) by {
        if is_specific(g, name) {
            let k = choose|k: int| 0 <= k < g.agents.len() && names(#[trigger] g.agents[k], name);
            assert(g.agents[k] != "*"@);
        }
        if means(g, name) {
            let k = choose|k: int|
                0 <= k < g.agents.len() && #[trigger] g.agents[k] != "*"@ && g.agents[k].len() > 0
                    && occurs(name, g.agents[k]);
            assert(names(g.agents[k], name));
        }
    }
    broadcast use vstd::seq_lib::group_filter_ensures;

    let some = exists|k: int| 0 <= k < gs.len() && means(#[trigger] gs[k], name);
    if some {
        let k = choose|k: int| 0 <= k < gs.len() && means(#[trigger] gs[k], name);
        assert(specific(gs[k]));
        assert(gs.filter(specific).contains(gs[k]));
        lemma_merged_filter(gs, specific);
        assert forall|i: int| 0 <= i < gs.len() implies has_to_heed(gs, i, name) == specific(
            #[trigger] gs[i],
        ) by {}
    } else {
        assert forall|i: int| 0 <= i < gs.len() implies !specific(#[trigger] gs[i]) by {
            assert(!means(gs[i], name));
        }
        gs.lemma_all_neg_filter_empty(specific);
        lemma_merged_filter(gs, wildcard);
        assert forall|i: int| 0 <= i < gs.len() implies has_to_heed(gs, i, name) == wildcard(
            #[trigger] gs[i],
        ) by {}
    }
    let p = if some {
        specific
    } else {
        wildcard
    };
    assert(kept == merged(gs.filter(p)));
    assert forall|i: int| #[trigger] has_to_heed(gs, i, name) implies 0 <= i < gs.len() && p(
        gs[i],
    ) by {}
    assert forall|i: int| 0 <= i < gs.len() && p(#[trigger] gs[i]) implies has_to_heed(
        gs,
        i,
        name,
    ) by {}
    assert forall|rule: (bool, Seq<char>)| #[trigger]
        kept.rules.contains(rule) implies exists|i: int|
        #![trigger gs[i]]
        has_to_heed(gs, i, name) && gs[i].rules.contains(rule) by {
        let i = choose|i: int|
            #![trigger gs[i]]
            0 <= i < gs.len() && p(gs[i]) && gs[i].rules.contains(rule);
        assert(has_to_heed(gs, i, name));
    }
    if kept.crawl_delay is Some {
        let i = choose|i: int|
            {
                &&& 0 <= i < gs.len() && p(#[trigger] gs[i])
                &&& gs[i].delay == kept.crawl_delay
                &&& forall|j: int|
                    i < j < gs.len() && p(#[trigger] gs[j]) ==> gs[j].delay is None
            };
        assert(has_to_heed(gs, i, name));
    }
}

proof fn lemma_merged_filter(gs: Seq<GroupView>, p: spec_fn(GroupView) -> bool)
    ensures
        ({
            let kept = merged(gs.filter(p));
            &&& forall|rule: (bool, Seq<char>)| #[trigger]
                kept.rules.contains(rule) <==> exists|i: int|
                    #![trigger gs[i]]
                    0 <= i < gs.len() && p(gs[i]) && gs[i].rules.contains(rule)
            &&& kept.crawl_delay is None ==> forall|i: int|
                0 <= i < gs.len() && p(#[trigger] gs[i]) ==> gs[i].delay is None
            &&& kept.crawl_delay is Some ==> exists|i: int|
                {
                    &&& 0 <= i < gs.len() && p(#[trigger] gs[i])
                    &&& gs[i].delay == kept.crawl_delay
                    &&& forall|j: int|
                        i < j < gs.len() && p(#[trigger] gs[j]) ==> gs[j].delay is None
                }
        }),
    decreases gs.len(),
{
    let kept = merged(gs.filter(p));
    if gs.len() == 0 {
        assert(gs.filter(p) =~= Seq::empty()) by {
            reveal(Seq::filter);
        }
    } else {
        let before = gs.drop_last();
        let last = gs.last();
        let old = merged(before.filter(p));
        lemma_merged_filter(before, p);
        assert(before.push(last) =~= gs);
        before.lemma_filter_push(last, p);
        lemma_merged_push(before.filter(p), last);
        assert forall|rule: (bool, Seq<char>)| #[trigger]
            kept.rules.contains(rule) <==> exists|i: int|
                #![trigger gs[i]]
                0 <= i < gs.len() && p(gs[i]) && gs[i].rules.contains(rule) by {
            if kept.rules.contains(rule) {
                let k = choose|k: int| 0 <= k < kept.rules.len() && kept.rules[k] == rule;
                if k < old.rules.len() {
                    assert(old.rules[k] == rule);
                    assert(old.rules.contains(rule));
                    let i = choose|i: int|
                        #![trigger before[i]]
                        0 <= i < before.len() && p(before[i]) && before[i].rules.contains(rule);
                    assert(gs[i] == before[i]);
                } else {
                    assert(last.rules[k - old.rules.len()] == rule);
                    assert(gs[gs.len() - 1] == last);
                    assert(last.rules.contains(rule));
                }
            }
            if exists|i: int|
                #![trigger gs[i]]
                0 <= i < gs.len() && p(gs[i]) && gs[i].rules.contains(rule) {
                let i = choose|i: int|
                    #![trigger gs[i]]
                    0 <= i < gs.len() && p(gs[i]) && gs[i].rules.contains(rule);
                if i < before.len() {
                    assert(before[i] == gs[i]);
                    assert(old.rules.contains(rule));
                    let k = choose|k: int| 0 <= k < old.rules.len() && old.rules[k] == rule;
                    assert(kept.rules[k] == rule);
                } else {
                    let k = choose|k: int| 0 <= k < last.rules.len() && last.rules[k] == rule;
                    assert(kept.rules[old.rules.len() + k] == rule);
                }
            }
        }
        if kept.crawl_delay is None {
            assert forall|i: int| 0 <= i < gs.len() && p(#[trigger] gs[i]) implies gs[i].delay
                is None by {
                if i < before.len() {
                    assert(before[i] == gs[i]);
                }
            }
        } else if p(last) && last.delay is Some {
            assert(gs[gs.len() - 1].delay == kept.crawl_delay);
        } else {
            let i = choose|i: int|
                {
                    &&& 0 <= i < before.len() && p(#[trigger] before[i])
                    &&& before[i].delay == old.crawl_delay
                    &&& forall|j: int|
                        i < j < before.len() && p(#[trigger] before[j]) ==> before[j].delay is None
                };
            assert(gs[i] == before[i]);
            assert forall|j: int| i < j < gs.len() && p(#[trigger] gs[j]) implies gs[j].delay
                is None by {
                if j < before.len() {
                    assert(before[j] == gs[j]);
                }
            }
        }
    }
}

/// Rules are held against all of a web address that stands after its prefix, but
/// for the fragment: what is asked for at the site.
pub proof fn law_target_is_the_rest_of_the_url(v: UrlView)
    requires
        v.valid(),
        v.scheme == "http"@ || v.scheme == "https"@,
    ensures
        v.query is None ==> target_of(v) == v.path,
        v.query matches Some(q) ==> target_of(v) == v.path + seq!['?'] + q,
        v.prefix + target_of(v) + part('#', v.fragment) == v.text(),
{
    if v.query is None {
        assert(target_of(v) =~= v.path);
    } else {
        assert(target_of(v) =~= v.path + seq!['?'] + v.query->0);
    }
    assert(v.prefix + target_of(v) + part('#', v.fragment) =~= v.text());
}

/// What is allowed: a target that a rule forbids is permitted only by a rule that
/// allows it and whose pattern has at least as many bytes.
pub proof fn law_verdict(rules: Seq<(bool, Seq<char>)>, target: Seq<char>)
    ensures
        permits(rules, target) <==> forall|i: int|
            0 <= i < rules.len() && !rules[i].0 && #[trigger] pattern_matches_spec(
                rules[i].1,
                target,
            ) ==> exists|j: int|
                0 <= j < rules.len() && rules[j].0 && #[trigger] pattern_matches_spec(
                    rules[j].1,
                    target,
                ) && encode_utf8(rules[j].1).len() >= encode_utf8(rules[i].1).len(),
{
    law_longest_wins_and_allow_wins_ties(rules, target);
    let right = forall|i: int|
        0 <= i < rules.len() && !rules[i].0 && #[trigger] pattern_matches_spec(
            rules[i].1,
            target,
        ) ==> exists|j: int|
            0 <= j < rules.len() && rules[j].0 && #[trigger] pattern_matches_spec(
                rules[j].1,
                target,
            ) && encode_utf8(rules[j].1).len() >= encode_utf8(rules[i].1).len();
    if permits(rules, target) {
        assert forall|i: int|
            0 <= i < rules.len() && !rules[i].0 && #[trigger] pattern_matches_spec(
                rules[i].1,
                target,
            ) implies exists|j: int|
            0 <= j < rules.len() && rules[j].0 && #[trigger] pattern_matches_spec(
                rules[j].1,
                target,
            ) && encode_utf8(rules[j].1).len() >= encode_utf8(rules[i].1).len() by {
            assert(applies(rules, target, i));
            let j = choose|j: int| #[trigger]
                applies(rules, target, j) && rules[j].0 && byte_len(rules[j].1) >= byte_len(
                    rules[i].1,
                );
            assert(pattern_matches_spec(rules[j].1, target));
        }
    }
    if right {
        assert forall|i: int| #[trigger] applies(rules, target, i) && !rules[i].0 implies exists|
            j: int,
        | #[trigger]
            applies(rules, target, j) && rules[j].0 && byte_len(rules[j].1) >= byte_len(
                rules[i].1,
            ) by {
            assert(pattern_matches_spec(rules[i].1, target));
            let j = choose|j: int|
                0 <= j < rules.len() && rules[j].0 && #[trigger] pattern_matches_spec(
                    rules[j].1,
                    target,
                ) && encode_utf8(rules[j].1).len() >= encode_utf8(rules[i].1).len();
            assert(applies(rules, target, j));
        }
    }
}

/// A web address whose path begins with a pattern that is forbidden, and which no
/// rule allows, is refused.
pub proof fn law_forbidden_paths_are_refused(
    rules: Seq<(bool, Seq<char>)>,
    i: int,
    v: UrlView,
)
    requires
        v.valid(),
        v.scheme == "http"@ || v.scheme == "https"@,
        0 <= i < rules.len(),
        !rules[i].0,
        !rules[i].1.contains('*'),
        rules[i].1.len() == 0 || rules[i].1.last() != '$',
        rules[i].1.is_prefix_of(v.path),
        forall|j: int|
            0 <= j < rules.len() && rules[j].0 ==> !pattern_matches_spec(
                #[trigger] rules[j].1,
                target_of(v),
            ),
    ensures
        !permits(rules, target_of(v)),
{
    let target = target_of(v);
    let p = rules[i].1;
    law_target_is_the_rest_of_the_url(v);
    assert(p =~= target.subrange(0, p.len() as int)) by {
        assert(v.path.is_prefix_of(target));
        assert forall|k: int| 0 <= k < p.len() implies p[k] == target[k] by {
            assert(p[k] == v.path.subrange(0, p.len() as int)[k]);
        }
    }
    law_plain_pattern_is_prefix(p, target);
    law_verdict(rules, target);
    assert(pattern_matches_spec(rules[i].1, target));
}

/// All of a `robots.txt` counts: the crawler keeps exactly the rules that the
/// groups of its lines hold that it has to heed.
pub proof fn law_all_of_the_file_counts(body: Seq<char>, product: Seq<char>)
    requires
        !product.contains('/'),
    ensures
        ({
            let gs = groups(directives(body));
            forall|rule: (bool, Seq<char>)| #[trigger]
                robots_of(body, product).rules.contains(rule) <==> exists|i: int|
                    #![trigger gs[i]]
                    has_to_heed(gs, i, lowered(product)) && gs[i].rules.contains(rule)
        }),
        robots_of(body, product).crawl_delay == asked(directives(body), product).crawl_delay,
{
    law_what_is_asked(directives(body), product, product, Seq::empty());
}

/// The target of any URL is its path, or `/` where it has none, and its query
/// after a `?`.
pub proof fn law_target_of_any_url(v: UrlView)
    ensures
        v.path.len() == 0 && v.query is None ==> target_of(v) == seq!['/'],
        v.path.len() == 0 && v.query is Some ==> target_of(v) == seq!['/', '?'] + v.query->0,
        v.path.len() > 0 && v.query is None ==> target_of(v) == v.path,
        v.path.len() > 0 && v.query is Some ==> target_of(v) == v.path + seq!['?'] + v.query->0,
{
    reveal_strlit("/");
    if v.query is None {
        if v.path.len() == 0 {
            assert(target_of(v) =~= seq!['/']);
        } else {
            assert(target_of(v) =~= v.path);
        }
    } else {
        if v.path.len() == 0 {
            assert(target_of(v) =~= seq!['/', '?'] + v.query->0);
        } else {
            assert(target_of(v) =~= v.path + seq!['?'] + v.query->0);
        }
    }
}

} // verus!
