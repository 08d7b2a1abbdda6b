//! What holds of command lines, whatever the order of their options.
use crate::args::{
    argument, command, default_options, error_message, options_of, ArgsErrorView, ArgumentView,
    CommandView, ConfigView, OptionsView,
};
use crate::number::{number, NumberError};
use crate::web_url::parsed;
use vstd::prelude::*;

verus! {

/// An option as it is given on a command line: a flag, with its value if it
/// takes one, or the seed.
pub struct Given {
    pub flag: Seq<char>,
    pub value: Option<Seq<char>>,
}

/// What an option is about.
pub enum Field {
    MaxPages,
    Concurrency,
    MaxDepth,
    Timeout,
    Retries,
    Output,
    UserAgent,
    Append,
    SameHostOnly,
    RespectRobots,
    Seed,
}

/// What a field is set to.
pub enum Setting {
    Number(nat),
    Text(Seq<char>),
    Switch(bool),
    Seed(Option<Seq<char>>),
}

/// What the option with a flag is about; what is no flag is the seed.
pub open spec fn field_of(flag: Seq<char>) -> Field {
    if flag == "--max-pages"@ {
        Field::MaxPages
    } else if flag == "--concurrency"@ {
        Field::Concurrency
    } else if flag == "--max-depth"@ {
        Field::MaxDepth
    } else if flag == "--timeout"@ {
        Field::Timeout
    } else if flag == "--retries"@ {
        Field::Retries
    } else if flag == "--output"@ {
        Field::Output
    } else if flag == "--user-agent"@ {
        Field::UserAgent
    } else if flag == "--append"@ {
        Field::Append
    } else if flag == "--all-hosts"@ {
        Field::SameHostOnly
    } else if flag == "--ignore-robots"@ {
        Field::RespectRobots
    } else {
        Field::Seed
    }
}

/// The largest number that an option takes.
pub open spec fn limit(f: Field) -> nat {
    match f {
        Field::Timeout => u64::MAX as nat,
        _ => usize::MAX as nat,
    }
}

/// Whether an option is given as it is meant to be.
pub open spec fn well_given(g: Given) -> bool {
    match field_of(g.flag) {
        Field::MaxPages
        | Field::Concurrency
        | Field::MaxDepth
        | Field::Timeout
        | Field::Retries => g.value matches Some(value) && number(
            value,
            limit(field_of(g.flag)),
        ) is Ok,
        Field::Output | Field::UserAgent => g.value is Some,
        Field::Append | Field::SameHostOnly | Field::RespectRobots => g.value is None,
        Field::Seed => g.value is None && !(g.flag.len() > 0 && g.flag[0] == '-'),
    }
}

/// What an option that is well given sets its field to.
pub open spec fn set_to(g: Given) -> Setting {
    match field_of(g.flag) {
        Field::MaxPages
        | Field::Concurrency
        | Field::MaxDepth
        | Field::Timeout
        | Field::Retries => Setting::Number(
            number(g.value->0, limit(field_of(g.flag)))->Ok_0,
        ),
        Field::Output | Field::UserAgent => Setting::Text(g.value->0),
        Field::Append => Setting::Switch(true),
        Field::SameHostOnly | Field::RespectRobots => Setting::Switch(false),
        Field::Seed => Setting::Seed(Some(g.flag)),
    }
}

/// What a field of options holds.
pub open spec fn setting(o: OptionsView, f: Field) -> Setting {
    match f {
        Field::MaxPages => Setting::Number(o.max_pages),
        Field::Concurrency => Setting::Number(o.concurrency),
        Field::MaxDepth => Setting::Number(o.max_depth),
        Field::Timeout => Setting::Number(o.timeout_secs),
        Field::Retries => Setting::Number(o.retries),
        Field::Output => Setting::Text(o.output),
        Field::UserAgent => Setting::Text(o.user_agent),
        Field::Append => Setting::Switch(o.append),
        Field::SameHostOnly => Setting::Switch(o.same_host_only),
        Field::RespectRobots => Setting::Switch(o.respect_robots),
        Field::Seed => Setting::Seed(o.seed),
    }
}

/// Options with one field set.
spec fn with_setting(o: OptionsView, g: Given) -> OptionsView {
    let s = set_to(g);
    match field_of(g.flag) {
        Field::MaxPages => OptionsView { max_pages: s->Number_0, ..o },
        Field::Concurrency => OptionsView { concurrency: s->Number_0, ..o },
        Field::MaxDepth => OptionsView { max_depth: s->Number_0, ..o },
        Field::Timeout => OptionsView { timeout_secs: s->Number_0, ..o },
        Field::Retries => OptionsView { retries: s->Number_0, ..o },
        Field::Output => OptionsView { output: s->Text_0, ..o },
        Field::UserAgent => OptionsView { user_agent: s->Text_0, ..o },
        Field::Append => OptionsView { append: s->Switch_0, ..o },
        Field::SameHostOnly => OptionsView { same_host_only: s->Switch_0, ..o },
        Field::RespectRobots => OptionsView { respect_robots: s->Switch_0, ..o },
        Field::Seed => OptionsView { seed: s->Seed_0, ..o },
    }
}

/// The arguments of an option.
pub open spec fn words(g: Given) -> Seq<Seq<char>> {
    match g.value {
        Some(value) => seq![g.flag, value],
        None => seq![g.flag],
    }
}

/// The command line on which options are given one after the other.
pub open spec fn line(given: Seq<Given>) -> Seq<Seq<char>>
    decreases given.len(),
{
    if given.len() == 0 {
        Seq::empty()
    } else {
        words(given[0]) + line(given.drop_first())
    }
}

/// Whether options are well given, and nothing is set twice.
pub open spec fn well_given_once(given: Seq<Given>) -> bool {
    &&& forall|i: int| 0 <= i < given.len() ==> well_given(#[trigger] given[i])
    &&& forall|i: int, j: int|
        0 <= i < j < given.len() ==> field_of((#[trigger] given[i]).flag) != field_of(
            (#[trigger] given[j]).flag,
        )
}

/// Options that are set one after the other.
spec fn applied(o: OptionsView, given: Seq<Given>) -> OptionsView
    decreases given.len(),
{
    if given.len() == 0 {
        o
    } else {
        applied(with_setting(o, given[0]), given.drop_first())
    }
}

proof fn lemma_words(o: OptionsView, g: Given, rest: Seq<Seq<char>>)
    requires
        well_given(g),
        field_of(g.flag) is Seed ==> o.seed is None,
    ensures
        options_of(o, words(g) + rest) == options_of(with_setting(o, g), rest),
{
    reveal_strlit("-h");
    reveal_strlit("--help");
    reveal_strlit("--max-pages");
    reveal_strlit("--concurrency");
    reveal_strlit("--max-depth");
    reveal_strlit("--timeout");
    reveal_strlit("--retries");
    reveal_strlit("--output");
    reveal_strlit("--user-agent");
    reveal_strlit("--append");
    reveal_strlit("--all-hosts");
    reveal_strlit("--ignore-robots");
    let all = words(g) + rest;
    match g.value {
        Some(value) => {
            assert(all.skip(1)[0] == value);
            assert(all.skip(2) =~= rest);
            assert(argument(o, g.flag, all.skip(1)) == ArgumentView::TakenWithValue(
                with_setting(o, g),
            ));
        },
        None => {
            assert(all.skip(1) =~= rest);
            assert(argument(o, g.flag, rest) == ArgumentView::Taken(with_setting(o, g)));
        },
    }
}

proof fn lemma_line(o: OptionsView, given: Seq<Given>)
    requires
        well_given_once(given),
        forall|i: int|
            0 <= i < given.len() && field_of((#[trigger] given[i]).flag) is Seed ==> o.seed is None,
    ensures
        options_of(o, line(given)) == Ok::<Option<OptionsView>, ArgsErrorView>(
            Some(applied(o, given)),
        ),
    decreases given.len(),
{
    if given.len() > 0 {
        let rest = given.drop_first();
        assert(well_given(given[0]));
        lemma_words(o, given[0], line(rest));
        lemma_rest(given);
        assert forall|i: int|
            0 <= i < rest.len() && field_of((#[trigger] rest[i]).flag) is Seed implies with_setting(
            o,
            given[0],
        ).seed is None by {
            assert(rest[i] == given[i + 1]);
            assert(field_of(given[0].flag) != field_of(given[i + 1].flag));
        }
        lemma_line(with_setting(o, given[0]), rest);
    }
}

proof fn lemma_rest(given: Seq<Given>)
    requires
        well_given_once(given),
        given.len() > 0,
    ensures
        well_given_once(given.drop_first()),
{
    let rest = given.drop_first();
    assert forall|i: int| 0 <= i < rest.len() implies well_given(#[trigger] rest[i]) by {
        assert(rest[i] == given[i + 1]);
    }
    assert forall|i: int, j: int| 0 <= i < j < rest.len() implies field_of(
        (#[trigger] rest[i]).flag,
    ) != field_of((#[trigger] rest[j]).flag) by {
        assert(rest[i] == given[i + 1]);
        assert(rest[j] == given[j + 1]);
    }
}

proof fn lemma_applied(o: OptionsView, given: Seq<Given>, f: Field)
    requires
        well_given_once(given),
    ensures
        forall|i: int|
            0 <= i < given.len() && field_of((#[trigger] given[i]).flag) == f ==> setting(
                applied(o, given),
                f,
            ) == set_to(given[i]),
        (forall|i: int| 0 <= i < given.len() ==> field_of((#[trigger] given[i]).flag) != f)
            ==> setting(applied(o, given), f) == setting(o, f),
    decreases given.len(),
{
    if given.len() > 0 {
        let rest = given.drop_first();
        let p = with_setting(o, given[0]);
        lemma_rest(given);
        lemma_applied(p, rest, f);
        assert(well_given(given[0]));
        assert(applied(o, given) == applied(p, rest));
        if field_of(given[0].flag) == f {
            assert forall|i: int| 0 <= i < rest.len() implies field_of((#[trigger] rest[i]).flag)
                != f by {
                assert(rest[i] == given[i + 1]);
            }
            assert(setting(p, f) == set_to(given[0]));
        } else {
            assert(setting(p, f) == setting(o, f));
        }
        assert forall|i: int|
            0 <= i < given.len() && field_of((#[trigger] given[i]).flag) == f implies setting(
            applied(o, given),
            f,
        ) == set_to(given[i]) by {
            if i > 0 {
                assert(given[i] == rest[i - 1]);
                assert(field_of(given[0].flag) != field_of(given[i].flag));
            }
        }
        if forall|i: int| 0 <= i < given.len() ==> field_of((#[trigger] given[i]).flag) != f {
            assert forall|i: int| 0 <= i < rest.len() implies field_of((#[trigger] rest[i]).flag)
                != f by {
                assert(rest[i] == given[i + 1]);
            }
        }
    }
}

/// Each option sets its own field, and a field that no option sets keeps its
/// default.
pub proof fn law_each_option_sets_its_own_field(given: Seq<Given>, f: Field)
    requires
        well_given_once(given),
    ensures
        options_of(default_options(), line(given)) matches Ok(Some(o)) && {
            &&& forall|i: int|
                0 <= i < given.len() && field_of((#[trigger] given[i]).flag) == f ==> setting(o, f)
                    == set_to(given[i])
            &&& (forall|i: int| 0 <= i < given.len() ==> field_of((#[trigger] given[i]).flag) != f)
                ==> setting(o, f) == setting(default_options(), f)
        },
{
    lemma_line(default_options(), given);
    lemma_applied(default_options(), given, f);
}

/// The order of the options does not matter: two command lines that give the
/// same options, each once, ask for the same.
pub proof fn law_option_order_does_not_matter(a: Seq<Given>, b: Seq<Given>)
    requires
        well_given_once(a),
        well_given_once(b),
        forall|g: Given| a.contains(g) == b.contains(g),
    ensures
        options_of(default_options(), line(a)) == options_of(default_options(), line(b)),
        command(line(a)) == command(line(b)),
{
    let o = default_options();
    lemma_line(o, a);
    lemma_line(o, b);
    let p = applied(o, a);
    let q = applied(o, b);
    assert forall|f: Field| #[trigger] setting(p, f) == setting(q, f) by {
        lemma_applied(o, a, f);
        lemma_applied(o, b, f);
        if exists|i: int| 0 <= i < a.len() && field_of((#[trigger] a[i]).flag) == f {
            let i = choose|i: int| 0 <= i < a.len() && field_of((#[trigger] a[i]).flag) == f;
            assert(a.contains(a[i]));
            let j = choose|j: int| 0 <= j < b.len() && b[j] == a[i];
            assert(field_of(b[j].flag) == f);
        } else {
            assert forall|j: int| 0 <= j < b.len() implies field_of((#[trigger] b[j]).flag)
                != f by {
                assert(b.contains(b[j]));
                let i = choose|i: int| 0 <= i < a.len() && a[i] == b[j];
                assert(field_of(a[i].flag) != f);
            }
        }
    }
    assert(setting(p, Field::MaxPages) == setting(q, Field::MaxPages));
    assert(setting(p, Field::Concurrency) == setting(q, Field::Concurrency));
    assert(setting(p, Field::MaxDepth) == setting(q, Field::MaxDepth));
    assert(setting(p, Field::Timeout) == setting(q, Field::Timeout));
    assert(setting(p, Field::Retries) == setting(q, Field::Retries));
    assert(setting(p, Field::Output) == setting(q, Field::Output));
    assert(setting(p, Field::UserAgent) == setting(q, Field::UserAgent));
    assert(setting(p, Field::Append) == setting(q, Field::Append));
    assert(setting(p, Field::SameHostOnly) == setting(q, Field::SameHostOnly));
    assert(setting(p, Field::RespectRobots) == setting(q, Field::RespectRobots));
    assert(setting(p, Field::Seed) == setting(q, Field::Seed));
    assert(p == q);
}

/// What is asked for where nothing is given.
pub proof fn law_defaults()
    ensures
        ({
            let o = default_options();
            &&& o.seed is None
            &&& o.max_pages == 100 && o.concurrency == 10 && o.max_depth == 3
            &&& o.timeout_secs == 15 && o.retries == 2
            &&& o.output == "scraped.jsonl"@ && o.user_agent == "RustCrawler/0.1"@
            &&& !o.append && o.same_host_only && o.respect_robots
        }),
{
}

/// Options are read one by one: after one that is well given, the rest of the
/// command line is read as if it stood alone, with that one field set.
pub proof fn law_options_are_read_one_by_one(o: OptionsView, g: Given, rest: Seq<Seq<char>>)
    requires
        well_given(g),
        field_of(g.flag) is Seed ==> o.seed is None,
    ensures
        exists|p: OptionsView|
            {
                &&& options_of(o, words(g) + rest) == #[trigger] options_of(p, rest)
                &&& setting(p, field_of(g.flag)) == set_to(g)
                &&& forall|f: Field| f != field_of(g.flag) ==> #[trigger] setting(p, f) == setting(
                    o,
                    f,
                )
            },
        options_of(o, Seq::empty()) == Ok::<Option<OptionsView>, ArgsErrorView>(Some(o)),
{
    lemma_words(o, g, rest);
    let p = with_setting(o, g);
    assert(options_of(o, words(g) + rest) == options_of(p, rest));
}

/// What ends the reading of a command line, wherever it stands: help, a flag
/// that is not known, a second seed, a flag whose value is missing, and one
/// whose value is no number in range.
pub proof fn law_what_ends_the_reading(
    o: OptionsView,
    arg: Seq<char>,
    rest: Seq<Seq<char>>,
)
    ensures
        ({
            let read = options_of(o, seq![arg] + rest);
            let switch = arg == "--append"@ || arg == "--all-hosts"@ || arg == "--ignore-robots"@;
            let size = arg == "--max-pages"@ || arg == "--concurrency"@ || arg == "--max-depth"@
                || arg == "--retries"@;
            let text = arg == "--output"@ || arg == "--user-agent"@;
            let help = arg == "-h"@ || arg == "--help"@;
            let flag = arg.len() > 0 && arg[0] == '-';
            &&& help ==> read == Ok::<Option<OptionsView>, ArgsErrorView>(None)
            &&& flag && !help && !switch && !size && !text && arg != "--timeout"@ ==> read == Err::<
                Option<OptionsView>,
                ArgsErrorView,
            >(ArgsErrorView::UnknownFlag(arg))
            &&& !flag && o.seed is Some ==> read == Err::<Option<OptionsView>, ArgsErrorView>(
                ArgsErrorView::ExtraArgument(arg),
            )
            &&& (size || text || arg == "--timeout"@) && rest.len() == 0 ==> read == Err::<
                Option<OptionsView>,
                ArgsErrorView,
            >(ArgsErrorView::MissingValue(arg))
            &&& size && rest.len() > 0 ==> {
                number(rest[0], usize::MAX as nat) matches Err(e) ==> read == Err::<
                    Option<OptionsView>,
                    ArgsErrorView,
                >(ArgsErrorView::InvalidNumber(arg, rest[0], e))
            }
            &&& arg == "--timeout"@ && rest.len() > 0 ==> {
                number(rest[0], u64::MAX as nat) matches Err(e) ==> read == Err::<
                    Option<OptionsView>,
                    ArgsErrorView,
                >(ArgsErrorView::InvalidNumber(arg, rest[0], e))
            }
        }),
{
    reveal_strlit("-h");
    reveal_strlit("--help");
    reveal_strlit("--max-pages");
    reveal_strlit("--concurrency");
    reveal_strlit("--max-depth");
    reveal_strlit("--timeout");
    reveal_strlit("--retries");
    reveal_strlit("--output");
    reveal_strlit("--user-agent");
    reveal_strlit("--append");
    reveal_strlit("--all-hosts");
    reveal_strlit("--ignore-robots");
    let all = seq![arg] + rest;
    assert(all[0] == arg);
    assert(all.skip(1) =~= rest);
    assert("--retries"@[2] == 'r' && "--timeout"@[2] == 't');
    assert("--max-pages"@[6] == 'p' && "--max-depth"@[6] == 'd' && "--all-hosts"@[6] == 'h');
    assert("--output"@[2] == 'o' && "--append"@[2] == 'a');
    let one = argument(o, arg, rest);
    assert(one is Help ==> options_of(o, all) == Ok::<Option<OptionsView>, ArgsErrorView>(None));
    assert(one matches ArgumentView::Refused(e) ==> options_of(o, all) == Err::<
        Option<OptionsView>,
        ArgsErrorView,
    >(e));
}

/// A crawl is configured if there is a seed, it reads as a web address, and there
/// is at least one worker; it does then what the options say. The first of these
/// that fails is what is said.
pub proof fn law_which_crawls_are_configured(args: Seq<Seq<char>>, o: OptionsView)
    requires
        options_of(default_options(), args) == Ok::<Option<OptionsView>, ArgsErrorView>(Some(o)),
    ensures
        ({
            let read = parsed(o.seed->0);
            let refused = |e: ArgsErrorView| command(args) == Err::<CommandView, ArgsErrorView>(e);
            &&& o.seed is None ==> refused(ArgsErrorView::MissingSeed)
            &&& o.seed is Some ==> {
                &&& read matches Err(reason) ==> refused(ArgsErrorView::InvalidSeed(reason))
                &&& read matches Ok(v) ==> {
                    let web = v.scheme == "http"@ || v.scheme == "https"@;
                    &&& !web ==> refused(ArgsErrorView::SeedScheme)
                    &&& web && o.concurrency == 0 ==> refused(ArgsErrorView::ZeroConcurrency)
                    &&& web && o.concurrency > 0 ==> command(args) == Ok::<
                        CommandView,
                        ArgsErrorView,
                    >(
                        CommandView::Crawl(
                            ConfigView {
                                seed: v,
                                max_pages: o.max_pages,
                                concurrency: o.concurrency,
                                max_depth: o.max_depth,
                                timeout_secs: o.timeout_secs,
                                retries: o.retries,
                                output: o.output,
                                append: o.append,
                                same_host_only: o.same_host_only,
                                respect_robots: o.respect_robots,
                                user_agent: o.user_agent,
                            },
                        ),
                    )
                }
            }
        }),
{
}

/// What is said of a command line that is refused names what was wrong in it.
pub proof fn law_what_is_said(flag: Seq<char>, raw: Seq<char>)
    ensures
        error_message(ArgsErrorView::UnknownFlag(flag)) == "unknown flag: "@ + flag
            + " (try --help)"@,
        error_message(ArgsErrorView::ExtraArgument(raw)) == "unexpected extra argument: "@ + raw,
        error_message(ArgsErrorView::MissingValue(flag)) == "missing value for "@ + flag,
        error_message(ArgsErrorView::InvalidNumber(flag, raw, NumberError::Empty))
            == "invalid value for "@ + flag + ": "@ + raw + " ("@
            + "cannot parse integer from empty string"@ + ")"@,
        error_message(ArgsErrorView::InvalidNumber(flag, raw, NumberError::InvalidDigit))
            == "invalid value for "@ + flag + ": "@ + raw + " ("@
            + "invalid digit found in string"@ + ")"@,
        error_message(ArgsErrorView::InvalidNumber(flag, raw, NumberError::TooLarge))
            == "invalid value for "@ + flag + ": "@ + raw + " ("@
            + "number too large to fit in target type"@ + ")"@,
        error_message(ArgsErrorView::MissingSeed) == "missing seed URL (try --help)"@,
        error_message(ArgsErrorView::InvalidSeed(raw)) == raw,
        error_message(ArgsErrorView::SeedScheme) == "seed URL must be http or https"@,
        error_message(ArgsErrorView::ZeroConcurrency) == "concurrency must be greater than 0"@,
{
}

} // verus!
