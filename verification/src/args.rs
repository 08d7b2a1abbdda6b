//! The command line.
use crate::number::{law_number_is_its_value, number, read_number, NumberError};
use crate::text::{chars_of, same_text, string_texts};
use crate::web_url::{option_text, parsed, read_view, Address, UrlView, MAX_TEXT_BYTES};
use vstd::prelude::*;
use vstd::utf8::encode_utf8;

verus! {

/// What `--help` shows.
pub const USAGE: &'static str = "Usage: web_crawler <SEED_URL> [OPTIONS]\n\
         \n\
         Options:\n\
           --max-pages <N>      Maximum pages to crawl (default: 100)\n\
           --concurrency <N>    Concurrent workers / in-flight requests (default: 10)\n\
           --max-depth <N>      Maximum link depth (default: 3)\n\
           --timeout <SECS>     Per-request timeout in seconds (default: 15)\n\
           --retries <N>        Retries for network errors, 429 and 5xx (default: 2)\n\
           --output <FILE>      Output JSONL file (default: scraped.jsonl)\n\
           --append             Append to the output file instead of overwriting it\n\
           --user-agent <UA>    User-Agent header (default: RustCrawler/0.1)\n\
           --all-hosts          Follow links to other hosts (default: same host only)\n\
           --ignore-robots      Do not fetch or enforce robots.txt\n\
           -h, --help           Show this help";

/// Arguments that are read one by one.
pub struct Args {
    values: Vec<String>,
    at: usize,
}

impl View for Args {
    type V = Seq<Seq<char>>;

    /// The arguments that are left.
    closed spec fn view(&self) -> Seq<Seq<char>> {
        string_texts(self.values@).skip(self.at as int)
    }
}

/// Why a command line is refused.
pub enum ArgsError {
    UnknownFlag(String),
    ExtraArgument(String),
    MissingValue(String),
    InvalidNumber(String, String, NumberError),
    MissingSeed,
    InvalidSeed(String),
    SeedScheme,
    ZeroConcurrency,
}

/// Why a command line is refused, over views.
pub enum ArgsErrorView {
    UnknownFlag(Seq<char>),
    ExtraArgument(Seq<char>),
    MissingValue(Seq<char>),
    InvalidNumber(Seq<char>, Seq<char>, NumberError),
    MissingSeed,
    InvalidSeed(Seq<char>),
    SeedScheme,
    ZeroConcurrency,
}

impl View for ArgsError {
    type V = ArgsErrorView;

    open spec fn view(&self) -> ArgsErrorView {
        match *self {
            ArgsError::UnknownFlag(flag) => ArgsErrorView::UnknownFlag(flag@),
            ArgsError::ExtraArgument(arg) => ArgsErrorView::ExtraArgument(arg@),
            ArgsError::MissingValue(flag) => ArgsErrorView::MissingValue(flag@),
            ArgsError::InvalidNumber(flag, raw, e) => ArgsErrorView::InvalidNumber(flag@, raw@, e),
            ArgsError::MissingSeed => ArgsErrorView::MissingSeed,
            ArgsError::InvalidSeed(reason) => ArgsErrorView::InvalidSeed(reason@),
            ArgsError::SeedScheme => ArgsErrorView::SeedScheme,
            ArgsError::ZeroConcurrency => ArgsErrorView::ZeroConcurrency,
        }
    }
}

/// What is said of a text that is no number in range.
pub open spec fn number_message(e: NumberError) -> Seq<char> {
    match e {
        NumberError::Empty => "cannot parse integer from empty string"@,
        NumberError::InvalidDigit => "invalid digit found in string"@,
        NumberError::TooLarge => "number too large to fit in target type"@,
    }
}

/// What is said of a command line that is refused.
pub open spec fn error_message(e: ArgsErrorView) -> Seq<char> {
    match e {
        ArgsErrorView::UnknownFlag(flag) => "unknown flag: "@ + flag + " (try --help)"@,
        ArgsErrorView::ExtraArgument(arg) => "unexpected extra argument: "@ + arg,
        ArgsErrorView::MissingValue(flag) => "missing value for "@ + flag,
        ArgsErrorView::InvalidNumber(flag, raw, e) => "invalid value for "@ + flag + ": "@ + raw
            + " ("@ + number_message(e) + ")"@,
        ArgsErrorView::MissingSeed => "missing seed URL (try --help)"@,
        ArgsErrorView::InvalidSeed(reason) => reason,
        ArgsErrorView::SeedScheme => "seed URL must be http or https"@,
        ArgsErrorView::ZeroConcurrency => "concurrency must be greater than 0"@,
    }
}

/// What is said of a text that is no number in range.
fn describe_number(e: NumberError) -> (res: &'static str)
    ensures
        res@ == number_message(e),
{
    match e {
        NumberError::Empty => "cannot parse integer from empty string",
        NumberError::InvalidDigit => "invalid digit found in string",
        NumberError::TooLarge => "number too large to fit in target type",
    }
}

impl ArgsError {
    /// What is said of the command line.
    pub fn message(&self) -> (res: String)
        ensures
            res@ == error_message(self@),
    {
        match self {
            ArgsError::UnknownFlag(flag) => {
                let mut res = "unknown flag: ".to_owned();
                res.append(flag.as_str());
                res.append(" (try --help)");
                res
            },
            ArgsError::ExtraArgument(arg) => {
                let mut res = "unexpected extra argument: ".to_owned();
                res.append(arg.as_str());
                res
            },
            ArgsError::MissingValue(flag) => {
                let mut res = "missing value for ".to_owned();
                res.append(flag.as_str());
                res
            },
            ArgsError::InvalidNumber(flag, raw, e) => {
                let mut res = "invalid value for ".to_owned();
                res.append(flag.as_str());
                res.append(": ");
                res.append(raw.as_str());
                res.append(" (");
                res.append(describe_number(*e));
                res.append(")");
                res
            },
            ArgsError::MissingSeed => "missing seed URL (try --help)".to_owned(),
            ArgsError::InvalidSeed(reason) => reason.clone(),
            ArgsError::SeedScheme => "seed URL must be http or https".to_owned(),
            ArgsError::ZeroConcurrency => "concurrency must be greater than 0".to_owned(),
        }
    }
}

impl Args {
    #[verifier::type_invariant]
    spec fn in_range(self) -> bool {
        self.at <= self.values@.len()
    }

    /// All arguments are left.
    pub fn new(values: Vec<String>) -> (res: Args)
        ensures
            res@ == string_texts(values@),
    {
        let res = Args { values, at: 0 };
        assert(res@ =~= string_texts(values@));
        res
    }

    /// The next argument.
    pub fn next(&mut self) -> (res: Option<String>)
        ensures
            match res {
                Some(arg) => old(self)@.len() > 0 && arg@ == old(self)@[0] && final(self)@
                    == old(self)@.skip(1),
                None => old(self)@.len() == 0 && final(self)@ == old(self)@,
            },
    {
        proof {
            use_type_invariant(&*self);
        }
        if self.at < self.values.len() {
            let arg = self.values[self.at].clone();
            self.at = self.at + 1;
            assert(self@ =~= old(self)@.skip(1));
            Some(arg)
        } else {
            None
        }
    }
}

/// The value of a flag: the argument that follows it.
pub fn next_value(args: &mut Args, flag: &str) -> (res: Result<String, ArgsError>)
    ensures
        match res {
            Ok(value) => old(args)@.len() > 0 && value@ == old(args)@[0] && final(args)@
                == old(args)@.skip(1),
            Err(e) => old(args)@.len() == 0 && e@ == ArgsErrorView::MissingValue(flag@)
                && final(args)@ == old(args)@,
        },
{
    match args.next() {
        Some(value) => Ok(value),
        None => Err(ArgsError::MissingValue(flag.to_owned())),
    }
}

/// The outcome of reading the value of a flag as a number from zero to `max`,
/// given the arguments that follow the flag.
pub open spec fn number_value(rest: Seq<Seq<char>>, flag: Seq<char>, max: nat) -> Result<
    nat,
    ArgsErrorView,
> {
    if rest.len() == 0 {
        Err(ArgsErrorView::MissingValue(flag))
    } else {
        match number(rest[0], max) {
            Ok(n) => Ok(n),
            Err(e) => Err(ArgsErrorView::InvalidNumber(flag, rest[0], e)),
        }
    }
}

/// The value of a flag, a number from zero to `max`.
pub fn parse_num(args: &mut Args, flag: &str, max: u64) -> (res: Result<u64, ArgsError>)
    ensures
        match res {
            Ok(n) => number_value(old(args)@, flag@, max as nat) == Ok::<nat, ArgsErrorView>(
                n as nat,
            ),
            Err(e) => number_value(old(args)@, flag@, max as nat) == Err::<nat, ArgsErrorView>(e@),
        },
        final(args)@ == if old(args)@.len() == 0 {
            old(args)@
        } else {
            old(args)@.skip(1)
        },
{
    let raw = match next_value(args, flag) {
        Ok(raw) => raw,
        Err(e) => return Err(e),
    };
    match read_number(raw.as_str(), max) {
        Ok(n) => Ok(n),
        Err(e) => Err(ArgsError::InvalidNumber(flag.to_owned(), raw, e)),
    }
}

/// What the command line asks for, before the seed is read.
pub struct Options {
    pub seed: Option<String>,
    pub max_pages: usize,
    pub concurrency: usize,
    pub max_depth: usize,
    pub timeout_secs: u64,
    pub retries: usize,
    pub output: String,
    pub append: bool,
    pub same_host_only: bool,
    pub respect_robots: bool,
    pub user_agent: String,
}

/// What the command line asks for, over views.
#[verifier::ext_equal]
pub struct OptionsView {
    pub seed: Option<Seq<char>>,
    pub max_pages: nat,
    pub concurrency: nat,
    pub max_depth: nat,
    pub timeout_secs: nat,
    pub retries: nat,
    pub output: Seq<char>,
    pub append: bool,
    pub same_host_only: bool,
    pub respect_robots: bool,
    pub user_agent: Seq<char>,
}

impl View for Options {
    type V = OptionsView;

    open spec fn view(&self) -> OptionsView {
        OptionsView {
            seed: option_text(self.seed),
            max_pages: self.max_pages as nat,
            concurrency: self.concurrency as nat,
            max_depth: self.max_depth as nat,
            timeout_secs: self.timeout_secs as nat,
            retries: self.retries as nat,
            output: self.output@,
            append: self.append,
            same_host_only: self.same_host_only,
            respect_robots: self.respect_robots,
            user_agent: self.user_agent@,
        }
    }
}

/// What an empty command line asks for.
pub open spec fn default_options() -> OptionsView {
    OptionsView {
        seed: None,
        max_pages: 100,
        concurrency: 10,
        max_depth: 3,
        timeout_secs: 15,
        retries: 2,
        output: "scraped.jsonl"@,
        append: false,
        same_host_only: true,
        respect_robots: true,
        user_agent: "RustCrawler/0.1"@,
    }
}

impl Options {
    /// What an empty command line asks for.
    pub fn new() -> (res: Options)
        ensures
            res@ == default_options(),
    {
        Options {
            seed: None,
            max_pages: 100,
            concurrency: 10,
            max_depth: 3,
            timeout_secs: 15,
            retries: 2,
            output: "scraped.jsonl".to_owned(),
            append: false,
            same_host_only: true,
            respect_robots: true,
            user_agent: "RustCrawler/0.1".to_owned(),
        }
    }
}

/// What one argument, with its value if it takes one, comes to.
pub enum ArgumentView {
    Help,
    Taken(OptionsView),
    TakenWithValue(OptionsView),
    Refused(ArgsErrorView),
}

/// What a flag comes to that takes a number.
pub open spec fn with_number(
    n: Result<nat, ArgsErrorView>,
    set: spec_fn(nat) -> OptionsView,
) -> ArgumentView {
    match n {
        Ok(n) => ArgumentView::TakenWithValue(set(n)),
        Err(e) => ArgumentView::Refused(e),
    }
}

/// What a flag comes to that takes a text.
pub open spec fn with_text(
    rest: Seq<Seq<char>>,
    flag: Seq<char>,
    set: spec_fn(Seq<char>) -> OptionsView,
) -> ArgumentView {
    if rest.len() == 0 {
        ArgumentView::Refused(ArgsErrorView::MissingValue(flag))
    } else {
        ArgumentView::TakenWithValue(set(rest[0]))
    }
}

/// What an argument comes to, given the arguments that follow it.
pub open spec fn argument(o: OptionsView, arg: Seq<char>, rest: Seq<Seq<char>>) -> ArgumentView {
    let size = number_value(rest, arg, usize::MAX as nat);
    let seconds = number_value(rest, arg, u64::MAX as nat);
    if arg == "-h"@ || arg == "--help"@ {
        ArgumentView::Help
    } else if arg == "--max-pages"@ {
        with_number(size, |n: nat| OptionsView { max_pages: n, ..o })
    } else if arg == "--concurrency"@ {
        with_number(size, |n: nat| OptionsView { concurrency: n, ..o })
    } else if arg == "--max-depth"@ {
        with_number(size, |n: nat| OptionsView { max_depth: n, ..o })
    } else if arg == "--timeout"@ {
        with_number(seconds, |n: nat| OptionsView { timeout_secs: n, ..o })
    } else if arg == "--retries"@ {
        with_number(size, |n: nat| OptionsView { retries: n, ..o })
    } else if arg == "--output"@ {
        with_text(rest, arg, |s: Seq<char>| OptionsView { output: s, ..o })
    } else if arg == "--user-agent"@ {
        with_text(rest, arg, |s: Seq<char>| OptionsView { user_agent: s, ..o })
    } else if arg == "--append"@ {
        ArgumentView::Taken(OptionsView { append: true, ..o })
    } else if arg == "--all-hosts"@ {
        ArgumentView::Taken(OptionsView { same_host_only: false, ..o })
    } else if arg == "--ignore-robots"@ {
        ArgumentView::Taken(OptionsView { respect_robots: false, ..o })
    } else if arg.len() > 0 && arg[0] == '-' {
        ArgumentView::Refused(ArgsErrorView::UnknownFlag(arg))
    } else if o.seed is Some {
        ArgumentView::Refused(ArgsErrorView::ExtraArgument(arg))
    } else {
        ArgumentView::Taken(OptionsView { seed: Some(arg), ..o })
    }
}

/// What the arguments that are left come to: help, where the result is `None`,
/// or options.
pub open spec fn options_of(o: OptionsView, rest: Seq<Seq<char>>) -> Result<
    Option<OptionsView>,
    ArgsErrorView,
>
    decreases rest.len(),
{
    if rest.len() == 0 {
        Ok(Some(o))
    } else {
        match argument(o, rest[0], rest.skip(1)) {
            ArgumentView::Help => Ok(None),
            ArgumentView::Taken(p) => options_of(p, rest.skip(1)),
            ArgumentView::TakenWithValue(p) => if rest.len() >= 2 {
                options_of(p, rest.skip(2))
            } else {
                Ok(Some(p))
            },
            ArgumentView::Refused(e) => Err(e),
        }
    }
}

/// An outcome of reading options, over views.
pub open spec fn options_view(res: Result<Option<Options>, ArgsError>) -> Result<
    Option<OptionsView>,
    ArgsErrorView,
> {
    match res {
        Ok(Some(o)) => Ok(Some(o@)),
        Ok(None) => Ok(None),
        Err(e) => Err(e@),
    }
}

/// The value of a flag, a number that counts things.
fn parse_size(args: &mut Args, flag: &str) -> (res: Result<usize, ArgsError>)
    ensures
        match res {
            Ok(n) => number_value(old(args)@, flag@, usize::MAX as nat) == Ok::<
                nat,
                ArgsErrorView,
            >(n as nat),
            Err(e) => number_value(old(args)@, flag@, usize::MAX as nat) == Err::<
                nat,
                ArgsErrorView,
            >(e@),
        },
        final(args)@ == if old(args)@.len() == 0 {
            old(args)@
        } else {
            old(args)@.skip(1)
        },
{
    match parse_num(args, flag, usize::MAX as u64) {
        Ok(n) => {
            proof {
                law_number_is_its_value(old(args)@[0], usize::MAX as nat);
            }
            Ok(n as usize)
        },
        Err(e) => Err(e),
    }
}

/// Reads what the arguments ask for: help, where the result is `None`, or
/// options.
pub fn read_options(args: Args) -> (res: Result<Option<Options>, ArgsError>)
    ensures
        options_view(res) == options_of(default_options(), args@),
{
    let mut left = args;
    let mut o = Options::new();
    loop
        invariant
            options_of(default_options(), args@) == options_of(o@, left@),
        decreases left@.len(),
    {
        let ghost rest = left@;
        let arg = match left.next() {
            Some(arg) => arg,
            None => return Ok(Some(o)),
        };
        proof {
            if rest.len() >= 2 {
                assert(rest.skip(1).skip(1) =~= rest.skip(2));
            }
        }
        let flag = arg.as_str();
        if same_text(flag, "-h") || same_text(flag, "--help") {
            return Ok(None);
        } else if same_text(flag, "--max-pages") {
            match parse_size(&mut left, flag) {
                Ok(n) => o.max_pages = n,
                Err(e) => return Err(e),
            }
        } else if same_text(flag, "--concurrency") {
            match parse_size(&mut left, flag) {
                Ok(n) => o.concurrency = n,
                Err(e) => return Err(e),
            }
        } else if same_text(flag, "--max-depth") {
            match parse_size(&mut left, flag) {
                Ok(n) => o.max_depth = n,
                Err(e) => return Err(e),
            }
        } else if same_text(flag, "--timeout") {
            match parse_num(&mut left, flag, u64::MAX) {
                Ok(n) => o.timeout_secs = n,
                Err(e) => return Err(e),
            }
        } else if same_text(flag, "--retries") {
            match parse_size(&mut left, flag) {
                Ok(n) => o.retries = n,
                Err(e) => return Err(e),
            }
        } else if same_text(flag, "--output") {
            match next_value(&mut left, flag) {
                Ok(value) => o.output = value,
                Err(e) => return Err(e),
            }
        } else if same_text(flag, "--user-agent") {
            match next_value(&mut left, flag) {
                Ok(value) => o.user_agent = value,
                Err(e) => return Err(e),
            }
        } else if same_text(flag, "--append") {
            o.append = true;
        } else if same_text(flag, "--all-hosts") {
            o.same_host_only = false;
        } else if same_text(flag, "--ignore-robots") {
            o.respect_robots = false;
        } else {
            let chars = chars_of(flag);
            if chars.len() > 0 && chars[0] == '-' {
                return Err(ArgsError::UnknownFlag(arg));
            }
            if o.seed.is_some() {
                return Err(ArgsError::ExtraArgument(arg));
            }
            o.seed = Some(arg);
        }
    }
}

/// What a crawl is to do.
pub struct Config {
    pub seed: Address,
    pub max_pages: usize,
    pub concurrency: usize,
    pub max_depth: usize,
    pub timeout_secs: u64,
    pub retries: usize,
    pub output: String,
    pub append: bool,
    pub same_host_only: bool,
    pub respect_robots: bool,
    pub user_agent: String,
}

/// What a crawl is to do, over views.
#[verifier::ext_equal]
pub struct ConfigView {
    pub seed: UrlView,
    pub max_pages: nat,
    pub concurrency: nat,
    pub max_depth: nat,
    pub timeout_secs: nat,
    pub retries: nat,
    pub output: Seq<char>,
    pub append: bool,
    pub same_host_only: bool,
    pub respect_robots: bool,
    pub user_agent: Seq<char>,
}

impl View for Config {
    type V = ConfigView;

    open spec fn view(&self) -> ConfigView {
        ConfigView {
            seed: self.seed@,
            max_pages: self.max_pages as nat,
            concurrency: self.concurrency as nat,
            max_depth: self.max_depth as nat,
            timeout_secs: self.timeout_secs as nat,
            retries: self.retries as nat,
            output: self.output@,
            append: self.append,
            same_host_only: self.same_host_only,
            respect_robots: self.respect_robots,
            user_agent: self.user_agent@,
        }
    }
}

/// What a crawl is to do that has these options and this seed.
pub open spec fn config_of(o: OptionsView, seed: UrlView) -> ConfigView {
    ConfigView {
        seed,
        max_pages: o.max_pages,
        concurrency: o.concurrency,
        max_depth: o.max_depth,
        timeout_secs: o.timeout_secs,
        retries: o.retries,
        output: o.output,
        append: o.append,
        same_host_only: o.same_host_only,
        respect_robots: o.respect_robots,
        user_agent: o.user_agent,
    }
}

/// What options come to, given what the text of the seed reads as: the seed is
/// to be a web address, and there is to be a worker.
pub open spec fn configured(o: OptionsView, seed: Result<UrlView, Seq<char>>) -> Result<
    ConfigView,
    ArgsErrorView,
> {
    if o.seed is None {
        Err(ArgsErrorView::MissingSeed)
    } else {
        match seed {
            Err(reason) => Err(ArgsErrorView::InvalidSeed(reason)),
            Ok(v) => if !v.is_web() {
                Err(ArgsErrorView::SeedScheme)
            } else if o.concurrency == 0 {
                Err(ArgsErrorView::ZeroConcurrency)
            } else {
                Ok(config_of(o, v))
            },
        }
    }
}

/// An outcome of configuring a crawl, over views.
pub open spec fn config_view(res: Result<Config, ArgsError>) -> Result<
    ConfigView,
    ArgsErrorView,
> {
    match res {
        Ok(config) => Ok(config@),
        Err(e) => Err(e@),
    }
}

/// Makes of options what a crawl is to do, given what the text of the seed
/// reads as.
pub fn configure(o: Options, seed: Result<Address, String>) -> (res: Result<Config, ArgsError>)
    ensures
        config_view(res) == configured(o@, read_view(seed)),
{
    if o.seed.is_none() {
        return Err(ArgsError::MissingSeed);
    }
    let seed = match seed {
        Ok(seed) => seed,
        Err(reason) => return Err(ArgsError::InvalidSeed(reason)),
    };
    if !seed.is_web() {
        return Err(ArgsError::SeedScheme);
    }
    if o.concurrency == 0 {
        return Err(ArgsError::ZeroConcurrency);
    }
    Ok(
        Config {
            seed,
            max_pages: o.max_pages,
            concurrency: o.concurrency,
            max_depth: o.max_depth,
            timeout_secs: o.timeout_secs,
            retries: o.retries,
            output: o.output,
            append: o.append,
            same_host_only: o.same_host_only,
            respect_robots: o.respect_robots,
            user_agent: o.user_agent,
        },
    )
}

/// What a command line asks for.
pub enum Command {
    Help,
    Crawl(Config),
}

/// What a command line asks for, over views.
pub enum CommandView {
    Help,
    Crawl(ConfigView),
}

/// An outcome of reading a command line, over views.
pub open spec fn command_view(res: Result<Command, ArgsError>) -> Result<
    CommandView,
    ArgsErrorView,
> {
    match res {
        Ok(Command::Help) => Ok(CommandView::Help),
        Ok(Command::Crawl(config)) => Ok(CommandView::Crawl(config@)),
        Err(e) => Err(e@),
    }
}

/// What a command line asks for, given its arguments.
pub open spec fn command(args: Seq<Seq<char>>) -> Result<CommandView, ArgsErrorView> {
    match options_of(default_options(), args) {
        Err(e) => Err(e),
        Ok(None) => Ok(CommandView::Help),
        Ok(Some(o)) => match configured(o, parsed(o.seed.unwrap_or(Seq::empty()))) {
            Err(e) => Err(e),
            Ok(config) => Ok(CommandView::Crawl(config)),
        },
    }
}

/// Whether the seed that a command line gives, if it gives one, is not too long
/// to be read.
pub open spec fn seed_fits(args: Seq<Seq<char>>) -> bool {
    options_of(default_options(), args) matches Ok(Some(o)) ==> {
        o.seed matches Some(seed) ==> encode_utf8(seed).len() <= MAX_TEXT_BYTES
    }
}

/// Reads the command line, given its arguments.
pub fn parse_args(args: Vec<String>) -> (res: Result<Command, ArgsError>)
    requires
        seed_fits(string_texts(args@)),
    ensures
        command_view(res) == command(string_texts(args@)),
{
    let o = match read_options(Args::new(args)) {
        Ok(Some(o)) => o,
        Ok(None) => return Ok(Command::Help),
        Err(e) => return Err(e),
    };
    let seed = match &o.seed {
        Some(seed) => Address::parse(seed.as_str()),
        None => return Err(ArgsError::MissingSeed),
    };
    match configure(o, seed) {
        Ok(config) => Ok(Command::Crawl(config)),
        Err(e) => Err(e),
    }
}

/// A crawl that is configured can be done: it begins at a web address and has
/// a worker.
pub proof fn law_config_is_usable(args: Seq<Seq<char>>, config: ConfigView)
    requires
        command(args) == Ok::<CommandView, ArgsErrorView>(CommandView::Crawl(config)),
    ensures
        config.seed.is_web(),
        config.concurrency > 0,
{
}

/// A seed alone gives a crawl with all defaults: on the seed's host, heeding
/// `robots.txt`, and within the default limits.
pub proof fn law_seed_alone_gives_the_defaults(seed: Seq<char>, v: UrlView)
    requires
        parsed(seed) == Ok::<UrlView, Seq<char>>(v),
        v.is_web(),
        seed.len() == 0 || seed[0] != '-',
    ensures
        command(seq![seed]) == Ok::<CommandView, ArgsErrorView>(
            CommandView::Crawl(config_of(default_options(), v)),
        ),
{
    reveal_strlit("-h");
    reveal_strlit("--help");
    reveal_strlit("--max-pages");
    reveal_strlit("--concurrency");
    reveal_strlit("--max-depth");
    reveal_strlit("--timeout");
    reveal_strlit("--retries");
    reveal_strlit("--output");
    reveal_strlit("--user-agent");
    reveal_strlit("--append");
    reveal_strlit("--all-hosts");
    reveal_strlit("--ignore-robots");
    let with_seed = OptionsView { seed: Some(seed), ..default_options() };
    assert(seq![seed].skip(1) =~= Seq::empty());
    assert(argument(default_options(), seed, Seq::empty()) == ArgumentView::Taken(with_seed));
    assert(options_of(with_seed, Seq::empty()) == Ok::<Option<OptionsView>, ArgsErrorView>(
        Some(with_seed),
    ));
}

/// Whether a flag takes a value.
pub open spec fn takes_value(flag: Seq<char>) -> bool {
    ||| flag == "--max-pages"@
    ||| flag == "--concurrency"@
    ||| flag == "--max-depth"@
    ||| flag == "--timeout"@
    ||| flag == "--retries"@
    ||| flag == "--output"@
    ||| flag == "--user-agent"@
}

/// Of a flag that is given twice, the last value counts, as long as the first
/// is a valid one.
pub proof fn law_last_value_counts(
    o: OptionsView,
    flag: Seq<char>,
    first: Seq<char>,
    last: Seq<char>,
    rest: Seq<Seq<char>>,
)
    requires
        takes_value(flag),
        !(argument(o, flag, seq![first]) is Refused),
    ensures
        options_of(o, seq![flag, first, flag, last] + rest) == options_of(
            o,
            seq![flag, last] + rest,
        ),
{
    reveal_strlit("-h");
    reveal_strlit("--help");
    reveal_strlit("--max-pages");
    reveal_strlit("--concurrency");
    reveal_strlit("--max-depth");
    reveal_strlit("--timeout");
    reveal_strlit("--retries");
    reveal_strlit("--output");
    reveal_strlit("--user-agent");
    let once = seq![flag, last] + rest;
    let twice = seq![flag, first, flag, last] + rest;
    assert(twice.skip(2) =~= once);
    assert(twice.skip(1)[0] == first);
    assert(once.skip(1)[0] == last);
    assert(argument(o, flag, twice.skip(1)) == argument(o, flag, seq![first]));
    assert(argument(o, flag, twice.skip(1)) is TakenWithValue);
    let p = argument(o, flag, twice.skip(1))->TakenWithValue_0;
    assert(options_of(o, twice) == options_of(p, once));
    assert(argument(p, flag, once.skip(1)) == argument(o, flag, once.skip(1)));
}

} // verus!
