use web_crawler::args::{
    configure, next_value, parse_args, parse_num, read_options, Args, ArgsError, Command, Config,
    Options, USAGE,
};
use web_crawler::number::NumberError;
use web_crawler::web_url::Address;

fn strings(args: &[&str]) -> Vec<String> {
    args.iter().map(|s| s.to_string()).collect()
}

fn config(args: &[&str]) -> Config {
    match parse_args(strings(args)) {
        Ok(Command::Crawl(config)) => config,
        Ok(Command::Help) => panic!("help"),
        Err(e) => panic!("{}", e.message()),
    }
}

fn refusal(args: &[&str]) -> String {
    match parse_args(strings(args)) {
        Ok(_) => panic!("accepted"),
        Err(e) => e.message(),
    }
}

#[test]
fn args_have_defaults() {
    let c = config(&["https://x.com"]);
    assert_eq!(c.seed.text(), "https://x.com/");
    assert_eq!(c.max_pages, 100);
    assert_eq!(c.concurrency, 10);
    assert_eq!(c.max_depth, 3);
    assert_eq!(c.timeout_secs, 15);
    assert_eq!(c.retries, 2);
    assert_eq!(c.output, "scraped.jsonl");
    assert!(!c.append);
    assert!(c.same_host_only);
    assert!(c.respect_robots);
    assert_eq!(c.user_agent, "RustCrawler/0.1");
}

#[test]
fn args_set_every_option() {
    let c = config(&[
        "--max-pages", "50", "--concurrency", "4", "http://x.com/a", "--max-depth", "0",
        "--timeout", "+30", "--retries", "5", "--output", "-", "--user-agent", "Me/1",
        "--append", "--all-hosts", "--ignore-robots",
    ]);
    assert_eq!(c.seed.text(), "http://x.com/a");
    assert_eq!(c.max_pages, 50);
    assert_eq!(c.concurrency, 4);
    assert_eq!(c.max_depth, 0);
    assert_eq!(c.timeout_secs, 30);
    assert_eq!(c.retries, 5);
    assert_eq!(c.output, "-");
    assert!(c.append);
    assert!(!c.same_host_only);
    assert!(!c.respect_robots);
    assert_eq!(c.user_agent, "Me/1");
}

#[test]
fn args_last_value_counts() {
    let c = config(&["--retries", "1", "https://x.com", "--retries", "7"]);
    assert_eq!(c.retries, 7);
}

#[test]
fn args_ask_for_help() {
    for flag in ["-h", "--help"] {
        let asked = parse_args(strings(&["https://x.com", flag, "--unknown"]));
        assert!(matches!(asked, Ok(Command::Help)));
    }
    assert!(USAGE.starts_with("Usage: web_crawler <SEED_URL> [OPTIONS]\n\nOptions:\n--max-pages"));
    assert!(USAGE.ends_with("\n-h, --help           Show this help"));
}

#[test]
fn args_refuse_what_they_do_not_know() {
    assert_eq!(refusal(&["--what"]), "unknown flag: --what (try --help)");
    assert_eq!(refusal(&["-"]), "unknown flag: - (try --help)");
    assert_eq!(refusal(&["a", "b"]), "unexpected extra argument: b");
    // An argument that is refused comes before help that follows it.
    assert_eq!(refusal(&["--what", "--help"]), "unknown flag: --what (try --help)");
}

#[test]
fn args_refuse_missing_and_invalid_values() {
    assert_eq!(refusal(&["--output"]), "missing value for --output");
    assert_eq!(refusal(&["--user-agent"]), "missing value for --user-agent");
    assert_eq!(refusal(&["--max-pages"]), "missing value for --max-pages");
    assert_eq!(
        refusal(&["--max-pages", "x"]),
        "invalid value for --max-pages: x (invalid digit found in string)"
    );
    assert_eq!(
        refusal(&["--timeout", ""]),
        "invalid value for --timeout:  (cannot parse integer from empty string)"
    );
    assert_eq!(
        refusal(&["--retries", "99999999999999999999"]),
        "invalid value for --retries: 99999999999999999999 \
         (number too large to fit in target type)"
    );
    assert_eq!(
        refusal(&["--concurrency", "--max-depth"]),
        "invalid value for --concurrency: --max-depth (invalid digit found in string)"
    );
}

#[test]
fn args_refuse_a_bad_seed() {
    assert_eq!(refusal(&[]), "missing seed URL (try --help)");
    assert_eq!(refusal(&["x"]), "relative URL without a base");
    assert_eq!(refusal(&["ftp://x.com"]), "seed URL must be http or https");
    assert_eq!(
        refusal(&["https://x.com", "--concurrency", "0"]),
        "concurrency must be greater than 0"
    );
    // The seed is looked at first.
    assert_eq!(
        refusal(&["ftp://x.com", "--concurrency", "0"]),
        "seed URL must be http or https"
    );
    assert_eq!(refusal(&["--concurrency", "0"]), "missing seed URL (try --help)");
}

#[test]
fn args_are_read_one_by_one() {
    let mut args = Args::new(strings(&["a", "12", "x"]));
    assert!(matches!(next_value(&mut args, "--f"), Ok(value) if value == "a"));
    assert!(matches!(parse_num(&mut args, "--n", 12), Ok(12)));
    match parse_num(&mut args, "--n", 12) {
        Err(ArgsError::InvalidNumber(flag, raw, e)) => {
            assert_eq!(flag, "--n");
            assert_eq!(raw, "x");
            assert_eq!(e, NumberError::InvalidDigit);
        }
        _ => panic!("x is no number"),
    }
    assert!(args.next().is_none());
    assert!(matches!(
        next_value(&mut args, "--f"),
        Err(ArgsError::MissingValue(flag)) if flag == "--f"
    ));
    assert!(matches!(parse_num(&mut args, "--n", 12), Err(ArgsError::MissingValue(_))));
}

#[test]
fn args_configure_a_crawl() {
    let options = || match read_options(Args::new(strings(&["seed"]))) {
        Ok(Some(o)) => o,
        _ => panic!("refused"),
    };
    assert_eq!(options().seed, Some("seed".to_string()));
    assert!(configure(options(), Address::parse("https://x.com")).is_ok());
    assert!(matches!(
        configure(options(), Err("why".to_string())),
        Err(ArgsError::InvalidSeed(reason)) if reason == "why"
    ));
    assert!(matches!(
        configure(options(), Address::parse("mailto:x")),
        Err(ArgsError::SeedScheme)
    ));
    let idle = Options {
        concurrency: 0,
        ..options()
    };
    assert!(matches!(
        configure(idle, Address::parse("https://x.com")),
        Err(ArgsError::ZeroConcurrency)
    ));
    assert!(matches!(
        configure(Options::new(), Address::parse("https://x.com")),
        Err(ArgsError::MissingSeed)
    ));
}

#[test]
fn args_may_come_in_any_order() {
    let orders: [&[&str]; 3] = [
        &["https://x.com", "--append", "--max-pages", "7", "--timeout", "9", "--all-hosts"],
        &["--timeout", "9", "--all-hosts", "--max-pages", "7", "https://x.com", "--append"],
        &["--all-hosts", "https://x.com", "--append", "--timeout", "9", "--max-pages", "7"],
    ];
    for args in orders {
        let c = config(args);
        assert_eq!(c.seed.text(), "https://x.com/");
        assert_eq!((c.max_pages, c.timeout_secs), (7, 9));
        assert_eq!((c.append, c.same_host_only, c.respect_robots), (true, false, true));
        assert_eq!((c.concurrency, c.max_depth, c.retries), (10, 3, 2));
    }
}
