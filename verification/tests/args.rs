//! The server's command line.

use traza::args::{
    parse_args, parse_command, Command, CompactionConfig, Config, Durability, Options, Profile,
    DEFAULT_MAX_CONNECTIONS,
};

fn texts(argv: &[&str]) -> Vec<String> {
    argv.iter().map(|arg| (*arg).to_owned()).collect()
}

fn parse(argv: &[&str]) -> Options {
    parse_args(&texts(argv))
        .expect("parses")
        .expect("not a help invocation")
}

fn refused(argv: &[&str]) -> String {
    match parse_args(&texts(argv)) {
        Ok(_) => panic!("accepted {argv:?}"),
        Err(message) => message,
    }
}

#[test]
fn no_profile_is_the_balanced_defaults() {
    let options = parse(&[]);
    assert_eq!(options.profile, Profile::Balanced);
    assert_eq!(options.config.flush_spans, Config::default().flush_spans);
    assert_eq!(options.config.wal_commit_window, None);
}

#[test]
fn a_profile_sets_its_group_of_knobs() {
    let throughput = parse(&["--profile", "throughput"]);
    assert_eq!(
        throughput.config.flush_spans,
        Profile::Throughput.flush_spans()
    );
    assert_eq!(
        throughput.config.wal_commit_window,
        Profile::Throughput.wal_commit_window()
    );

    let latency = parse(&["--profile", "latency"]);
    assert_eq!(latency.config.flush_spans, Profile::Latency.flush_spans());
    assert_eq!(latency.config.wal_commit_window, None);
}

/// The precedence rule, checked in both argument orders: a parser that applied
/// the profile as it saw it would discard a `--flush-spans` that came first.
#[test]
fn an_explicit_flag_beats_the_profile_in_either_order() {
    for argv in [
        vec!["--profile", "throughput", "--flush-spans", "77"],
        vec!["--flush-spans", "77", "--profile", "throughput"],
    ] {
        let options = parse(&argv);
        assert_eq!(
            options.config.flush_spans, 77,
            "explicit --flush-spans lost to the profile in {argv:?}"
        );
        assert_eq!(
            options.config.wal_commit_window,
            Profile::Throughput.wal_commit_window(),
            "overriding one knob dropped the rest of the profile in {argv:?}"
        );
    }

    for argv in [
        vec!["--profile", "latency", "--wal-commit-window-us", "900"],
        vec!["--wal-commit-window-us", "900", "--profile", "latency"],
    ] {
        let options = parse(&argv);
        assert_eq!(
            options.config.wal_commit_window,
            Some(900),
            "explicit --wal-commit-window-us lost to the profile in {argv:?}"
        );
        assert_eq!(options.config.flush_spans, Profile::Latency.flush_spans());
    }
}

/// `0` means "no window", which is a different statement from "unset" and has
/// to survive a profile that asked for one.
#[test]
fn an_explicit_zero_window_overrides_a_profile_that_wants_one() {
    assert!(Profile::Throughput.wal_commit_window().is_some());
    for argv in [
        vec!["--profile", "throughput", "--wal-commit-window-us", "0"],
        vec!["--wal-commit-window-us", "0", "--profile", "throughput"],
    ] {
        assert_eq!(
            parse(&argv).config.wal_commit_window,
            None,
            "explicit 0 did not turn the profile's window off in {argv:?}"
        );
    }
}

#[test]
fn no_profile_changes_durability() {
    for name in ["throughput", "balanced", "latency"] {
        assert_eq!(
            parse(&["--profile", name]).config.durability,
            Durability::Wal,
            "profile {name} moved durability off the default"
        );
        assert_eq!(
            parse(&["--profile", name, "--durability", "flushed"])
                .config
                .durability,
            Durability::Flushed
        );
    }
    assert_eq!(
        parse(&["--durability", "buffered"]).config.durability,
        Durability::Buffered
    );
}

#[test]
fn no_profile_changes_compaction() {
    for name in ["throughput", "balanced", "latency"] {
        let options = parse(&["--profile", name]);
        assert_eq!(options.config.compaction, Some(CompactionConfig::default()));
        assert!(options.compaction_enabled);
        assert_eq!(
            parse(&["--profile", name, "--compaction-fanout", "0"])
                .config
                .compaction,
            None
        );
    }
}

#[test]
fn the_last_profile_wins_and_an_unknown_one_is_refused() {
    assert_eq!(
        parse(&["--profile", "throughput", "--profile", "latency"]).profile,
        Profile::Latency
    );
    assert!(parse_args(&["--profile".to_owned(), "fast".to_owned()]).is_err());
    assert!(parse_args(&["--profile".to_owned()]).is_err());
}

#[test]
fn non_profile_flags_are_untouched_by_a_profile() {
    let options = parse(&[
        "--profile",
        "throughput",
        "--max-connections",
        "32",
        "--payload-threshold-bytes",
        "0",
        "--ttl-seconds",
        "60",
    ]);
    assert_eq!(options.max_connections, 32);
    assert_eq!(options.config.payload_threshold, None);
    assert_eq!(options.config.ttl_seconds, Some(60));

    let latency = parse(&["--profile", "latency"]);
    assert_eq!(latency.max_connections, DEFAULT_MAX_CONNECTIONS);
    assert_eq!(latency.config.payload_threshold, Some(256 * 1024));
}

#[test]
fn help_parses_to_nothing_to_run() {
    assert!(parse_args(&["--help".to_owned()])
        .expect("help is not an error")
        .is_none());
}

#[test]
fn version_parses_to_nothing_to_run() {
    assert!(parse_args(&["--version".to_owned()])
        .expect("version is not an error")
        .is_none());
    assert!(parse_args(&["-V".to_owned()])
        .expect("version is not an error")
        .is_none());
}

#[test]
fn a_command_line_says_what_it_is() {
    assert!(matches!(parse_command(&texts(&["-h"])), Ok(Command::Help)));
    assert!(matches!(
        parse_command(&texts(&["-V"])),
        Ok(Command::Version)
    ));
    assert!(matches!(parse_command(&[]), Ok(Command::Serve(_))));
}

#[test]
fn bad_arguments_are_refused_with_their_names() {
    assert!(refused(&["--bogus"]).contains("--bogus"));
    assert!(refused(&["--port"]).contains("--port"));
    assert!(refused(&["--port", "x"]).contains("--port"));
    assert!(refused(&["--port", "65536"]).contains("--port"));
    assert_eq!(
        refused(&["--durability", "maybe"]),
        "--durability must be buffered|wal|flushed"
    );
}

#[test]
fn names_of_modes_and_profiles_read_back() {
    for mode in [Durability::Buffered, Durability::Wal, Durability::Flushed] {
        assert_eq!(Durability::parse(mode.as_str()), Some(mode));
    }
    for profile in [Profile::Throughput, Profile::Balanced, Profile::Latency] {
        assert_eq!(Profile::parse(profile.as_str()), Some(profile));
    }
    assert_eq!(Durability::parse("WAL"), None);
}
