use tvbox_wc::cli::{log_target, parse, Early, Log, Options, USAGE};

fn parse_args(args: &[&str]) -> Result<(Options, Option<Early>), String> {
    parse(args.iter().map(|a| (*a).to_owned()).collect())
}

#[test]
fn no_arguments_is_a_compositor_with_no_session() {
    assert_eq!(parse_args(&[]).unwrap(), (Options::default(), None));
}

#[test]
fn everything_after_the_separator_is_the_session() {
    // The session script takes its own flags, and none of them are ours.
    let (options, early) =
        parse_args(&["--", "/usr/local/bin/tvbox-session", "--verbose"]).unwrap();
    assert_eq!(early, None);
    assert_eq!(
        options.session,
        Some(vec![
            "/usr/local/bin/tvbox-session".to_owned(),
            "--verbose".to_owned()
        ])
    );
}

#[test]
fn a_separator_with_nothing_after_it_is_a_mistake() {
    assert!(parse_args(&["--"]).is_err());
}

#[test]
fn an_unknown_argument_is_refused_rather_than_ignored() {
    // greetd shows no output, so a silently ignored argument would look like a
    // setting that does not work.
    assert!(parse_args(&["--sesion", "x"]).is_err());
}

#[test]
fn a_mistake_says_what_it_is() {
    assert_eq!(parse_args(&["--"]), Err("-- needs a command after it".to_owned()));
    assert_eq!(
        parse_args(&["--sesion", "x"]),
        Err("unknown argument: --sesion".to_owned())
    );
}

#[test]
fn help_and_version_have_two_names_each() {
    for help in ["-h", "--help"] {
        assert_eq!(parse_args(&[help, "x"]), Ok((Options::default(), Some(Early::Help))));
    }
    for version in ["-V", "--version"] {
        assert_eq!(parse_args(&[version]), Ok((Options::default(), Some(Early::Version))));
    }
    assert!(USAGE.starts_with("tvbox-wc - the Wayland compositor for the tvbox\n\nUsage: "));
    assert!(USAGE.ends_with("  -V, --version print the version\n"));
}

#[test]
fn the_log_goes_where_it_is_told_or_home_or_nowhere() {
    let home = Some("/home/tv".to_owned());
    assert_eq!(
        log_target(Some("/tmp/wc.log".to_owned()), home.clone()),
        Log::File("/tmp/wc.log".to_owned())
    );
    let at_home = Log::FileIn {
        dir: "/home/tv/.tvbox".to_owned(),
        file: "/home/tv/.tvbox/wc.log".to_owned(),
    };
    assert_eq!(log_target(None, home.clone()), at_home);
    assert_eq!(log_target(Some(String::new()), home), at_home);
    assert_eq!(log_target(None, None), Log::Stdout);
}
