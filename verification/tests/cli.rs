use herdr_badges::cli::{expand_equals_args, parse_badge_clear_args, parse_badge_set_args, run_badge_command, BadgeCliAction, BadgeRequest};
use herdr_badges::schema::{BadgeClearParams, BadgeSetParams};

fn args(list: &[&str]) -> Vec<String> {
    list.iter().map(|s| s.to_string()).collect()
}

#[test]
fn cli_set_args_both_forms() {
    let parsed = parse_badge_set_args(&args(&["--key", "pool", "--text=LOCAL", "--color", "green"])).unwrap();
    assert_eq!(parsed, ("pool".to_string(), "LOCAL".to_string(), "green".to_string()));
    let parsed = parse_badge_set_args(&args(&["--color=red", "--key=k", "--text=a=b"])).unwrap();
    assert_eq!(parsed, ("k".to_string(), "a=b".to_string(), "red".to_string()));
}

#[test]
fn cli_set_args_errors() {
    assert_eq!(parse_badge_set_args(&args(&["--key"])).unwrap_err(), "missing value for --key");
    assert_eq!(parse_badge_set_args(&args(&["--key", "k", "--text"])).unwrap_err(), "missing value for --text");
    assert_eq!(parse_badge_set_args(&args(&["--color"])).unwrap_err(), "missing value for --color");
    assert_eq!(parse_badge_set_args(&args(&["--bogus", "x"])).unwrap_err(), "unknown option: --bogus");
    assert_eq!(
        parse_badge_set_args(&args(&["stray"])).unwrap_err(),
        "usage: herdr badge set --key KEY --text TEXT --color COLOR"
    );
    assert_eq!(
        parse_badge_set_args(&args(&["--key", "k", "--text", "t"])).unwrap_err(),
        "usage: herdr badge set --key KEY --text TEXT --color COLOR"
    );
}

#[test]
fn cli_clear_args() {
    assert_eq!(parse_badge_clear_args(&args(&["--key", "pool"])).unwrap(), "pool");
    assert_eq!(parse_badge_clear_args(&args(&["--key=pool"])).unwrap(), "pool");
    assert_eq!(parse_badge_clear_args(&args(&[])).unwrap_err(), "usage: herdr badge clear --key KEY");
    assert_eq!(parse_badge_clear_args(&args(&["--text", "x"])).unwrap_err(), "unknown option: --text");
    assert_eq!(parse_badge_clear_args(&args(&["--key"])).unwrap_err(), "missing value for --key");
}

#[test]
fn cli_expand_equals_args() {
    let out = expand_equals_args(&args(&["--key=a", "--keyx=b", "--text=", "plain"]), &["--key", "--text"]);
    assert_eq!(out, args(&["--key", "a", "--keyx=b", "--text", "", "plain"]));
}

#[test]
fn cli_run_badge_command_actions() {
    assert_eq!(run_badge_command(&args(&[])), BadgeCliAction::PrintHelp { exit_code: 2 });
    assert_eq!(run_badge_command(&args(&["help"])), BadgeCliAction::PrintHelp { exit_code: 0 });
    assert_eq!(run_badge_command(&args(&["-h"])), BadgeCliAction::PrintHelp { exit_code: 0 });
    assert_eq!(run_badge_command(&args(&["frob"])), BadgeCliAction::PrintHelp { exit_code: 2 });
    assert_eq!(run_badge_command(&args(&["list"])), BadgeCliAction::Send(BadgeRequest::ListBadges));
    assert_eq!(
        run_badge_command(&args(&["list", "x"])),
        BadgeCliAction::Fail { message: "usage: herdr badge list".to_string() }
    );
    assert_eq!(
        run_badge_command(&args(&["set", "--key", "k", "--text", "t", "--color", "c"])),
        BadgeCliAction::Send(BadgeRequest::SetBadge(BadgeSetParams {
            key: "k".into(),
            text: "t".into(),
            color: "c".into()
        }))
    );
    assert_eq!(
        run_badge_command(&args(&["clear", "--key=k"])),
        BadgeCliAction::Send(BadgeRequest::ClearBadge(BadgeClearParams { key: "k".into() }))
    );
    assert_eq!(
        run_badge_command(&args(&["clear"])),
        BadgeCliAction::Fail { message: "usage: herdr badge clear --key KEY".to_string() }
    );
}

#[test]
fn cli_args_read_as_pairs() {
    // The last pair of a flag wins, and a value may start with `-`.
    let parsed = parse_badge_set_args(&args(&["--key", "a", "--text", "-x", "--color", "c", "--key=b"])).unwrap();
    assert_eq!(parsed, ("b".to_string(), "-x".to_string(), "c".to_string()));
    assert_eq!(parse_badge_clear_args(&args(&["--key", "a", "--key", "b"])).unwrap(), "b");
    // The first bad flag position decides the error.
    assert_eq!(
        parse_badge_set_args(&args(&["--key", "k", "stray", "--bogus"])).unwrap_err(),
        "usage: herdr badge set --key KEY --text TEXT --color COLOR"
    );
    assert_eq!(parse_badge_set_args(&args(&["--bogus", "--key"])).unwrap_err(), "unknown option: --bogus");
    assert_eq!(parse_badge_clear_args(&args(&["--key", "k", "--key"])).unwrap_err(), "missing value for --key");
    assert_eq!(parse_badge_clear_args(&args(&["word"])).unwrap_err(), "usage: herdr badge clear --key KEY");
}
