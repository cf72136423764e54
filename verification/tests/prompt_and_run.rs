use fledge_standup::error::StandupError;
use fledge_standup::plan::{
    exit_status, needs_me_lookup, plan_output, resolve_me, resolve_me_by_name, MeStep, Next,
};
use fledge_standup::prompt::build_prompt;
use fledge_standup::scope::{Cli, Scope};
use fledge_standup::since::{IntErrorKind, SinceError};

fn cli() -> Cli {
    Cli {
        since: "yesterday".to_string(),
        author: None,
        me: false,
        repos: None,
        repo_dir: None,
        gh: false,
        gh_user: None,
        include_diff: false,
        raw: false,
        show_prompt: false,
        ask_passthrough: Vec::new(),
    }
}

#[test]
fn prompt_names_scope_window_and_today() {
    let p = build_prompt(&cli(), "fledge", "2026-04-25  abc1234  feat: x", None, "2026-04-25");
    assert!(p.starts_with("You are turning a list of git commits"));
    assert!(p.contains("verbatim:\n## Yesterday\n## Today\n\nToday's date is 2026-04-25."));
    assert!(p.contains("date is BEFORE 2026-04-25."));
    assert!(p.contains("date IS 2026-04-25,"));
    assert!(p.contains("no commits dated 2026-04-25, then"));
    assert!(p.contains("\n\nScope: fledge\nWindow: since yesterday\n\nCommits:\n"));
    assert!(p.ends_with("Commits:\n2026-04-25  abc1234  feat: x"));
    assert!(!p.contains("(author:"));
    assert!(!p.contains("Diff stats"));
}

#[test]
fn prompt_author_and_diff_stats() {
    let mut c = cli();
    c.author = Some("Leif".to_string());
    let p = build_prompt(&c, "2 repos", "log", Some(" 1 file changed"), "2026-04-25");
    assert!(p.contains("Window: since yesterday (author: Leif)\n"));
    assert!(p.ends_with("Commits:\nlog\n\nDiff stats (per commit):\n 1 file changed"));
    let q = build_prompt(&c, "2 repos", "log", Some(""), "2026-04-25");
    assert!(q.ends_with("Commits:\nlog"));
    assert_eq!(q, build_prompt(&c, "2 repos", "log", None, "2026-04-25"));
}

#[test]
fn me_resolution() {
    let mut c = cli();
    c.me = true;
    assert!(needs_me_lookup(&c));
    c.author = Some("x".to_string());
    assert!(!needs_me_lookup(&c));
    assert_eq!(resolve_me(Some("e@x".to_string())), MeStep::Author("e@x".to_string()));
    assert_eq!(resolve_me(None), MeStep::LookUpName);
    assert_eq!(resolve_me_by_name(Some("N".to_string())), Ok("N".to_string()));
    assert_eq!(resolve_me_by_name(None), Err(StandupError::MeUnset));
}

fn scope(log: &str) -> Scope {
    Scope { log: log.to_string(), diff_stats: None, label: "fledge".to_string() }
}

#[test]
fn empty_activity_does_not_ask() {
    assert!(matches!(plan_output(&cli(), &scope(""), "2026-04-25"), Next::Done));
    let mut c = cli();
    c.raw = true;
    assert!(matches!(plan_output(&c, &scope(""), "2026-04-25"), Next::Done));
}

#[test]
fn raw_mode_prints_the_log() {
    let mut c = cli();
    c.raw = true;
    match plan_output(&c, &scope("l1\nl2"), "2026-04-25") {
        Next::PrintLog(l) => assert_eq!(l, "l1\nl2"),
        _ => panic!("raw mode must print"),
    }
}

#[test]
fn narrated_mode_asks_fledge() {
    let mut c = cli();
    c.show_prompt = true;
    c.ask_passthrough = vec!["--provider".to_string(), "ollama".to_string()];
    match plan_output(&c, &scope("l1"), "2026-04-25") {
        Next::Ask { prompt, show_prompt, args } => {
            assert!(show_prompt);
            assert_eq!(prompt, build_prompt(&c, "fledge", "l1", None, "2026-04-25"));
            assert_eq!(args.len(), 5);
            assert_eq!(args[0], "ask");
            assert_eq!(args[1], "--no-spec-index");
            assert_eq!(args[2], prompt);
            assert_eq!(&args[3..], &["--provider".to_string(), "ollama".to_string()]);
        }
        _ => panic!("must ask"),
    }
}

#[test]
fn exit_status_is_the_low_byte() {
    assert_eq!(exit_status(Some(0)), 0);
    assert_eq!(exit_status(Some(3)), 3);
    assert_eq!(exit_status(Some(256 + 7)), 7);
    assert_eq!(exit_status(Some(-1)), 255);
    assert_eq!(exit_status(None), 1);
}

#[test]
fn error_messages() {
    assert_eq!(
        StandupError::NotGitRepo.message(),
        "not inside a git repository (use --repos, --repo-dir, or --gh)"
    );
    assert_eq!(StandupError::NoRepos.message(), "no repos to scan");
    assert_eq!(
        StandupError::RepoDirNotDirectory("/x".to_string()).message(),
        "--repo-dir '/x' is not a directory"
    );
    assert_eq!(
        StandupError::GhSearchFailed("  boom\n".to_string()).message(),
        "`gh search commits` failed: boom"
    );
    assert_eq!(
        StandupError::SinceUnsupported(
            "three days ago".to_string(),
            SinceError::ExpectedInteger(IntErrorKind::InvalidDigit)
        )
        .message(),
        "--gh can't convert --since 'three days ago' to an ISO date; use a relative form (\"1 week ago\", \"yesterday\") or YYYY-MM-DD: expected integer for --since: invalid digit found in string"
    );
    assert_eq!(
        StandupError::SinceUnsupported("next week".to_string(), SinceError::CannotConvert)
            .message(),
        "--gh can't convert --since 'next week' to an ISO date; use a relative form (\"1 week ago\", \"yesterday\") or YYYY-MM-DD: can't convert --since 'next week' to an ISO date"
    );
    assert_eq!(
        StandupError::MeUnset.message(),
        "--me passed but neither user.email nor user.name is set"
    );
}
