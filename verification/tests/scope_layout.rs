use fledge_standup::error::StandupError;
use fledge_standup::since::SinceError;
use fledge_standup::scope::{
    build_scope, combine_repo_logs, gh_author, gh_entry, gh_label, gh_log, gh_scope, gh_scope_at,
    gh_search_args, gh_since_outcome, multi_scope, no_commits_notice, recent_authors_notice,
    render_gh_log, repo_dir_repos, repo_paths, require_git_repo, scan_paths, scan_step,
    select_repos, single_scope, skip_notice, sorted_entries, wants_diff_stats, which_candidates,
    Cli, GhCommit, GhEntry, RepoLog, ScanStep, ScopeKind,
};

fn cli() -> Cli {
    Cli {
        since: "24 hours ago".to_string(),
        author: None,
        me: false,
        repos: None,
        repo_dir: None,
        gh: false,
        gh_user: None,
        include_diff: false,
        raw: false,
        show_prompt: false,
        ask_passthrough: Vec::new(),
    }
}

fn commit(sha: &str, message: &str, date: &str, repo: &str) -> GhCommit {
    GhCommit {
        sha: sha.to_string(),
        message: message.to_string(),
        committer_date: date.to_string(),
        repository: repo.to_string(),
    }
}

#[test]
fn scope_precedence() {
    let mut c = cli();
    assert_eq!(build_scope(&c), ScopeKind::Single);
    c.repo_dir = Some("~/code".to_string());
    assert_eq!(build_scope(&c), ScopeKind::Multi);
    c.repo_dir = None;
    c.repos = Some("a,b".to_string());
    assert_eq!(build_scope(&c), ScopeKind::Multi);
    c.gh = true;
    assert_eq!(build_scope(&c), ScopeKind::GitHub);
}

#[test]
fn gh_author_choice() {
    let mut c = cli();
    assert_eq!(gh_author(&c), "@me");
    c.author = Some("leif".to_string());
    assert_eq!(gh_author(&c), "leif");
    c.me = true;
    assert_eq!(gh_author(&c), "@me");
    c.gh_user = Some("octo".to_string());
    assert_eq!(gh_author(&c), "octo");
}

#[test]
fn gh_search_command_line() {
    assert_eq!(
        gh_search_args("@me", "2026-04-24"),
        vec![
            "search",
            "commits",
            "--author=@me",
            "--committer-date=>=2026-04-24",
            "--limit=200",
            "--json",
            "sha,commit,repository",
        ]
    );
    assert_eq!(gh_label("@me"), "GitHub-wide (author: @me)");
}

#[test]
fn multi_repo_logs_are_grouped_and_counted() {
    let repos = vec![
        RepoLog { label: "alpha".to_string(), log: "2026-04-25  aaa1111  fix: a".to_string() },
        RepoLog { label: "empty".to_string(), log: String::new() },
        RepoLog {
            label: "beta".to_string(),
            log: "2026-04-24  bbb2222  feat: b\n2026-04-24  bbb3333  docs".to_string(),
        },
    ];
    let scope = combine_repo_logs(&repos);
    assert_eq!(
        scope.log,
        "## alpha\n2026-04-25  aaa1111  fix: a\n\n## beta\n2026-04-24  bbb2222  feat: b\n2026-04-24  bbb3333  docs"
    );
    assert_eq!(scope.label, "2 repos");
    assert!(scope.diff_stats.is_none());
    let none = combine_repo_logs(&vec![]);
    assert_eq!(none.log, "");
    assert_eq!(none.label, "0 repos");
}

#[test]
fn gh_log_groups_by_sorted_repository() {
    let commits = vec![
        commit("1234567890abc", "feat: z first\n\nbody", "2026-04-25T10:00:00Z", "org/zeta"),
        commit("abcdef0123456", "fix: a\r\nmore", "2026-04-24T23:30:00Z", "org/alpha"),
        commit("fedcba9", "chore: z second", "2026-04-25T11:00:00Z", "org/zeta"),
    ];
    assert_eq!(
        gh_log(&commits, 3600),
        Some(
            "## org/alpha\n2026-04-25  abcdef0  fix: a\n\n## org/zeta\n2026-04-25  1234567  feat: z first\n2026-04-25  fedcba9  chore: z second"
                .to_string()
        )
    );
}

#[test]
fn gh_entries() {
    let e = gh_entry(&commit("abc", "", "not a date", "o/r"), 0).unwrap();
    assert_eq!(e.sha, "abc");
    assert_eq!(e.subject, "");
    assert_eq!(e.date, "not a date");
    assert_eq!(e.repo, "o/r");
    let out = render_gh_log(&vec![GhEntry {
        repo: "o/r".to_string(),
        date: "2026-01-01".to_string(),
        sha: "abc1234".to_string(),
        subject: "s".to_string(),
    }]);
    assert_eq!(out, "## o/r\n2026-01-01  abc1234  s");
    assert_eq!(render_gh_log(&vec![]), "");
}

#[test]
fn gh_scope_label_and_empty_result() {
    let s = gh_scope_at(&vec![], "@me", 0).unwrap();
    assert_eq!(s.log, "");
    assert_eq!(s.label, "GitHub-wide (author: @me)");
    assert!(s.diff_stats.is_none());
    let far = vec![commit("a", "m", "9999-12-31T23:00:00Z", "o/r")];
    assert!(gh_scope_at(&far, "@me", 7200).is_none());
    let here = gh_scope(&vec![], "o").unwrap();
    assert_eq!(here.label, "GitHub-wide (author: o)");
}

#[test]
fn diff_stats_only_with_commits_and_flag() {
    let mut c = cli();
    assert!(!wants_diff_stats(&c, "x"));
    c.include_diff = true;
    assert!(wants_diff_stats(&c, "x"));
    assert!(!wants_diff_stats(&c, ""));
}

#[test]
fn empty_log_notices() {
    assert_eq!(
        no_commits_notice("24 hours ago", None),
        "fledge standup: no commits since '24 hours ago'."
    );
    assert_eq!(
        no_commits_notice("yesterday", Some("zed")),
        "fledge standup: no commits by 'zed' since 'yesterday'."
    );
    assert_eq!(
        recent_authors_notice(&vec!["ann".to_string(), "bob".to_string()]),
        vec![
            "  Recent authors in this window:",
            "    - ann",
            "    - bob",
            "  Try: fledge standup --author <name>  (or drop --me/--author for everyone)",
        ]
    );
    assert!(recent_authors_notice(&vec![]).is_empty());
    assert_eq!(skip_notice("/x"), "fledge standup: '/x' is not a git repo (skipping).");
}

#[test]
fn single_scope_keeps_stats_only_when_asked() {
    let mut c = cli();
    let s = single_scope(&c, "l1".to_string(), "proj".to_string(), Some("st".to_string()));
    assert_eq!(s.log, "l1");
    assert_eq!(s.label, "proj");
    assert!(s.diff_stats.is_none());
    c.include_diff = true;
    let s = single_scope(&c, "l1".to_string(), "proj".to_string(), Some("st".to_string()));
    assert_eq!(s.diff_stats, Some("st".to_string()));
    let s = single_scope(&c, String::new(), "proj".to_string(), Some("st".to_string()));
    assert_eq!(s.log, "");
    assert!(s.diff_stats.is_none());
}

#[test]
fn scan_list_and_skips() {
    assert_eq!(scan_paths(vec![], vec![]), Err(StandupError::NoRepos));
    assert_eq!(
        scan_paths(vec!["a".to_string()], vec!["b".to_string(), "c".to_string()]),
        Ok(vec!["a".to_string(), "b".to_string(), "c".to_string()])
    );
    assert_eq!(scan_paths(vec![], vec!["b".to_string()]), Ok(vec!["b".to_string()]));
    match scan_step("/nonexistent/standup/path") {
        ScanStep::Skip(line) => assert_eq!(
            line,
            "fledge standup: '/nonexistent/standup/path' is not a git repo (skipping)."
        ),
        ScanStep::Read => panic!("a missing directory is not a repository"),
    }
    assert_eq!(require_git_repo("/nonexistent/standup/path"), Err(StandupError::NotGitRepo));
    let missing = vec!["/nonexistent/a".to_string(), "/nonexistent/b".to_string()];
    assert!(repo_dir_repos(&missing).is_empty());
}

#[test]
fn multi_scope_leaves_out_skipped_paths() {
    let scanned = vec![
        Some(RepoLog { label: "alpha".to_string(), log: "c1".to_string() }),
        None,
        Some(RepoLog { label: "beta".to_string(), log: String::new() }),
        Some(RepoLog { label: "gamma".to_string(), log: "c2\nc3".to_string() }),
    ];
    let s = multi_scope(&scanned);
    assert_eq!(s.log, "## alpha\nc1\n\n## gamma\nc2\nc3");
    assert_eq!(s.label, "2 repos");
    assert!(s.diff_stats.is_none());
    let none = multi_scope(&vec![None, None]);
    assert_eq!(none.log, "");
    assert_eq!(none.label, "0 repos");
}

#[test]
fn repository_paths() {
    assert_eq!(
        repo_paths("~/a, /b ,,", Some("/home/u")),
        vec!["/home/u/a", "/b"]
    );
    let sorted = sorted_entries(&vec![
        "/d/zeta".to_string(),
        "/d/Alpha".to_string(),
        "/d/alpha".to_string(),
        "/d/é".to_string(),
    ]);
    assert_eq!(sorted, vec!["/d/Alpha", "/d/alpha", "/d/zeta", "/d/é"]);
    assert_eq!(
        which_candidates("/usr/bin::/bin/", "gh"),
        vec!["/usr/bin/gh", "gh", "/bin/gh"]
    );
}

#[test]
fn repo_dir_keeps_flagged_entries_sorted() {
    let entries = vec![
        "/d/zeta".to_string(),
        "/d/notes".to_string(),
        "/d/alpha".to_string(),
        "/d/mid".to_string(),
    ];
    assert_eq!(
        select_repos(&entries, &vec![true, false, true, true]),
        vec!["/d/alpha".to_string(), "/d/mid".to_string(), "/d/zeta".to_string()]
    );
    assert!(select_repos(&entries, &vec![false, false, false, false]).is_empty());
    assert_eq!(select_repos(&entries, &vec![false, true, false, false]), vec!["/d/notes".to_string()]);
}

#[test]
fn gh_since_failures_are_reported() {
    assert_eq!(gh_since_outcome("x", Ok("2026-04-01".to_string())), Ok("2026-04-01".to_string()));
    for e in [SinceError::CannotConvert, SinceError::MultiplyOverflow, SinceError::OutOfRange] {
        let r = gh_since_outcome("9999999999999999 years ago", Err(e));
        match r {
            Err(StandupError::SinceUnsupported(since, _)) => {
                assert_eq!(since, "9999999999999999 years ago")
            }
            other => panic!("unexpected {other:?}"),
        }
    }
    assert_eq!(
        gh_since_outcome("a", Err(SinceError::NotCharBoundary)),
        Err(StandupError::SinceUnsupported("a".to_string(), SinceError::NotCharBoundary))
    );
}
