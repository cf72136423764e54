use fledge_standup::gitcmd::{
    config_value, diff_stats_from_output, git_config_args, git_diff_stats_args, git_log_args,
    log_from_output, project_label, recent_authors_args, recent_authors_from_output,
    toplevel_args,
};

#[test]
fn git_log_command_line() {
    assert_eq!(
        git_log_args(".", "24 hours ago", None),
        vec![
            "-C",
            ".",
            "log",
            "--since=24 hours ago",
            "--pretty=format:%cd  %h  %s",
            "--date=format-local:%Y-%m-%d",
        ]
    );
    assert_eq!(
        git_log_args("/r", "yesterday", Some("Leif")).last().unwrap(),
        "--author=Leif"
    );
}

#[test]
fn other_git_command_lines() {
    assert_eq!(
        git_diff_stats_args(".", "1 week ago", Some("a@b")),
        vec![
            "-C",
            ".",
            "log",
            "--since=1 week ago",
            "--shortstat",
            "--pretty=format:%h",
            "--no-merges",
            "--author=a@b",
        ]
    );
    assert_eq!(
        recent_authors_args(".", "today"),
        vec!["-C", ".", "log", "--since=today", "--pretty=format:%an"]
    );
    assert_eq!(git_config_args("user.email"), vec!["config", "user.email"]);
    assert_eq!(toplevel_args("."), vec!["-C", ".", "rev-parse", "--show-toplevel"]);
}

#[test]
fn log_output_is_trimmed() {
    assert_eq!(
        log_from_output(true, "\n2026-04-25  abc1234  feat: x\n"),
        "2026-04-25  abc1234  feat: x"
    );
    assert_eq!(log_from_output(false, "noise"), "");
}

#[test]
fn diff_stats_keep_the_first_500_lines() {
    let mut raw = String::new();
    for i in 0..600 {
        raw.push_str(&format!("line {i}\r\n"));
    }
    let stats = diff_stats_from_output(true, &raw);
    assert_eq!(stats.lines().count(), 500);
    assert!(stats.starts_with("line 0\nline 1\n"));
    assert!(stats.ends_with("line 499"));
    assert_eq!(diff_stats_from_output(false, "x"), "");
    assert_eq!(diff_stats_from_output(true, "a\n\nb\n"), "a\n\nb");
}

#[test]
fn recent_authors_sorted_unique_at_most_five() {
    let out = "zoe\n  bob \nann\nbob\n\ncarl\ndave\neve\nann\n";
    assert_eq!(
        recent_authors_from_output(true, out),
        vec!["ann", "bob", "carl", "dave", "eve"]
    );
    assert_eq!(recent_authors_from_output(true, "b\na\n"), vec!["a", "b"]);
    assert!(recent_authors_from_output(false, "a").is_empty());
    assert!(recent_authors_from_output(true, " \n\n").is_empty());
}

#[test]
fn config_values() {
    assert_eq!(config_value(true, " me@x.org \n"), Some("me@x.org".to_string()));
    assert_eq!(config_value(true, "  \n"), None);
    assert_eq!(config_value(false, "me@x.org"), None);
}

#[test]
fn project_labels() {
    assert_eq!(project_label(Some("/work/fledge-plugin-standup\n")), "fledge-plugin-standup");
    assert_eq!(project_label(Some("  \n")), "project");
    assert_eq!(project_label(Some("/")), "project");
    assert_eq!(project_label(None), "project");
}
