use fledge_standup::dates::{date_text, format_iso_date};
use fledge_standup::gitcmd::{diff_stats_from_output, git_log_args};
use fledge_standup::scope::{gh_author, gh_log, sorted_entries, Cli, GhCommit};
use fledge_standup::since::since_to_iso_date_at;

fn commit(sha: &str, date: &str, repo: &str) -> GhCommit {
    GhCommit {
        sha: sha.to_string(),
        message: format!("subject of {sha}"),
        committer_date: date.to_string(),
        repository: repo.to_string(),
    }
}

#[test]
fn gh_log_depends_only_on_per_repository_order() {
    let a1 = commit("a111111", "2026-04-24T10:00:00Z", "o/a");
    let a2 = commit("a222222", "2026-04-25T10:00:00Z", "o/a");
    let b1 = commit("b111111", "2026-04-25T09:00:00Z", "o/b");
    let one = gh_log(&vec![a1, b1, a2], 0);
    let a1 = commit("a111111", "2026-04-24T10:00:00Z", "o/a");
    let a2 = commit("a222222", "2026-04-25T10:00:00Z", "o/a");
    let b1 = commit("b111111", "2026-04-25T09:00:00Z", "o/b");
    let two = gh_log(&vec![b1, a1, a2], 0);
    assert_eq!(one, two);
    assert_eq!(
        one.unwrap(),
        "## o/a\n2026-04-24  a111111  subject of a111111\n2026-04-25  a222222  subject of a222222\n\n## o/b\n2026-04-25  b111111  subject of b111111"
    );
}

#[test]
fn sorting_is_independent_of_input_order() {
    let x = vec!["/d/b".to_string(), "/d/a".to_string(), "/d/c".to_string()];
    let y = vec!["/d/c".to_string(), "/d/b".to_string(), "/d/a".to_string()];
    assert_eq!(sorted_entries(&x), sorted_entries(&y));
}

#[test]
fn author_filter_is_shared_by_git_and_gh() {
    let cli = Cli {
        since: "yesterday".to_string(),
        author: Some("ada".to_string()),
        me: false,
        repos: None,
        repo_dir: None,
        gh: true,
        gh_user: None,
        include_diff: false,
        raw: false,
        show_prompt: false,
        ask_passthrough: Vec::new(),
    };
    assert_eq!(gh_author(&cli), "ada");
    assert_eq!(git_log_args(".", &cli.since, cli.author.as_deref()).last().unwrap(), "--author=ada");
}

#[test]
fn formatted_dates_pass_through_the_window() {
    for (y, m, d) in [(2026, 4, 25), (1, 1, 1), (9999, 12, 31), (1970, 2, 9)] {
        let text = format_iso_date(y, m, d);
        assert_eq!(since_to_iso_date_at(&text, 0), Ok(text.clone()));
    }
}

#[test]
fn relative_windows_count_whole_units_back() {
    // 2026-04-25T12:00:00Z
    let now: i64 = 1_777_118_400;
    let units: [(&str, i64); 5] = [
        ("hour", 3_600),
        ("day", 86_400),
        ("week", 604_800),
        ("month", 30 * 86_400),
        ("year", 365 * 86_400),
    ];
    for n in [0i64, 1, 2, 7, 40, -3] {
        for (unit, secs) in units {
            for plural in ["", "s"] {
                let text = format!("{n} {unit}{plural} ago");
                assert_eq!(since_to_iso_date_at(&text, now), Ok(date_text(now - n * secs)));
            }
        }
    }
}

#[test]
fn converted_windows_have_the_iso_shape() {
    let now: i64 = 1_777_118_400;
    for text in ["today", "yesterday", "3 weeks ago", "100 years ago", "2020-01-31T00:00", "-2 months ago"] {
        let s = since_to_iso_date_at(text, now).unwrap();
        let b = s.as_bytes();
        assert_eq!(b.len(), 10);
        assert!(b[4] == b'-' && b[7] == b'-');
        for k in [0, 1, 2, 3, 5, 6, 8, 9] {
            assert!(b[k].is_ascii_digit());
        }
    }
}

#[test]
fn diff_stats_keep_the_first_lines_of_the_output() {
    let raw: String = (0..620).map(|i| format!(" {i} file changed\n")).collect();
    let stats = diff_stats_from_output(true, &raw);
    let kept: Vec<&str> = stats.lines().collect();
    let first: Vec<&str> = raw.lines().take(500).collect();
    assert_eq!(kept, first);
    let crlf = diff_stats_from_output(true, "a\r\r\nb\n");
    assert_eq!(crlf.lines().collect::<Vec<&str>>(), vec!["a", "b"]);
    let short = diff_stats_from_output(true, "x\r\ny\n");
    assert_eq!(short.lines().collect::<Vec<&str>>(), vec!["x", "y"]);
    assert!(diff_stats_from_output(true, "a\r\r\nb").lines().count() <= 500);
}
