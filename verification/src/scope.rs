//! The scope of a standup: which commits are gathered (one repository, several,
//! or GitHub-wide) and how they are laid out as one log.

use vstd::prelude::*;

use crate::dates::{
    iso_to_local_date, local_date_from_parsed_ok, local_offset, spec_rfc3339_timestamp,
    MAX_OFFSET_SECONDS,
};
use crate::error::StandupError;
use crate::since::SinceError;
use crate::gitcmd::{owned, prefixed};
use crate::order::{sorted_distinct, sorted_distinct_of};
use crate::paths::{
    expand_tilde, expand_tilde_spec, is_git_repo, join_path, join_spec, repo_list_spec, split_repo_list, sviews,
};
use crate::text::{
    chars_of, decimal, is_char, lines_chars, lines_spec, push_decimal, slice_prefix, split_chars,
    split_where, string_of, trim_end, trim_end_spec, vviews,
};

verus! {

/// The command line of the plugin, as plain values.
pub struct Cli {
    /// Time window for commits, in any form `git log --since` accepts.
    pub since: String,
    /// Only commits whose author name or email contains this text.
    pub author: Option<String>,
    /// Only commits by the configured git user.
    pub me: bool,
    /// Comma-separated list of repository paths.
    pub repos: Option<String>,
    /// Directory whose child git repositories are scanned.
    pub repo_dir: Option<String>,
    /// Search commits GitHub-wide with `gh`.
    pub gh: bool,
    /// GitHub user for `--gh`.
    pub gh_user: Option<String>,
    /// Include per-commit diff stats (single repository only).
    pub include_diff: bool,
    /// Print the gathered log instead of asking the model.
    pub raw: bool,
    /// Print the prompt that is sent.
    pub show_prompt: bool,
    /// Arguments handed on to `fledge ask`.
    pub ask_passthrough: Vec<String>,
}

/// The gathered commits of a scope.
pub struct Scope {
    /// The commit log, one commit per line, grouped under `## ` headers when
    /// several repositories are involved.
    pub log: String,
    /// Per-commit diff stats, when asked for in a single repository.
    pub diff_stats: Option<String>,
    /// What the scope covers, as shown in the prompt.
    pub label: String,
}

/// Where commits are gathered from.
#[derive(Clone, Copy, Debug, PartialEq, Eq, Structural)]
pub enum ScopeKind {
    /// The GitHub-wide commit search of `gh`.
    GitHub,
    /// Several local repositories (`--repos`, `--repo-dir`).
    Multi,
    /// The repository of the current directory.
    Single,
}

/// The scope a command line asks for: `--gh` first, then `--repos` or
/// `--repo-dir`, else the current repository.
pub open spec fn scope_kind_spec(cli: Cli) -> ScopeKind {
    if cli.gh {
        ScopeKind::GitHub
    } else if cli.repos is Some || cli.repo_dir is Some {
        ScopeKind::Multi
    } else {
        ScopeKind::Single
    }
}

/// Chooses the scope of a command line.
pub fn build_scope(cli: &Cli) -> (kind: ScopeKind)
    ensures
        kind == scope_kind_spec(*cli),
{
    if cli.gh {
        ScopeKind::GitHub
    } else if cli.repos.is_some() || cli.repo_dir.is_some() {
        ScopeKind::Multi
    } else {
        ScopeKind::Single
    }
}

/// The author searched for with `--gh`: `--gh-user`, else `@me` under `--me`
/// or without `--author`, else the `--author` text.
pub open spec fn gh_author_spec(cli: Cli) -> Seq<char> {
    match cli.gh_user {
        Some(user) => user@,
        None => if cli.me {
            "@me"@
        } else {
            match cli.author {
                Some(a) => a@,
                None => "@me"@,
            }
        },
    }
}

/// The author searched for with `--gh`.
pub fn gh_author(cli: &Cli) -> (a: String)
    ensures
        a@ == gh_author_spec(*cli),
{
    match &cli.gh_user {
        Some(user) => owned(user.as_str()),
        None => if cli.me {
            owned("@me")
        } else {
            match &cli.author {
                Some(a) => owned(a.as_str()),
                None => owned("@me"),
            }
        },
    }
}

/// The arguments of `gh search commits` for an author and a start date.
pub open spec fn gh_search_args_spec(author: Seq<char>, since_iso: Seq<char>) -> Seq<Seq<char>> {
    seq![
        "search"@,
        "commits"@,
        "--author="@ + author,
        "--committer-date=>="@ + since_iso,
        "--limit=200"@,
        "--json"@,
        "sha,commit,repository"@,
    ]
}

/// The arguments of `gh search commits`.
pub fn gh_search_args(author: &str, since_iso: &str) -> (args: Vec<String>)
    ensures
        sviews(args@) == gh_search_args_spec(author@, since_iso@),
{
    let mut args: Vec<String> = Vec::new();
    args.push(owned("search"));
    args.push(owned("commits"));
    args.push(prefixed("--author=", author));
    args.push(prefixed("--committer-date=>=", since_iso));
    args.push(owned("--limit=200"));
    args.push(owned("--json"));
    args.push(owned("sha,commit,repository"));
    assert(sviews(args@) =~= gh_search_args_spec(author@, since_iso@));
    args
}

/// The label of the GitHub-wide scope.
pub fn gh_label(author: &str) -> (label: String)
    ensures
        label@ == "GitHub-wide (author: "@ + author@ + ")"@,
{
    let mut label = owned("GitHub-wide (author: ");
    label.append(author);
    label.append(")");
    label
}

/// The log of one repository under `--repos`/`--repo-dir`.
pub struct RepoLog {
    /// The repository's label (its directory name).
    pub label: String,
    /// Its commit log; empty when it has no commits in the window.
    pub log: String,
}

/// The section of one repository: a `## <label>` header, its log and a blank
/// line, or nothing when its log is empty.
pub open spec fn repo_section(label: Seq<char>, log: Seq<char>) -> Seq<char> {
    if log.len() == 0 {
        Seq::empty()
    } else {
        "## "@ + label + "\n"@ + log + "\n\n"@
    }
}

/// The views of repository logs.
pub open spec fn repo_views(rs: Seq<RepoLog>) -> Seq<(Seq<char>, Seq<char>)> {
    rs.map_values(|r: RepoLog| (r.label@, r.log@))
}

/// The sections of all repositories, in order.
pub open spec fn repo_sections(rs: Seq<(Seq<char>, Seq<char>)>) -> Seq<char>
    decreases rs.len(),
{
    if rs.len() == 0 {
        Seq::empty()
    } else {
        repo_sections(rs.drop_last()) + repo_section(rs.last().0, rs.last().1)
    }
}

/// The number of repositories with a non-empty log.
pub open spec fn active_count(rs: Seq<(Seq<char>, Seq<char>)>) -> nat
    decreases rs.len(),
{
    if rs.len() == 0 {
        0
    } else {
        active_count(rs.drop_last()) + if rs.last().1.len() > 0 {
            1nat
        } else {
            0nat
        }
    }
}

/// Lays out the logs of several repositories: one section per repository
/// with commits, trailing whitespace dropped; labelled `<n> repos`, `n` being
/// the number of those sections.
pub fn combine_repo_logs(repos: &Vec<RepoLog>) -> (scope: Scope)
    ensures
        scope.log@ == trim_end_spec(repo_sections(repo_views(repos@))),
        scope.label@ == decimal(active_count(repo_views(repos@))) + " repos"@,
        scope.diff_stats is None,
{
    let ghost rv = repo_views(repos@);
    let mut combined = String::new();
    let mut count: u64 = 0;
    let mut i: usize = 0;
    assert(rv.take(0) =~= Seq::<(Seq<char>, Seq<char>)>::empty());
    while i < repos.len()
        invariant
            i <= repos@.len(),
            rv == repo_views(repos@),
            combined@ == repo_sections(rv.take(i as int)),
            count == active_count(rv.take(i as int)),
            count <= i,
        decreases repos.len() - i,
    {
        let r = &repos[i];
        assert(rv.take(i + 1).drop_last() =~= rv.take(i as int));
        assert(rv.take(i + 1).last() == (r.label@, r.log@));
        if !r.log.as_str().is_empty() {
            combined.append("## ");
            combined.append(r.label.as_str());
            combined.append("\n");
            combined.append(r.log.as_str());
            combined.append("\n\n");
            count = count + 1;
        }
        assert(combined@ =~= repo_sections(rv.take(i + 1)));
        i += 1;
    }
    assert(rv.take(repos@.len() as int) =~= rv);
    let log = trim_end(combined.as_str());
    let mut label = String::new();
    push_decimal(&mut label, count);
    label.append(" repos");
    Scope { log, diff_stats: None, label }
}

/// The repositories that were read, in scan order: `None` marks a path that
/// was skipped as not being a git repository.
pub open spec fn read_repos(scanned: Seq<Option<RepoLog>>) -> Seq<RepoLog>
    decreases scanned.len(),
{
    if scanned.len() == 0 {
        Seq::empty()
    } else {
        match scanned.last() {
            Some(r) => read_repos(scanned.drop_last()).push(r),
            None => read_repos(scanned.drop_last()),
        }
    }
}

/// The scope of several repositories from what the scan found for each path
/// (`None` for a skipped one): the skipped paths are left out and the others
/// are laid out as `combine_repo_logs` does.
pub fn multi_scope(scanned: &Vec<Option<RepoLog>>) -> (scope: Scope)
    ensures
        scope.log@ == trim_end_spec(repo_sections(repo_views(read_repos(scanned@)))),
        scope.label@ == decimal(active_count(repo_views(read_repos(scanned@)))) + " repos"@,
        scope.diff_stats is None,
{
    let mut kept: Vec<RepoLog> = Vec::new();
    let mut i: usize = 0;
    assert(scanned@.take(0) =~= Seq::<Option<RepoLog>>::empty());
    assert(repo_views(kept@) =~= Seq::<(Seq<char>, Seq<char>)>::empty());
    while i < scanned.len()
        invariant
            i <= scanned@.len(),
            repo_views(kept@) == repo_views(read_repos(scanned@.take(i as int))),
        decreases scanned.len() - i,
    {
        assert(scanned@.take(i + 1).drop_last() =~= scanned@.take(i as int));
        assert(scanned@.take(i + 1).last() == scanned@[i as int]);
        match &scanned[i] {
            Some(r) => {
                let ghost before = kept@;
                let label = r.label.clone();
                let log = r.log.clone();
                kept.push(RepoLog { label, log });
                let ghost prev = read_repos(scanned@.take(i as int));
                assert(read_repos(scanned@.take(i + 1)) == prev.push(*r));
                assert(repo_views(kept@) =~= repo_views(before).push((r.label@, r.log@)));
                assert(repo_views(prev.push(*r)) =~= repo_views(prev).push((r.label@, r.log@)));
            },
            None => {},
        }
        i += 1;
    }
    assert(scanned@.take(scanned@.len() as int) =~= scanned@);
    combine_repo_logs(&kept)
}

/// What the scan of several repositories does with one path.
pub enum ScanStep {
    /// It holds a git repository: read its log.
    Read,
    /// It does not: report this line and go on.
    Skip(String),
}

/// Decides whether a path is read as a repository or skipped. Whether
/// `git_dir_path(path)` exists is up to the disk; a skipped path is reported
/// with its own notice.
pub fn scan_step(path: &str) -> (step: ScanStep)
    ensures
        step matches ScanStep::Skip(line) ==> line@ == "fledge standup: '"@ + path@
            + "' is not a git repo (skipping)."@,
{
    if is_git_repo(path) {
        ScanStep::Read
    } else {
        ScanStep::Skip(skip_notice(path))
    }
}


/// One commit found by `gh search commits`.
pub struct GhCommit {
    /// The full commit hash.
    pub sha: String,
    /// The full commit message.
    pub message: String,
    /// The committer date, RFC 3339.
    pub committer_date: String,
    /// The full name (`owner/repo`) of the repository.
    pub repository: String,
}

/// One line of the GitHub-wide log.
pub struct GhEntry {
    /// The full name of the repository.
    pub repo: String,
    /// The local committer date, `YYYY-MM-DD`.
    pub date: String,
    /// The short hash.
    pub sha: String,
    /// The first line of the message.
    pub subject: String,
}

/// The views of log entries: repository, date, short hash, subject.
pub open spec fn entry_views(es: Seq<GhEntry>) -> Seq<(Seq<char>, Seq<char>, Seq<char>, Seq<char>)> {
    es.map_values(|e: GhEntry| (e.repo@, e.date@, e.sha@, e.subject@))
}

/// The first seven characters of a hash (fewer if it is shorter).
pub open spec fn short_sha_spec(sha: Seq<char>) -> Seq<char> {
    sha.take(
        if sha.len() < 7 {
            sha.len() as int
        } else {
            7
        },
    )
}

/// The first line of a message (`lines().next().unwrap_or("")`).
pub open spec fn first_line_spec(m: Seq<char>) -> Seq<char> {
    if lines_spec(m).len() > 0 {
        lines_spec(m)[0]
    } else {
        Seq::empty()
    }
}

/// `e` is the log entry of commit `c` at UTC offset `offset`.
pub open spec fn entry_of(c: GhCommit, offset: int, e: (Seq<char>, Seq<char>, Seq<char>, Seq<char>)) -> bool {
    &&& e.0 == c.repository@
    &&& local_date_from_parsed_ok(
        c.committer_date@,
        spec_rfc3339_timestamp(c.committer_date@),
        offset,
        Some(e.1),
    )
    &&& e.2 == short_sha_spec(c.sha@)
    &&& e.3 == first_line_spec(c.message@)
}

/// The log entry of one commit; `None` where its local date is outside the
/// range `time` represents.
pub fn gh_entry(c: &GhCommit, offset: i32) -> (r: Option<GhEntry>)
    requires
        -MAX_OFFSET_SECONDS <= offset <= MAX_OFFSET_SECONDS,
    ensures
        match r {
            Some(e) => entry_of(*c, offset as int, (e.repo@, e.date@, e.sha@, e.subject@)),
            None => local_date_from_parsed_ok(
                c.committer_date@,
                spec_rfc3339_timestamp(c.committer_date@),
                offset as int,
                None,
            ),
        },
{
    let date = match iso_to_local_date(c.committer_date.as_str(), offset) {
        Some(d) => d,
        None => {
            return None;
        },
    };
    let sv = chars_of(c.sha.as_str());
    let n = if sv.len() < 7 {
        sv.len()
    } else {
        7
    };
    let sha = string_of(slice_prefix(sv.as_slice(), n).as_slice());
    let mv = chars_of(c.message.as_str());
    let ls = lines_chars(mv.as_slice());
    let subject = if ls.len() > 0 {
        assert(vviews(ls@)[0] == ls@[0]@);
        string_of(ls[0].as_slice())
    } else {
        String::new()
    };
    Some(GhEntry { repo: owned(c.repository.as_str()), date, sha, subject })
}

/// One commit line: `<date>  <sha>  <subject>` and a newline.
pub open spec fn entry_line(e: (Seq<char>, Seq<char>, Seq<char>, Seq<char>)) -> Seq<char> {
    e.1 + "  "@ + e.2 + "  "@ + e.3 + "\n"@
}

/// The lines of the entries of repository `k`, in their order.
pub open spec fn repo_lines(k: Seq<char>, es: Seq<(Seq<char>, Seq<char>, Seq<char>, Seq<char>)>) -> Seq<char>
    decreases es.len(),
{
    if es.len() == 0 {
        Seq::empty()
    } else {
        repo_lines(k, es.drop_last()) + if es.last().0 == k {
            entry_line(es.last())
        } else {
            Seq::empty()
        }
    }
}

/// The block of repository `k`: `## <k>`, its lines, and a blank line.
pub open spec fn repo_block(k: Seq<char>, es: Seq<(Seq<char>, Seq<char>, Seq<char>, Seq<char>)>) -> Seq<char> {
    "## "@ + k + "\n"@ + repo_lines(k, es) + "\n"@
}

/// The blocks of the repositories `keys`, in that order.
pub open spec fn repo_blocks(
    keys: Seq<Seq<char>>,
    es: Seq<(Seq<char>, Seq<char>, Seq<char>, Seq<char>)>,
) -> Seq<char>
    decreases keys.len(),
{
    if keys.len() == 0 {
        Seq::empty()
    } else {
        repo_blocks(keys.drop_last(), es) + repo_block(keys.last(), es)
    }
}

/// The repositories of the entries, one per entry.
pub open spec fn entry_repos(es: Seq<(Seq<char>, Seq<char>, Seq<char>, Seq<char>)>) -> Seq<Seq<char>> {
    es.map_values(|e: (Seq<char>, Seq<char>, Seq<char>, Seq<char>)| e.0)
}

/// `log` is the GitHub-wide log of the entries: one block per repository, in
/// sorted order of the full names, each listing its commits in the order
/// found; trailing whitespace dropped.
pub open spec fn gh_log_of(es: Seq<(Seq<char>, Seq<char>, Seq<char>, Seq<char>)>, log: Seq<char>) -> bool {
    exists|keys: Seq<Seq<char>>|
        sorted_distinct_of(keys, entry_repos(es)) && log == trim_end_spec(repo_blocks(keys, es))
}

/// Lays out log entries grouped by repository.
pub fn render_gh_log(entries: &Vec<GhEntry>) -> (log: String)
    ensures
        gh_log_of(entry_views(entries@), log@),
{
    let ghost ev = entry_views(entries@);
    let mut repos: Vec<Vec<char>> = Vec::new();
    let mut j: usize = 0;
    while j < entries.len()
        invariant
            j <= entries@.len(),
            ev == entry_views(entries@),
            repos@.len() == j,
            vviews(repos@) == entry_repos(ev).take(j as int),
        decreases entries.len() - j,
    {
        let ghost before = repos@;
        repos.push(chars_of(entries[j].repo.as_str()));
        assert forall|m: int| 0 <= m < j + 1 implies vviews(repos@)[m] == entry_repos(ev).take(
            j + 1,
        )[m] by {
            if m < j {
                assert(repos@[m] == before[m]);
                assert(vviews(before)[m] == entry_repos(ev).take(j as int)[m]);
            }
        }
        assert(vviews(repos@) =~= entry_repos(ev).take(j + 1));
        j += 1;
    }
    assert(entry_repos(ev).take(entries@.len() as int) =~= entry_repos(ev));
    let keys = sorted_distinct(&repos);
    let ghost kv = vviews(keys@);
    let mut log = String::new();
    let mut i: usize = 0;
    assert(kv.take(0) =~= Seq::<Seq<char>>::empty());
    while i < keys.len()
        invariant
            i <= keys@.len(),
            kv == vviews(keys@),
            ev == entry_views(entries@),
            vviews(repos@) == entry_repos(ev),
            repos@.len() == entries@.len(),
            log@ == repo_blocks(kv.take(i as int), ev),
        decreases keys.len() - i,
    {
        let key = &keys[i];
        let key_text = string_of(key.as_slice());
        let ghost base = log@;
        log.append("## ");
        log.append(key_text.as_str());
        log.append("\n");
        let mut j: usize = 0;
        assert(ev.take(0) =~= Seq::<(Seq<char>, Seq<char>, Seq<char>, Seq<char>)>::empty());
        while j < entries.len()
            invariant
                j <= entries@.len(),
                ev == entry_views(entries@),
                vviews(repos@) == entry_repos(ev),
                repos@.len() == entries@.len(),
                i < keys@.len(),
                kv == vviews(keys@),
                key@ == kv[i as int],
                log@ == base + "## "@ + kv[i as int] + "\n"@ + repo_lines(kv[i as int], ev.take(j as int)),
            decreases entries.len() - j,
        {
            assert(ev.take(j + 1).drop_last() =~= ev.take(j as int));
            assert(vviews(repos@)[j as int] == repos@[j as int]@);
            assert(entry_repos(ev)[j as int] == ev[j as int].0);
            let e = &entries[j];
            if crate::order::chars_eq(repos[j].as_slice(), key.as_slice()) {
                log.append(e.date.as_str());
                log.append("  ");
                log.append(e.sha.as_str());
                log.append("  ");
                log.append(e.subject.as_str());
                log.append("\n");
            }
            assert(log@ =~= base + "## "@ + kv[i as int] + "\n"@ + repo_lines(kv[i as int], ev.take(j + 1)));
            j += 1;
        }
        log.append("\n");
        assert(ev.take(entries@.len() as int) =~= ev);
        assert(kv.take(i + 1).drop_last() =~= kv.take(i as int));
        assert(log@ =~= repo_blocks(kv.take(i + 1), ev));
        i += 1;
    }
    assert(kv.take(keys@.len() as int) =~= kv);
    trim_end(log.as_str())
}

/// The log entries of all commits, at UTC offset `offset`.
pub open spec fn entries_of(cs: Seq<GhCommit>, offset: int, es: Seq<(Seq<char>, Seq<char>, Seq<char>, Seq<char>)>) -> bool {
    es.len() == cs.len() && forall|k: int| 0 <= k < cs.len() ==> entry_of(cs[k], offset, #[trigger] es[k])
}

/// `log` is the GitHub-wide log of the commits `cs` at UTC offset `offset`.
pub open spec fn gh_log_found(cs: Seq<GhCommit>, offset: int, log: Seq<char>) -> bool {
    exists|es: Seq<(Seq<char>, Seq<char>, Seq<char>, Seq<char>)>|
        #[trigger] entries_of(cs, offset, es) && gh_log_of(es, log)
}

/// The GitHub-wide log of the commits found, their dates seen at UTC offset
/// `offset`; `None` where a commit's local date is outside the range `time`
/// represents.
pub fn gh_log(commits: &Vec<GhCommit>, offset: i32) -> (r: Option<String>)
    requires
        -MAX_OFFSET_SECONDS <= offset <= MAX_OFFSET_SECONDS,
    ensures
        match r {
            Some(log) => gh_log_found(commits@, offset as int, log@),
            None => exists|k: int|
                0 <= k < commits@.len() && local_date_from_parsed_ok(
                    commits@[k].committer_date@,
                    spec_rfc3339_timestamp(commits@[k].committer_date@),
                    offset as int,
                    None,
                ),
        },
{
    let mut entries: Vec<GhEntry> = Vec::new();
    let mut k: usize = 0;
    while k < commits.len()
        invariant
            k <= commits@.len(),
            entries@.len() == k,
            forall|m: int| 0 <= m < k ==> entry_of(commits@[m], offset as int, #[trigger] entry_views(entries@)[m]),
            -MAX_OFFSET_SECONDS <= offset <= MAX_OFFSET_SECONDS,
        decreases commits.len() - k,
    {
        match gh_entry(&commits[k], offset) {
            Some(e) => {
                let ghost before = entries@;
                entries.push(e);
                assert forall|m: int| 0 <= m < k + 1 implies entry_of(
                    commits@[m],
                    offset as int,
                    #[trigger] entry_views(entries@)[m],
                ) by {
                    if m < k {
                        assert(entries@[m] == before[m]);
                        assert(entry_views(before)[m] == entry_views(entries@)[m]);
                    }
                }
            },
            None => {
                return None;
            },
        }
        k += 1;
    }
    let log = render_gh_log(&entries);
    assert(entries_of(commits@, offset as int, entry_views(entries@)) && gh_log_of(
        entry_views(entries@),
        log@,
    ));
    Some(log)
}


/// The GitHub-wide scope of the commits found, their dates seen at the
/// machine's UTC offset. `None` where a commit's local date is outside the
/// range `time` represents.
pub fn gh_scope(commits: &Vec<GhCommit>, author: &str) -> (r: Option<Scope>)
    ensures
        exists|offset: int|
            -MAX_OFFSET_SECONDS <= offset <= MAX_OFFSET_SECONDS && gh_scope_ok(
                commits@,
                author@,
                offset,
                r,
            ),
{
    let offset = local_offset();
    gh_scope_at(commits, author, offset)
}

/// `r` is the GitHub-wide scope of the commits `cs` at UTC offset `offset`.
pub open spec fn gh_scope_ok(cs: Seq<GhCommit>, author: Seq<char>, offset: int, r: Option<Scope>) -> bool {
    match r {
        Some(s) => {
            &&& s.label@ == "GitHub-wide (author: "@ + author + ")"@
            &&& s.diff_stats is None
            &&& if cs.len() == 0 {
                s.log@.len() == 0
            } else {
                gh_log_found(cs, offset, s.log@)
            }
        },
        None => cs.len() > 0 && exists|k: int|
            0 <= k < cs.len() && local_date_from_parsed_ok(
                cs[k].committer_date@,
                spec_rfc3339_timestamp(cs[k].committer_date@),
                offset,
                None,
            ),
    }
}

/// The GitHub-wide scope: its log (empty when nothing was found) and label,
/// dates seen at UTC offset `offset`. `None` where a commit's local date is
/// outside the range `time` represents.
pub fn gh_scope_at(commits: &Vec<GhCommit>, author: &str, offset: i32) -> (r: Option<Scope>)
    requires
        -MAX_OFFSET_SECONDS <= offset <= MAX_OFFSET_SECONDS,
    ensures
        gh_scope_ok(commits@, author@, offset as int, r),
{
    let label = gh_label(author);
    if commits.len() == 0 {
        return Some(Scope { log: String::new(), diff_stats: None, label });
    }
    match gh_log(commits, offset) {
        Some(log) => Some(Scope { log, diff_stats: None, label }),
        None => None,
    }
}

/// Whether the single-repository scope fetches diff stats: `--include-diff`
/// and at least one commit.
pub fn wants_diff_stats(cli: &Cli, log: &str) -> (r: bool)
    ensures
        r == (cli.include_diff && log@.len() > 0),
{
    cli.include_diff && !log.is_empty()
}

/// The line reported when the single-repository log is empty: which filter
/// found nothing.
pub open spec fn no_commits_notice_spec(since: Seq<char>, author: Option<Seq<char>>) -> Seq<char> {
    match author {
        Some(a) => "fledge standup: no commits by '"@ + a + "' since '"@ + since + "'."@,
        None => "fledge standup: no commits since '"@ + since + "'."@,
    }
}

/// The line reported first when the single-repository log is empty.
pub fn no_commits_notice(since: &str, author: Option<&str>) -> (line: String)
    ensures
        line@ == no_commits_notice_spec(since@, crate::gitcmd::opt_view(author)),
{
    match author {
        None => {
            let mut l = owned("fledge standup: no commits since '");
            l.append(since);
            l.append("'.");
            l
        },
        Some(a) => {
            let mut l = owned("fledge standup: no commits by '");
            l.append(a);
            l.append("' since '");
            l.append(since);
            l.append("'.");
            l
        },
    }
}

/// The lines that follow it under an author filter: the authors with commits
/// in the window, to try instead; nothing when there are none.
pub open spec fn recent_authors_notice_spec(recent: Seq<Seq<char>>) -> Seq<Seq<char>> {
    if recent.len() > 0 {
        seq!["  Recent authors in this window:"@] + recent.map_values(|n: Seq<char>| "    - "@ + n)
            + seq!["  Try: fledge standup --author <name>  (or drop --me/--author for everyone)"@]
    } else {
        Seq::empty()
    }
}

/// The lines that list the recent authors after an empty author-filtered log.
pub fn recent_authors_notice(recent: &Vec<String>) -> (lines: Vec<String>)
    ensures
        sviews(lines@) == recent_authors_notice_spec(sviews(recent@)),
{
    let mut lines: Vec<String> = Vec::new();
    if recent.len() == 0 {
        assert(sviews(lines@) =~= Seq::<Seq<char>>::empty());
        return lines;
    }
    lines.push(owned("  Recent authors in this window:"));
    let ghost head = seq!["  Recent authors in this window:"@];
    let ghost names = sviews(recent@).map_values(|n: Seq<char>| "    - "@ + n);
    assert(sviews(lines@) =~= head + names.take(0));
    let mut i: usize = 0;
    while i < recent.len()
        invariant
            i <= recent@.len(),
            lines@.len() == 1 + i,
            head.len() == 1,
            names == sviews(recent@).map_values(|n: Seq<char>| "    - "@ + n),
            sviews(lines@) == head + names.take(i as int),
        decreases recent.len() - i,
    {
        let ghost before = lines@;
        lines.push(prefixed("    - ", recent[i].as_str()));
        assert(names[i as int] == "    - "@ + recent@[i as int]@);
        assert(sviews(lines@)[1 + i] == lines@[1 + i]@);
        assert forall|k: int| 0 <= k < 2 + i implies sviews(lines@)[k] == (head + names.take(
            i + 1,
        ))[k] by {
            if k < 1 + i {
                assert(lines@[k] == before[k]);
                assert(sviews(before)[k] == sviews(lines@)[k]);
            }
        }
        assert(sviews(lines@) =~= head + names.take(i + 1));
        i += 1;
    }
    assert(names.take(recent@.len() as int) =~= names);
    let ghost before = lines@;
    lines.push(
        owned("  Try: fledge standup --author <name>  (or drop --me/--author for everyone)"),
    );
    assert forall|k: int| 0 <= k < before.len() implies sviews(lines@)[k] == sviews(before)[k] by {
        assert(lines@[k] == before[k]);
    }
    assert(sviews(lines@) =~= head + names + seq![
        "  Try: fledge standup --author <name>  (or drop --me/--author for everyone)"@,
    ]);
    lines
}

/// The scope of the current repository, from its log, its label and the diff
/// stats that were fetched: the stats are kept only under `--include-diff`
/// and when there is at least one commit, the only case in which they are
/// fetched.
pub fn single_scope(cli: &Cli, log: String, label: String, stats: Option<String>) -> (scope: Scope)
    requires
        scope_kind_spec(*cli) == ScopeKind::Single,
    ensures
        scope.log@ == log@,
        scope.label@ == label@,
        scope.diff_stats == (if cli.include_diff && log@.len() > 0 {
            stats
        } else {
            None::<String>
        }),
        scope.diff_stats is Some ==> !cli.gh && cli.repos is None && cli.repo_dir is None
            && cli.include_diff,
{
    let diff_stats = if wants_diff_stats(cli, log.as_str()) {
        stats
    } else {
        None
    };
    Scope { log, diff_stats, label }
}

/// The single-repository scope runs only inside a git repository: whether
/// `git_dir_path(path)` exists is up to the disk; when it does not, the run
/// stops with `NotGitRepo`.
pub fn require_git_repo(path: &str) -> (r: Result<(), StandupError>)
    ensures
        r matches Err(e) ==> e == StandupError::NotGitRepo,
{
    if is_git_repo(path) {
        Ok(())
    } else {
        Err(StandupError::NotGitRepo)
    }
}

/// The items whose flag is set, in order.
pub open spec fn selected(items: Seq<Seq<char>>, flags: Seq<bool>) -> Seq<Seq<char>>
    decreases items.len(),
{
    if items.len() == 0 || flags.len() == 0 {
        Seq::empty()
    } else if flags[items.len() - 1] {
        selected(items.drop_last(), flags).push(items.last())
    } else {
        selected(items.drop_last(), flags)
    }
}

/// The entries of `--repo-dir` that hold a git repository (`is_repo[i]` for
/// `entries[i]`), sorted.
pub fn select_repos(entries: &Vec<String>, is_repo: &Vec<bool>) -> (repos: Vec<String>)
    requires
        entries@.len() == is_repo@.len(),
    ensures
        sorted_distinct_of(sviews(repos@), selected(sviews(entries@), is_repo@)),
{
    let mut found: Vec<String> = Vec::new();
    let mut i: usize = 0;
    assert(sviews(found@) =~= selected(sviews(entries@).take(0), is_repo@));
    while i < entries.len()
        invariant
            i <= entries@.len(),
            entries@.len() == is_repo@.len(),
            sviews(found@) == selected(sviews(entries@).take(i as int), is_repo@),
        decreases entries.len() - i,
    {
        let ghost items = sviews(entries@).take(i + 1);
        assert(items.drop_last() =~= sviews(entries@).take(i as int));
        assert(items.last() == entries@[i as int]@);
        assert(items.len() == i + 1);
        if is_repo[i] {
            found.push(owned(entries[i].as_str()));
        }
        assert(sviews(found@) =~= selected(items, is_repo@));
        i += 1;
    }
    assert(sviews(entries@).take(entries@.len() as int) =~= sviews(entries@));
    sorted_entries(&found)
}

/// The git repositories among the entries of `--repo-dir`, sorted. Which
/// entries hold one is up to the disk (whether `git_dir_path` of the entry
/// exists): the result is the selection of `select_repos` for some flag per
/// entry.
pub fn repo_dir_repos(entries: &Vec<String>) -> (repos: Vec<String>)
    ensures
        exists|flags: Seq<bool>|
            flags.len() == entries@.len() && sorted_distinct_of(
                sviews(repos@),
                selected(sviews(entries@), flags),
            ),
{
    let mut is_repo: Vec<bool> = Vec::new();
    let mut i: usize = 0;
    while i < entries.len()
        invariant
            i <= entries@.len(),
            is_repo@.len() == i,
        decreases entries.len() - i,
    {
        is_repo.push(is_git_repo(entries[i].as_str()));
        i += 1;
    }
    select_repos(entries, &is_repo)
}

/// The repositories a multi-repository scope scans: those `--repos` lists,
/// then those found under `--repo-dir`; with none, there is nothing to scan.
pub fn scan_paths(listed: Vec<String>, found: Vec<String>) -> (r: Result<Vec<String>, StandupError>)
    ensures
        r is Err <==> listed@.len() + found@.len() == 0,
        r matches Err(e) ==> e == StandupError::NoRepos,
        r matches Ok(paths) ==> paths@ == listed@ + found@,
{
    if listed.len() == 0 && found.len() == 0 {
        return Err(StandupError::NoRepos);
    }
    let mut paths = listed;
    let mut more = found;
    paths.append(&mut more);
    Ok(paths)
}

/// The line reported for a `--repos` entry that is not a git repository.
pub fn skip_notice(path: &str) -> (line: String)
    ensures
        line@ == "fledge standup: '"@ + path@ + "' is not a git repo (skipping)."@,
{
    let mut l = owned("fledge standup: '");
    l.append(path);
    l.append("' is not a git repo (skipping).");
    l
}

/// What `--gh` does with the conversion of its `--since` window: a date is
/// searched from; every failure, whichever it is, stops the run with
/// `SinceUnsupported`, which reports the window and the cause.
pub fn gh_since_outcome(since: &str, converted: Result<String, SinceError>) -> (r: Result<
    String,
    StandupError,
>)
    ensures
        match converted {
            Ok(iso) => r == Ok::<String, StandupError>(iso),
            Err(e) => r matches Err(StandupError::SinceUnsupported(s, f)) && s@ == since@ && f == e,
        },
{
    match converted {
        Ok(iso) => Ok(iso),
        Err(e) => Err(StandupError::SinceUnsupported(owned(since), e)),
    }
}

/// The line reported when `gh` finds nothing.
pub fn gh_empty_notice(author: &str, since_iso: &str) -> (line: String)
    ensures
        line@ == "fledge standup: no commits found on GitHub for author '"@ + author@ + "' since "@
            + since_iso@ + "."@,
{
    let mut l = owned("fledge standup: no commits found on GitHub for author '");
    l.append(author);
    l.append("' since ");
    l.append(since_iso);
    l.append(".");
    l
}

/// The repositories that `--repos` names, with `~/` expanded.
pub open spec fn repo_paths_spec(repos: Seq<char>, home: Option<Seq<char>>) -> Seq<Seq<char>> {
    repo_list_spec(repos).map_values(|p: Seq<char>| expand_tilde_spec(p, home))
}

/// The repositories that `--repos` names.
pub fn repo_paths(repos: &str, home: Option<&str>) -> (paths: Vec<String>)
    ensures
        sviews(paths@) == repo_paths_spec(repos@, crate::gitcmd::opt_view(home)),
{
    let list = split_repo_list(repos);
    let ghost lv = sviews(list@);
    let ghost hv = crate::gitcmd::opt_view(home);
    let mut paths: Vec<String> = Vec::new();
    let mut i: usize = 0;
    while i < list.len()
        invariant
            i <= list@.len(),
            lv == sviews(list@),
            hv == crate::gitcmd::opt_view(home),
            paths@.len() == i,
            forall|k: int| 0 <= k < i ==> sviews(paths@)[k] == expand_tilde_spec(lv[k], hv),
        decreases list.len() - i,
    {
        let ghost before = paths@;
        paths.push(expand_tilde(list[i].as_str(), home));
        assert(lv[i as int] == list@[i as int]@);
        assert forall|k: int| 0 <= k < i + 1 implies sviews(paths@)[k] == expand_tilde_spec(
            lv[k],
            hv,
        ) by {
            if k < i {
                assert(paths@[k] == before[k]);
                assert(sviews(before)[k] == before[k]@);
            } else {
                assert(sviews(paths@)[k] == paths@[k]@);
            }
        }
        i += 1;
    }
    assert(sviews(paths@) =~= repo_paths_spec(repos@, hv));
    paths
}

/// The entries of one directory in sorted order (they are distinct).
pub fn sorted_entries(paths: &Vec<String>) -> (sorted: Vec<String>)
    ensures
        sorted_distinct_of(sviews(sorted@), sviews(paths@)),
{
    let mut cs: Vec<Vec<char>> = Vec::new();
    let mut i: usize = 0;
    while i < paths.len()
        invariant
            i <= paths@.len(),
            cs@.len() == i,
            forall|k: int| 0 <= k < i ==> vviews(cs@)[k] == sviews(paths@)[k],
        decreases paths.len() - i,
    {
        let ghost before = cs@;
        cs.push(chars_of(paths[i].as_str()));
        assert forall|k: int| 0 <= k < i + 1 implies vviews(cs@)[k] == sviews(paths@)[k] by {
            if k < i {
                assert(cs@[k] == before[k]);
            }
        }
        i += 1;
    }
    assert(vviews(cs@) =~= sviews(paths@));
    let keys = sorted_distinct(&cs);
    let mut sorted: Vec<String> = Vec::new();
    let mut j: usize = 0;
    while j < keys.len()
        invariant
            j <= keys@.len(),
            sorted@.len() == j,
            forall|k: int| 0 <= k < j ==> sviews(sorted@)[k] == vviews(keys@)[k],
        decreases keys.len() - j,
    {
        let ghost before = sorted@;
        sorted.push(string_of(keys[j].as_slice()));
        assert forall|k: int| 0 <= k < j + 1 implies sviews(sorted@)[k] == vviews(keys@)[k] by {
            if k < j {
                assert(sorted@[k] == before[k]);
            }
        }
        j += 1;
    }
    assert(sviews(sorted@) =~= vviews(keys@));
    sorted
}

/// The places `which` looks for `cmd`: each `:`-separated entry of `PATH`
/// joined with `cmd`, in order.
pub open spec fn which_candidates_spec(path_var: Seq<char>, cmd: Seq<char>) -> Seq<Seq<char>> {
    split_where(path_var, is_char(':')).map_values(|d: Seq<char>| join_spec(d, cmd))
}

/// The places `which` looks for `cmd`, in order.
pub fn which_candidates(path_var: &str, cmd: &str) -> (cands: Vec<String>)
    ensures
        sviews(cands@) == which_candidates_spec(path_var@, cmd@),
{
    let v = chars_of(path_var);
    let dirs = split_chars(v.as_slice(), ':');
    let ghost dv = vviews(dirs@);
    let mut cands: Vec<String> = Vec::new();
    let mut i: usize = 0;
    while i < dirs.len()
        invariant
            i <= dirs@.len(),
            dv == vviews(dirs@),
            cands@.len() == i,
            forall|k: int| 0 <= k < i ==> sviews(cands@)[k] == join_spec(dv[k], cmd@),
        decreases dirs.len() - i,
    {
        let dir = string_of(dirs[i].as_slice());
        let ghost before = cands@;
        cands.push(join_path(dir.as_str(), cmd));
        assert(dv[i as int] == dirs@[i as int]@);
        assert forall|k: int| 0 <= k < i + 1 implies sviews(cands@)[k] == join_spec(dv[k], cmd@) by {
            if k < i {
                assert(cands@[k] == before[k]);
                assert(sviews(before)[k] == before[k]@);
            } else {
                assert(sviews(cands@)[k] == cands@[k]@);
            }
        }
        i += 1;
    }
    assert(sviews(cands@) =~= which_candidates_spec(path_var@, cmd@));
    cands
}


/// The GitHub-wide log is determined by the commits: any two logs that both
/// meet the layout are the same text.
pub proof fn lemma_gh_log_deterministic(
    es: Seq<(Seq<char>, Seq<char>, Seq<char>, Seq<char>)>,
    a: Seq<char>,
    b: Seq<char>,
)
    requires
        gh_log_of(es, a),
        gh_log_of(es, b),
    ensures
        a == b,
{
    let ka = choose|keys: Seq<Seq<char>>|
        sorted_distinct_of(keys, entry_repos(es)) && a == trim_end_spec(repo_blocks(keys, es));
    let kb = choose|keys: Seq<Seq<char>>|
        sorted_distinct_of(keys, entry_repos(es)) && b == trim_end_spec(repo_blocks(keys, es));
    crate::order::lemma_sorted_distinct_unique(ka, kb);
}

/// The author filter is the same for local history and GitHub: without
/// `--gh-user` and `--me`, `--gh` searches the `--author` text, and `git log`
/// is given `--author=<that text>`.
pub proof fn lemma_author_filter_consistent(cli: Cli, path: Seq<char>)
    requires
        cli.gh_user is None,
        !cli.me,
        cli.author is Some,
    ensures
        gh_author_spec(cli) == cli.author->0@,
        crate::gitcmd::git_log_args_spec(path, cli.since@, Some(cli.author->0@)).last() == "--author="@
            + cli.author->0@,
{
}

} // verus!
