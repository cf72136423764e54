//! The prompt that turns the gathered commits into a standup post.

use vstd::prelude::*;

use crate::scope::Cli;

verus! {

/// What the model is asked to write, up to the first mention of today's date.
pub const PROMPT_INTRO: &'static str = "You are turning a list of git commits into a concise, paste-ready Markdown standup post for a team channel.\n\nOutput exactly two sections, in this order, using these headers verbatim:\n## Yesterday\n## Today\n\nToday's date is ";

/// How commit lines read, and the rule for `## Yesterday` up to its date.
pub const PROMPT_AFTER_DATE: &'static str = ". Each commit line in the input begins with its date in YYYY-MM-DD form, then the short SHA, then the subject.\n\nRules:\n- \"Yesterday\" — past-tense bullets for commits whose date is BEFORE ";

/// The rest of the `## Yesterday` rule and the `## Today` rule up to its date.
pub const PROMPT_YESTERDAY_RULE: &'static str = ". Write 3–8 bullets grouped by theme. Use the commit subjects, rewrite them in past tense, and strip conventional-commit prefixes (feat:, fix:, etc.). When commits span multiple repos (the input may have \"## owner/repo\" headers), call out which repo each bullet belongs to in parentheses, e.g. \"- Bumped tokei to library mode (fledge-plugin-metrics)\".\n- \"Today\" — past-tense bullets for commits whose date IS ";

/// The rest of the `## Today` rule up to the date of the fallback.
pub const PROMPT_TODAY_RULE: &'static str = ", written the same way as Yesterday (multi-repo annotations included). If there are no commits dated ";

/// The fallback, the closing rules, and the scope header.
pub const PROMPT_FALLBACK_RULE: &'static str = ", then instead write 1–3 plausible next-step bullets inferred from the commits, each prefixed with \"(inferred)\" so the reader can edit.\n- No preamble. No trailing summary. Just the two sections.\n- Total length: 12 lines or fewer.\n\nScope: ";

/// The window header.
pub const PROMPT_WINDOW: &'static str = "\nWindow: since ";

/// The commits header.
pub const PROMPT_COMMITS: &'static str = "\n\nCommits:\n";

/// The author clause of the window: ` (author: <a>)`, or nothing.
pub open spec fn author_part_spec(author: Option<String>) -> Seq<char> {
    match author {
        Some(a) => " (author: "@ + a@ + ")"@,
        None => Seq::empty(),
    }
}

/// The diff-stats section: present only for non-empty stats.
pub open spec fn diff_part_spec(diff_stats: Option<Seq<char>>) -> Seq<char> {
    match diff_stats {
        Some(s) => if s.len() > 0 {
            "\n\nDiff stats (per commit):\n"@ + s
        } else {
            Seq::empty()
        },
        None => Seq::empty(),
    }
}

/// The prompt for the model: fixed instructions with today's date, the
/// scope, the window (and author), the commits and, when there are any, the
/// diff stats.
pub open spec fn prompt_spec(
    since: Seq<char>,
    author: Option<String>,
    scope_label: Seq<char>,
    log: Seq<char>,
    diff_stats: Option<Seq<char>>,
    today: Seq<char>,
) -> Seq<char> {
    PROMPT_INTRO@ + today + PROMPT_AFTER_DATE@ + today + PROMPT_YESTERDAY_RULE@ + today
        + PROMPT_TODAY_RULE@ + today + PROMPT_FALLBACK_RULE@ + scope_label + PROMPT_WINDOW@ + since
        + author_part_spec(author) + PROMPT_COMMITS@ + log + diff_part_spec(diff_stats)
}

/// Builds the prompt for the model.
pub fn build_prompt(
    cli: &Cli,
    scope_label: &str,
    log: &str,
    diff_stats: Option<&str>,
    today: &str,
) -> (prompt: String)
    ensures
        prompt@ == prompt_spec(
            cli.since@,
            cli.author,
            scope_label@,
            log@,
            match diff_stats {
                Some(s) => Some(s@),
                None => None,
            },
            today@,
        ),
{
    let mut prompt = String::from_str(PROMPT_INTRO);
    prompt.append(today);
    prompt.append(PROMPT_AFTER_DATE);
    prompt.append(today);
    prompt.append(PROMPT_YESTERDAY_RULE);
    prompt.append(today);
    prompt.append(PROMPT_TODAY_RULE);
    prompt.append(today);
    prompt.append(PROMPT_FALLBACK_RULE);
    prompt.append(scope_label);
    prompt.append(PROMPT_WINDOW);
    prompt.append(cli.since.as_str());
    match &cli.author {
        Some(a) => {
            prompt.append(" (author: ");
            prompt.append(a.as_str());
            prompt.append(")");
        },
        None => {},
    }
    prompt.append(PROMPT_COMMITS);
    prompt.append(log);
    if let Some(stats) = diff_stats {
        if !stats.is_empty() {
            prompt.append("\n\nDiff stats (per commit):\n");
            prompt.append(stats);
        }
    }
    prompt
}


/// `x` occurs in `s` as a contiguous piece.
pub open spec fn is_infix(x: Seq<char>, s: Seq<char>) -> bool {
    exists|i: int| 0 <= i && i + x.len() <= s.len() && #[trigger] s.subrange(i, i + x.len()) == x
}

/// The window line of the prompt names the author exactly when there is an
/// author filter: with one, the window is followed by ` (author: <a>)`; without
/// one, directly by the commits header.
pub proof fn lemma_prompt_author_clause(
    since: Seq<char>,
    author: Option<String>,
    scope_label: Seq<char>,
    log: Seq<char>,
    diff_stats: Option<Seq<char>>,
    today: Seq<char>,
)
    ensures
        match author {
            Some(a) => is_infix(
                PROMPT_WINDOW@ + since + " (author: "@ + a@ + ")"@ + PROMPT_COMMITS@,
                prompt_spec(since, author, scope_label, log, diff_stats, today),
            ),
            None => is_infix(
                PROMPT_WINDOW@ + since + PROMPT_COMMITS@,
                prompt_spec(since, author, scope_label, log, diff_stats, today),
            ),
        },
{
    let p = prompt_spec(since, author, scope_label, log, diff_stats, today);
    let pre = PROMPT_INTRO@ + today + PROMPT_AFTER_DATE@ + today + PROMPT_YESTERDAY_RULE@ + today
        + PROMPT_TODAY_RULE@ + today + PROMPT_FALLBACK_RULE@ + scope_label;
    let mid = PROMPT_WINDOW@ + since + author_part_spec(author) + PROMPT_COMMITS@;
    let post = log + diff_part_spec(diff_stats);
    assert(p =~= pre + mid + post);
    assert(p.subrange(pre.len() as int, (pre.len() + mid.len()) as int) =~= mid);
    match author {
        Some(a) => {
            assert(mid =~= PROMPT_WINDOW@ + since + " (author: "@ + a@ + ")"@ + PROMPT_COMMITS@);
        },
        None => {
            assert(mid =~= PROMPT_WINDOW@ + since + PROMPT_COMMITS@);
        },
    }
}

/// Diff stats reach the prompt only when there are some: empty or absent
/// stats give the same prompt, ending with the log; non-empty stats are
/// appended after a `Diff stats (per commit):` header.
pub proof fn lemma_prompt_diff_stats(
    since: Seq<char>,
    author: Option<String>,
    scope_label: Seq<char>,
    log: Seq<char>,
    stats: Seq<char>,
    today: Seq<char>,
)
    ensures
        stats.len() == 0 ==> prompt_spec(since, author, scope_label, log, Some(stats), today)
            == prompt_spec(since, author, scope_label, log, None, today),
        stats.len() > 0 ==> prompt_spec(since, author, scope_label, log, Some(stats), today)
            == prompt_spec(since, author, scope_label, log, None, today)
            + "\n\nDiff stats (per commit):\n"@ + stats,
        prompt_spec(since, author, scope_label, log, None, today).skip(
            prompt_spec(since, author, scope_label, log, None, today).len() - log.len(),
        ) == log,
{
    let base = prompt_spec(since, author, scope_label, log, None, today);
    assert(base.skip(base.len() - log.len()) =~= log);
    if stats.len() > 0 {
        assert(prompt_spec(since, author, scope_label, log, Some(stats), today) =~= base
            + "\n\nDiff stats (per commit):\n"@ + stats);
    } else {
        assert(prompt_spec(since, author, scope_label, log, Some(stats), today) =~= base);
    }
}

} // verus!
