//! What a run does once the scope is gathered: nothing, print the log, or ask
//! `fledge ask` with the prompt; and the exit status it ends with.

use vstd::prelude::*;

use crate::error::StandupError;
use crate::gitcmd::owned;
use crate::paths::sviews;
use crate::prompt::{
    author_part_spec, build_prompt, diff_part_spec, prompt_spec, PROMPT_AFTER_DATE, PROMPT_COMMITS,
    PROMPT_FALLBACK_RULE, PROMPT_INTRO, PROMPT_TODAY_RULE, PROMPT_WINDOW, PROMPT_YESTERDAY_RULE,
};
use crate::scope::{Cli, Scope};

verus! {

/// Whether `--me` must be resolved to the configured git user: `--me`
/// without `--author`.
pub fn needs_me_lookup(cli: &Cli) -> (r: bool)
    ensures
        r == (cli.me && cli.author is None),
{
    cli.me && cli.author.is_none()
}

/// Where resolving `--me` stands once `user.email` has been read.
#[derive(Debug, PartialEq, Eq)]
pub enum MeStep {
    /// The author is known: the configured email.
    Author(String),
    /// No email is configured: `user.name` must be read next.
    LookUpName,
}

/// The first step of resolving `--me`: `user.email` when it is set; only
/// without it is `user.name` asked for.
pub fn resolve_me(email: Option<String>) -> (r: MeStep)
    ensures
        match email {
            Some(e) => r == MeStep::Author(e),
            None => r == MeStep::LookUpName,
        },
{
    match email {
        Some(e) => MeStep::Author(e),
        None => MeStep::LookUpName,
    }
}

/// The last step of resolving `--me`, without an email: `user.name` when it
/// is set, else the run stops.
pub fn resolve_me_by_name(name: Option<String>) -> (r: Result<String, StandupError>)
    ensures
        match name {
            Some(n) => r == Ok::<String, StandupError>(n),
            None => r == Err::<String, StandupError>(StandupError::MeUnset),
        },
{
    match name {
        Some(n) => Ok(n),
        None => Err(StandupError::MeUnset),
    }
}

/// What a run does with the gathered scope.
pub enum Next {
    /// Nothing was found: end successfully without asking the model.
    Done,
    /// `--raw`: print the log and end successfully.
    PrintLog(String),
    /// Ask the model: run `fledge` with `args` (the prompt among them), after
    /// printing the prompt when `show_prompt`.
    Ask { prompt: String, show_prompt: bool, args: Vec<String> },
}

/// The arguments of `fledge` that ask the model: `ask --no-spec-index
/// <prompt>`, then the passthrough arguments.
pub open spec fn ask_args_spec(prompt: Seq<char>, passthrough: Seq<Seq<char>>) -> Seq<Seq<char>> {
    seq!["ask"@, "--no-spec-index"@, prompt] + passthrough
}

/// What a run does: nothing for an empty log, print it under `--raw`, else ask
/// `fledge ask` (spec indexing off) with the prompt built for `today`.
pub open spec fn next_ok(cli: Cli, scope: Scope, today: Seq<char>, next: Next) -> bool {
    if scope.log@.len() == 0 {
        next is Done
    } else if cli.raw {
        next matches Next::PrintLog(l) && l@ == scope.log@
    } else {
        next matches Next::Ask { prompt, show_prompt, args } && prompt@ == prompt_spec(
            cli.since@,
            cli.author,
            scope.label@,
            scope.log@,
            match scope.diff_stats {
                Some(s) => Some(s@),
                None => None,
            },
            today,
        ) && show_prompt == cli.show_prompt && sviews(args@) == ask_args_spec(
            prompt@,
            sviews(cli.ask_passthrough@),
        )
    }
}

/// Decides what a run does with the gathered scope.
pub fn plan_output(cli: &Cli, scope: &Scope, today: &str) -> (next: Next)
    ensures
        next_ok(*cli, *scope, today@, next),
        next matches Next::Ask { prompt, show_prompt, args } ==> match scope.diff_stats {
            Some(s) => if s@.len() > 0 {
                ends_with(
                    prompt@,
                    "\n\nCommits:\n"@ + scope.log@ + "\n\nDiff stats (per commit):\n"@ + s@,
                )
            } else {
                ends_with(prompt@, "\n\nCommits:\n"@ + scope.log@)
            },
            None => ends_with(prompt@, "\n\nCommits:\n"@ + scope.log@),
        },
{
    if scope.log.as_str().is_empty() {
        return Next::Done;
    }
    if cli.raw {
        return Next::PrintLog(owned(scope.log.as_str()));
    }
    let prompt = match &scope.diff_stats {
        Some(s) => build_prompt(cli, scope.label.as_str(), scope.log.as_str(), Some(s.as_str()), today),
        None => build_prompt(cli, scope.label.as_str(), scope.log.as_str(), None, today),
    };
    let mut args: Vec<String> = Vec::new();
    args.push(owned("ask"));
    args.push(owned("--no-spec-index"));
    args.push(owned(prompt.as_str()));
    let mut i: usize = 0;
    assert(sviews(args@) =~= seq!["ask"@, "--no-spec-index"@, prompt@] + sviews(
        cli.ask_passthrough@,
    ).take(0));
    while i < cli.ask_passthrough.len()
        invariant
            i <= cli.ask_passthrough@.len(),
            args@.len() == 3 + i,
            sviews(args@) == seq!["ask"@, "--no-spec-index"@, prompt@] + sviews(
                cli.ask_passthrough@,
            ).take(i as int),
        decreases cli.ask_passthrough.len() - i,
    {
        let ghost before = args@;
        args.push(owned(cli.ask_passthrough[i].as_str()));
        assert forall|k: int| 0 <= k < 4 + i implies sviews(args@)[k] == (seq![
            "ask"@,
            "--no-spec-index"@,
            prompt@,
        ] + sviews(cli.ask_passthrough@).take(i + 1))[k] by {
            if k < 3 + i {
                assert(args@[k] == before[k]);
                assert(sviews(before)[k] == sviews(args@)[k]);
            }
        }
        assert(sviews(args@) =~= seq!["ask"@, "--no-spec-index"@, prompt@] + sviews(
            cli.ask_passthrough@,
        ).take(i + 1));
        i += 1;
    }
    assert(sviews(cli.ask_passthrough@).take(cli.ask_passthrough@.len() as int) =~= sviews(
        cli.ask_passthrough@,
    ));
    let next = Next::Ask { prompt, show_prompt: cli.show_prompt, args };
    proof {
        assert(next_ok(*cli, *scope, today@, next));
        lemma_prompt_carries_scope(*cli, *scope, today@, next);
    }
    next
}

/// The exit status of a run that asked the model: the low byte of `fledge`'s
/// exit code, or 1 when it was ended by a signal.
pub fn exit_status(code: Option<i32>) -> (status: u8)
    ensures
        match code {
            Some(c) => status as int == c % 256,
            None => status == 1,
        },
{
    match code {
        Some(c) => {
            let low = c & 0xff;
            assert(low == c % 256 && 0 <= low < 256) by (bit_vector)
                requires
                    low == c & 0xff,
            ;
            low as u8
        },
        None => 1,
    }
}


/// A run asks the model only when commits were found and `--raw` is off, and
/// then always through `fledge ask --no-spec-index` with the prompt, followed
/// by the passthrough arguments unchanged. An empty log ends the run and
/// `--raw` only prints.
pub proof fn lemma_ask_only_when_narrated(cli: Cli, scope: Scope, today: Seq<char>, next: Next)
    requires
        next_ok(cli, scope, today, next),
    ensures
        scope.log@.len() == 0 ==> next is Done,
        cli.raw ==> !(next is Ask),
        next is Ask ==> scope.log@.len() > 0 && !cli.raw,
        next matches Next::Ask { prompt, show_prompt, args } ==> {
            &&& sviews(args@).len() == 3 + cli.ask_passthrough@.len()
            &&& sviews(args@)[0] == "ask"@
            &&& sviews(args@)[1] == "--no-spec-index"@
            &&& sviews(args@)[2] == prompt@
            &&& sviews(args@).skip(3) == sviews(cli.ask_passthrough@)
        },
{
    if let Next::Ask { prompt, show_prompt, args } = next {
        assert(sviews(args@).skip(3) =~= sviews(cli.ask_passthrough@));
    }
}

/// `text` ends with `tail`.
pub open spec fn ends_with(text: Seq<char>, tail: Seq<char>) -> bool {
    exists|head: Seq<char>| text == head + tail
}

/// The prompt a run asks the model with ends with what the scope gathered:
/// a `Commits:` section holding the log, followed, when the scope holds
/// non-empty diff stats, by a `Diff stats (per commit):` section holding them.
pub proof fn lemma_prompt_carries_scope(cli: Cli, scope: Scope, today: Seq<char>, next: Next)
    requires
        next_ok(cli, scope, today, next),
    ensures
        next matches Next::Ask { prompt, show_prompt, args } ==> match scope.diff_stats {
            Some(s) => if s@.len() > 0 {
                ends_with(
                    prompt@,
                    "\n\nCommits:\n"@ + scope.log@ + "\n\nDiff stats (per commit):\n"@ + s@,
                )
            } else {
                ends_with(prompt@, "\n\nCommits:\n"@ + scope.log@)
            },
            None => ends_with(prompt@, "\n\nCommits:\n"@ + scope.log@),
        },
{
    if let Next::Ask { prompt, show_prompt, args } = next {
        let stats = match scope.diff_stats {
            Some(s) => Some(s@),
            None => None,
        };
        let head = PROMPT_INTRO@ + today + PROMPT_AFTER_DATE@ + today + PROMPT_YESTERDAY_RULE@
            + today + PROMPT_TODAY_RULE@ + today + PROMPT_FALLBACK_RULE@ + scope.label@
            + PROMPT_WINDOW@ + cli.since@ + author_part_spec(cli.author);
        assert(PROMPT_COMMITS@ == "\n\nCommits:\n"@);
        assert(prompt@ =~= head + ("\n\nCommits:\n"@ + scope.log@ + diff_part_spec(stats)));
        match scope.diff_stats {
            Some(s) => {
                if s@.len() > 0 {
                    assert(diff_part_spec(stats) == "\n\nDiff stats (per commit):\n"@ + s@);
                    assert(prompt@ =~= head + ("\n\nCommits:\n"@ + scope.log@
                        + "\n\nDiff stats (per commit):\n"@ + s@));
                } else {
                    assert(prompt@ =~= head + ("\n\nCommits:\n"@ + scope.log@));
                }
            },
            None => {
                assert(prompt@ =~= head + ("\n\nCommits:\n"@ + scope.log@));
            },
        }
    }
}

} // verus!
