//! The command lines given to `git` and `gh`, and what their output comes to.

use vstd::prelude::*;

use crate::order::{sorted_distinct, sorted_distinct_of};
use crate::paths::{file_name, file_name_spec, sviews};
use crate::text::{
    chars_of, is_char, join_chars, join_spec, lemma_split_join, lemma_split_nonempty,
    lemma_split_pieces_clean, lines_chars, lines_spec, split_where, string_of, strip_all, strip_cr,
    trim, trim_spec, vviews,
};

verus! {

/// An owned copy of a string slice.
pub fn owned(s: &str) -> (r: String)
    ensures
        r@ == s@,
{
    String::from_str(s)
}

/// `prefix` followed by `s`.
pub fn prefixed(prefix: &str, s: &str) -> (r: String)
    ensures
        r@ == prefix@ + s@,
{
    let mut r = String::from_str(prefix);
    r.append(s);
    r
}

/// The `--author=<name>` argument, when there is an author.
pub open spec fn author_arg(author: Option<Seq<char>>) -> Seq<Seq<char>> {
    match author {
        Some(a) => seq!["--author="@ + a],
        None => Seq::empty(),
    }
}

/// The view of an optional string slice.
pub open spec fn opt_view(o: Option<&str>) -> Option<Seq<char>> {
    match o {
        Some(s) => Some(s@),
        None => None,
    }
}

/// Arguments of `git` for the dated one-line log of `path`.
pub open spec fn git_log_args_spec(path: Seq<char>, since: Seq<char>, author: Option<Seq<char>>) -> Seq<
    Seq<char>,
> {
    seq![
        "-C"@,
        path,
        "log"@,
        "--since="@ + since,
        "--pretty=format:%cd  %h  %s"@,
        "--date=format-local:%Y-%m-%d"@,
    ] + author_arg(author)
}

/// Pushes `--author=<name>` when there is an author.
fn push_author(args: &mut Vec<String>, author: Option<&str>)
    ensures
        sviews(final(args)@) == sviews(old(args)@) + author_arg(opt_view(author)),
{
    if let Some(name) = author {
        args.push(prefixed("--author=", name));
        assert(sviews(args@) =~= sviews(old(args)@) + author_arg(opt_view(author)));
    } else {
        assert(sviews(args@) =~= sviews(old(args)@) + author_arg(opt_view(author)));
    }
}

/// The arguments of `git log` that list commits as `date  sha  subject`.
pub fn git_log_args(path: &str, since: &str, author: Option<&str>) -> (args: Vec<String>)
    ensures
        sviews(args@) == git_log_args_spec(path@, since@, opt_view(author)),
{
    let mut args: Vec<String> = Vec::new();
    args.push(owned("-C"));
    args.push(owned(path));
    args.push(owned("log"));
    args.push(prefixed("--since=", since));
    args.push(owned("--pretty=format:%cd  %h  %s"));
    args.push(owned("--date=format-local:%Y-%m-%d"));
    assert(sviews(args@) =~= seq![
        "-C"@,
        path@,
        "log"@,
        "--since="@ + since@,
        "--pretty=format:%cd  %h  %s"@,
        "--date=format-local:%Y-%m-%d"@,
    ]);
    push_author(&mut args, author);
    args
}

/// Arguments of `git` for the per-commit `--shortstat` of `path`.
pub open spec fn git_diff_stats_args_spec(
    path: Seq<char>,
    since: Seq<char>,
    author: Option<Seq<char>>,
) -> Seq<Seq<char>> {
    seq![
        "-C"@,
        path,
        "log"@,
        "--since="@ + since,
        "--shortstat"@,
        "--pretty=format:%h"@,
        "--no-merges"@,
    ] + author_arg(author)
}

/// The arguments of `git log` that list a shortstat per commit.
pub fn git_diff_stats_args(path: &str, since: &str, author: Option<&str>) -> (args: Vec<String>)
    ensures
        sviews(args@) == git_diff_stats_args_spec(path@, since@, opt_view(author)),
{
    let mut args: Vec<String> = Vec::new();
    args.push(owned("-C"));
    args.push(owned(path));
    args.push(owned("log"));
    args.push(prefixed("--since=", since));
    args.push(owned("--shortstat"));
    args.push(owned("--pretty=format:%h"));
    args.push(owned("--no-merges"));
    assert(sviews(args@) =~= seq![
        "-C"@,
        path@,
        "log"@,
        "--since="@ + since@,
        "--shortstat"@,
        "--pretty=format:%h"@,
        "--no-merges"@,
    ]);
    push_author(&mut args, author);
    args
}

/// Arguments of `git` for the author names of the commits of `path`.
pub open spec fn recent_authors_args_spec(path: Seq<char>, since: Seq<char>) -> Seq<Seq<char>> {
    seq!["-C"@, path, "log"@, "--since="@ + since, "--pretty=format:%an"@]
}

/// The arguments of `git log` that list author names.
pub fn recent_authors_args(path: &str, since: &str) -> (args: Vec<String>)
    ensures
        sviews(args@) == recent_authors_args_spec(path@, since@),
{
    let mut args: Vec<String> = Vec::new();
    args.push(owned("-C"));
    args.push(owned(path));
    args.push(owned("log"));
    args.push(prefixed("--since=", since));
    args.push(owned("--pretty=format:%an"));
    assert(sviews(args@) =~= recent_authors_args_spec(path@, since@));
    args
}

/// The arguments of `git config <key>`.
pub fn git_config_args(key: &str) -> (args: Vec<String>)
    ensures
        sviews(args@) == seq!["config"@, key@],
{
    let mut args: Vec<String> = Vec::new();
    args.push(owned("config"));
    args.push(owned(key));
    assert(sviews(args@) =~= seq!["config"@, key@]);
    args
}

/// The arguments of `git rev-parse --show-toplevel` run in `path`.
pub fn toplevel_args(path: &str) -> (args: Vec<String>)
    ensures
        sviews(args@) == seq!["-C"@, path@, "rev-parse"@, "--show-toplevel"@],
{
    let mut args: Vec<String> = Vec::new();
    args.push(owned("-C"));
    args.push(owned(path));
    args.push(owned("rev-parse"));
    args.push(owned("--show-toplevel"));
    assert(sviews(args@) =~= seq!["-C"@, path@, "rev-parse"@, "--show-toplevel"@]);
    args
}

/// The log of a `git log` run: its output, trimmed, or nothing when it failed.
pub fn log_from_output(success: bool, stdout: &str) -> (log: String)
    ensures
        log@ == (if success {
            trim_spec(stdout@)
        } else {
            Seq::empty()
        }),
{
    if !success {
        return String::new();
    }
    trim(stdout)
}

/// The most lines of shortstat output given to the prompt.
pub const MAX_DIFF_STAT_LINES: usize = 500;

/// The lines of shortstat output that are kept: the first 500.
pub open spec fn kept_stat_lines(stdout: Seq<char>) -> Seq<Seq<char>> {
    let ls = lines_spec(stdout);
    ls.take(
        if ls.len() < MAX_DIFF_STAT_LINES {
            ls.len() as int
        } else {
            MAX_DIFF_STAT_LINES as int
        },
    )
}

/// The diff stats of a `git log --shortstat` run: its first 500 lines joined
/// with `\n`, or nothing when it failed.
pub fn diff_stats_from_output(success: bool, stdout: &str) -> (stats: String)
    ensures
        stats@ == (if success {
            join_spec(kept_stat_lines(stdout@), "\n"@)
        } else {
            Seq::empty()
        }),
        success ==> lines_spec(stats@) == rejoined_lines(kept_stat_lines(stdout@)),
        lines_spec(stats@).len() <= MAX_DIFF_STAT_LINES,
{
    proof {
        lemma_diff_stats_lines(stdout@);
        assert(split_where(Seq::<char>::empty(), is_char('\n')) == seq![Seq::<char>::empty()]);
        assert(seq![Seq::<char>::empty()].drop_last() =~= Seq::<Seq<char>>::empty());
        assert(lines_spec(Seq::<char>::empty()).len() == 0);
    }
    if !success {
        return String::new();
    }
    let v = chars_of(stdout);
    let ls = lines_chars(v.as_slice());
    let count = if ls.len() < MAX_DIFF_STAT_LINES {
        ls.len()
    } else {
        MAX_DIFF_STAT_LINES
    };
    join_chars(&ls, count, "\n")
}

/// The lines of a text hold no line break.
proof fn lemma_lines_clean(s: Seq<char>)
    ensures
        forall|k: int, i: int|
            0 <= k < lines_spec(s).len() && 0 <= i < lines_spec(s)[k].len() ==> #[trigger] lines_spec(
                s,
            )[k][i] != '\n',
{
    let parts = split_where(s, is_char('\n'));
    lemma_split_nonempty(s, is_char('\n'));
    lemma_split_pieces_clean(s, is_char('\n'));
    let ls = lines_spec(s);
    assert forall|k: int, i: int| 0 <= k < ls.len() && 0 <= i < ls[k].len() implies #[trigger] ls[k][i]
        != '\n' by {
        if k < parts.len() - 1 {
            assert(ls[k] == strip_cr(parts[k]));
            assert(ls[k][i] == parts[k][i]);
            assert(!is_char('\n')(parts[k][i]));
        } else {
            assert(ls[k] == parts[k]);
            assert(!is_char('\n')(parts[k][i]));
        }
    }
}

/// The lines of the kept lines once joined by `\n` and read back with
/// `str::lines`: the same lines in the same order, except that each but the
/// last loses one trailing carriage return, and an empty last line leaves
/// nothing.
pub open spec fn rejoined_lines(kept: Seq<Seq<char>>) -> Seq<Seq<char>> {
    if kept.len() == 0 {
        Seq::empty()
    } else if kept.last().len() > 0 {
        strip_all(kept.drop_last()).push(kept.last())
    } else {
        strip_all(kept.drop_last())
    }
}

/// The diff stats, read back line by line, are the first 500 lines of the
/// output in their order (as `rejoined_lines` states): at most 500 of them,
/// and exactly those lines wherever none of them ends in a carriage return
/// and the last of them is not empty.
pub proof fn lemma_diff_stats_lines(stdout: Seq<char>)
    ensures
        lines_spec(join_spec(kept_stat_lines(stdout), "\n"@)) == rejoined_lines(
            kept_stat_lines(stdout),
        ),
        lines_spec(join_spec(kept_stat_lines(stdout), "\n"@)).len() <= MAX_DIFF_STAT_LINES,
        (forall|k: int|
            0 <= k < kept_stat_lines(stdout).len() ==> !(#[trigger] kept_stat_lines(stdout)[k].len()
                > 0 && kept_stat_lines(stdout)[k].last() == '\r')) && (kept_stat_lines(stdout).len()
            == 0 || kept_stat_lines(stdout).last().len() > 0) ==> lines_spec(
            join_spec(kept_stat_lines(stdout), "\n"@),
        ) == kept_stat_lines(stdout),
{
    reveal_strlit("\n");
    assert("\n"@ =~= seq!['\n']);
    let kept = kept_stat_lines(stdout);
    let ls = lines_spec(stdout);
    lemma_lines_clean(stdout);
    let j = join_spec(kept, seq!['\n']);
    if kept.len() == 0 {
        assert(j == Seq::<char>::empty());
        assert(split_where(j, is_char('\n')) == seq![Seq::<char>::empty()]);
        assert(strip_all(Seq::<Seq<char>>::empty()) =~= Seq::<Seq<char>>::empty());
        assert(seq![Seq::<char>::empty()].drop_last() =~= Seq::<Seq<char>>::empty());
        assert(lines_spec(j) =~= kept);
    } else {
        assert forall|k: int, i: int| 0 <= k < kept.len() && 0 <= i < kept[k].len() implies #[trigger] kept[k][i]
            != '\n' by {
            assert(kept[k] == ls[k]);
        }
        lemma_split_join(kept, '\n');
        assert(split_where(j, is_char('\n')) == kept);
        let body = strip_all(kept.drop_last());
        assert(lines_spec(j) == rejoined_lines(kept));
        if (forall|k: int|
            0 <= k < kept.len() ==> !(#[trigger] kept[k].len() > 0 && kept[k].last() == '\r'))
            && kept.last().len() > 0 {
            assert forall|k: int| 0 <= k < body.len() implies #[trigger] body[k] == kept[k] by {
                assert(body[k] == strip_cr(kept.drop_last()[k]));
                assert(kept.drop_last()[k] == kept[k]);
            }
            assert(lines_spec(j) =~= kept);
        }
    }
}

/// The most author names suggested when a filter matches nothing.
pub const MAX_RECENT_AUTHORS: usize = 5;

/// The lines of a text, trimmed, without the empty ones.
pub open spec fn trimmed_lines(s: Seq<char>) -> Seq<Seq<char>> {
    lines_spec(s).map_values(|x: Seq<char>| trim_spec(x)).filter(|x: Seq<char>| x.len() > 0)
}

/// The author names of a `git log --pretty=format:%an` run: the distinct
/// non-empty trimmed lines in sorted order, at most five; none when it failed.
pub open spec fn recent_authors_ok(success: bool, stdout: Seq<char>, names: Seq<Seq<char>>) -> bool {
    if success {
        exists|all: Seq<Seq<char>>|
            sorted_distinct_of(all, trimmed_lines(stdout)) && names == all.take(
                if all.len() < MAX_RECENT_AUTHORS {
                    all.len() as int
                } else {
                    MAX_RECENT_AUTHORS as int
                },
            )
    } else {
        names.len() == 0
    }
}

/// The recent author names from `git log` output.
pub fn recent_authors_from_output(success: bool, stdout: &str) -> (names: Vec<String>)
    ensures
        recent_authors_ok(success, stdout@, sviews(names@)),
{
    if !success {
        return Vec::new();
    }
    let v = chars_of(stdout);
    let ls = lines_chars(v.as_slice());
    let ghost lv = vviews(ls@);
    let ghost tr = lv.map_values(|x: Seq<char>| trim_spec(x));
    let ghost pred = |x: Seq<char>| x.len() > 0;
    let mut kept: Vec<Vec<char>> = Vec::new();
    let mut i: usize = 0;
    proof {
        reveal_with_fuel(Seq::filter, 1);
        assert(tr.take(0) =~= Seq::<Seq<char>>::empty());
    }
    while i < ls.len()
        invariant
            i <= ls@.len(),
            lv == vviews(ls@),
            tr == lv.map_values(|x: Seq<char>| trim_spec(x)),
            pred == (|x: Seq<char>| x.len() > 0),
            vviews(kept@) == tr.take(i as int).filter(pred),
        decreases ls.len() - i,
    {
        let line = string_of(ls[i].as_slice());
        let t = trim(line.as_str());
        let tv = chars_of(t.as_str());
        proof {
            reveal_with_fuel(Seq::filter, 1);
            assert(tr.take(i + 1).drop_last() =~= tr.take(i as int));
            assert(tr.take(i + 1).last() == tv@);
        }
        if tv.len() > 0 {
            kept.push(tv);
            assert(vviews(kept@) =~= tr.take(i as int).filter(pred).push(tr[i as int]));
        }
        i += 1;
    }
    assert(tr.take(ls@.len() as int) =~= tr);
    let keys = sorted_distinct(&kept);
    let count = if keys.len() < MAX_RECENT_AUTHORS {
        keys.len()
    } else {
        MAX_RECENT_AUTHORS
    };
    let mut names: Vec<String> = Vec::new();
    let mut j: usize = 0;
    while j < count
        invariant
            count <= keys@.len(),
            j <= count,
            names@.len() == j,
            sviews(names@) == vviews(keys@).take(j as int),
        decreases count - j,
    {
        let ghost before = names@;
        names.push(string_of(keys[j].as_slice()));
        assert forall|k: int| 0 <= k < j + 1 implies sviews(names@)[k] == vviews(keys@).take(
            j + 1,
        )[k] by {
            if k < j {
                assert(names@[k] == before[k]);
                assert(sviews(before)[k] == vviews(keys@).take(j as int)[k]);
            }
        }
        assert(sviews(names@) =~= vviews(keys@).take(j + 1));
        j += 1;
    }
    assert(sorted_distinct_of(vviews(keys@), trimmed_lines(stdout@)));
    names
}

/// The value of `git config <key>`: its output trimmed, when the command
/// succeeded and that is not empty.
pub open spec fn config_value_spec(success: bool, stdout: Seq<char>) -> Option<Seq<char>> {
    if success && trim_spec(stdout).len() > 0 {
        Some(trim_spec(stdout))
    } else {
        None
    }
}

/// The value of a `git config` lookup.
pub fn config_value(success: bool, stdout: &str) -> (r: Option<String>)
    ensures
        match r {
            Some(v) => config_value_spec(success, stdout@) == Some(v@),
            None => config_value_spec(success, stdout@) is None,
        },
{
    if !success {
        return None;
    }
    let value = trim(stdout);
    if value.as_str().is_empty() {
        None
    } else {
        Some(value)
    }
}

/// The label of the current project: the last component of the top-level
/// directory that `git rev-parse --show-toplevel` printed, or `project`.
pub open spec fn project_label_spec(toplevel: Option<Seq<char>>) -> Seq<char> {
    match toplevel {
        Some(out) => if trim_spec(out).len() > 0 {
            match file_name_spec(trim_spec(out)) {
                Some(n) => n,
                None => "project"@,
            }
        } else {
            "project"@
        },
        None => "project"@,
    }
}

/// The project label from the (UTF-8) output of a successful
/// `git rev-parse --show-toplevel`, or from its absence.
pub fn project_label(toplevel: Option<&str>) -> (label: String)
    ensures
        label@ == project_label_spec(opt_view(toplevel)),
{
    match toplevel {
        None => owned("project"),
        Some(out) => {
            let top = trim(out);
            if top.as_str().is_empty() {
                owned("project")
            } else {
                match file_name(top.as_str()) {
                    Some(n) => n,
                    None => owned("project"),
                }
            }
        },
    }
}

} // verus!
