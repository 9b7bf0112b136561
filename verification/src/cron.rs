//! Rewriting the scheduled-task file.
//!
//! The schedule is a list of lines. One managed line — recognised by
//! its trailing maintenance command — is appended when installing (at
//! most once) and removed when uninstalling; every other line passes
//! through unchanged and in order.

use vstd::prelude::*;
use crate::strutil::{str_ends_with, spec_ends_with, spec_is_ws, spec_trim, trim_str,
    lemma_trim_start_skip, lemma_trim_end_take, spec_lines, split_lines};

verus! {

/// A line is the managed one when, after trimming white space at both
/// ends, it ends with the maintenance command.
pub open spec fn spec_is_managed(line: Seq<char>, cmd: Seq<char>) -> bool {
    spec_ends_with(spec_trim(line), cmd)
}

/// Whether `line` is the managed schedule line for `cmd`.
pub fn line_is_managed(line: &str, cmd: &str) -> (r: bool)
    ensures
        r == spec_is_managed(line@, cmd@),
{
    let trimmed = trim_str(line);
    str_ends_with(trimmed, cmd)
}

/// The fixed hourly trigger that precedes the command in the managed
/// line: minute zero of every hour.
pub open spec fn spec_hourly_prefix() -> Seq<char> {
    seq!['0', ' ', '*', ' ', '*', ' ', '*', ' ', '*', ' ']
}

/// The managed schedule line for `cmd`.
pub open spec fn spec_cron_entry(cmd: Seq<char>) -> Seq<char> {
    spec_hourly_prefix() + cmd
}

/// Builds the managed schedule line for `cmd`.
pub fn cron_entry(cmd: &str) -> (r: String)
    ensures
        r@ == spec_cron_entry(cmd@),
{
    proof {
        reveal_strlit("0 * * * * ");
    }
    let mut e = String::from_str("0 * * * * ");
    proof {
        assert(e@ =~= spec_hourly_prefix());
    }
    e.append(cmd);
    e
}

/// Some line of the schedule is the managed one.
pub open spec fn spec_has_managed(ls: Seq<Seq<char>>, cmd: Seq<char>) -> bool {
    exists|i: int| 0 <= i < ls.len() && spec_is_managed(#[trigger] ls[i], cmd)
}

/// The schedule after installing: unchanged when the managed line is
/// already present, otherwise with it appended.
pub open spec fn spec_install(ls: Seq<Seq<char>>, cmd: Seq<char>) -> Seq<Seq<char>> {
    if spec_has_managed(ls, cmd) {
        ls
    } else {
        ls.push(spec_cron_entry(cmd))
    }
}

/// The schedule after uninstalling: every managed line removed, all
/// other lines kept verbatim and in order.
pub open spec fn spec_uninstall(ls: Seq<Seq<char>>, cmd: Seq<char>) -> Seq<Seq<char>> {
    ls.filter(|l: Seq<char>| !spec_is_managed(l, cmd))
}

/// Rewrites the schedule: when `install` is set the managed line for
/// `cmd` is appended unless one is already present; otherwise every
/// managed line is dropped. Unrelated lines pass through unchanged.
pub fn rewrite_schedule(lines: &Vec<String>, cmd: &str, install: bool) -> (r: Vec<String>)
    ensures
        install ==> r.deep_view() == spec_install(lines.deep_view(), cmd@),
        !install ==> r.deep_view() == spec_uninstall(lines.deep_view(), cmd@),
{
    let ghost all = lines.deep_view();
    let ghost pred = |l: Seq<char>| !spec_is_managed(l, cmd@);
    let mut out: Vec<String> = Vec::new();
    let mut found = false;
    let n = lines.len();
    let mut i: usize = 0;
    while i < n
        invariant
            n == lines.len(),
            all == lines.deep_view(),
            pred == (|l: Seq<char>| !spec_is_managed(l, cmd@)),
            i <= n,
            found == spec_has_managed(all.take(i as int), cmd@),
            install ==> out.deep_view() == all.take(i as int),
            !install ==> out.deep_view() == all.take(i as int).filter(pred),
        decreases n - i,
    {
        proof {
            reveal(Seq::filter);
            assert(all.take(i + 1).drop_last() =~= all.take(i as int));
            assert(all.take(i + 1).last() == all[i as int]);
            assert(all[i as int] == lines[i as int]@);
        }
        let managed = line_is_managed(&lines[i], cmd);
        let ghost old_out = out.deep_view();
        if managed {
            found = true;
            if install {
                out.push(lines[i].clone());
                proof {
                    assert(out.deep_view() =~= old_out.push(all[i as int]));
                }
            } else {
                proof {
                    assert(all.take(i + 1).filter(pred) == all.take(i as int).filter(pred));
                }
            }
        } else {
            out.push(lines[i].clone());
            proof {
                assert(out.deep_view() =~= old_out.push(all[i as int]));
                if !install {
                    assert(all.take(i + 1).filter(pred)
                        == all.take(i as int).filter(pred).push(all[i as int]));
                }
            }
        }
        proof {
            if spec_has_managed(all.take(i + 1), cmd@) && !spec_has_managed(
                all.take(i as int),
                cmd@,
            ) {
                let w = choose|w: int| 0 <= w < all.take(i + 1).len()
                    && spec_is_managed(#[trigger] all.take(i + 1)[w], cmd@);
                assert(w == i);
            }
            if spec_has_managed(all.take(i as int), cmd@) {
                let w = choose|w: int| 0 <= w < all.take(i as int).len()
                    && spec_is_managed(#[trigger] all.take(i as int)[w], cmd@);
                assert(all.take(i + 1)[w] == all.take(i as int)[w]);
                assert(spec_has_managed(all.take(i + 1), cmd@));
            }
        }
        i = i + 1;
    }
    proof {
        assert(all.take(n as int) =~= all);
    }
    if install && !found {
        let entry = cron_entry(cmd);
        let ghost old_out = out.deep_view();
        out.push(entry);
        proof {
            assert(out.deep_view() =~= old_out.push(spec_cron_entry(cmd@)));
        }
    }
    out
}

/// The managed line itself satisfies the managed-line test, provided
/// the command is non-empty and does not end in white space.
pub proof fn lemma_entry_is_managed(cmd: Seq<char>)
    requires
        cmd.len() > 0,
        !spec_is_ws(cmd.last()),
    ensures
        spec_is_managed(spec_cron_entry(cmd), cmd),
{
    let e = spec_cron_entry(cmd);
    assert(e[0] == '0');
    assert(!spec_is_ws('0'));
    lemma_trim_start_skip(e, 0);
    assert(e.skip(0) =~= e);
    assert(e.last() == cmd.last());
    lemma_trim_end_take(e, e.len() as int);
    assert(e.take(e.len() as int) =~= e);
    assert(e.subrange(e.len() - cmd.len(), e.len() as int) =~= cmd);
}

/// A schedule with no managed line is left exactly as it is by an
/// uninstall.
pub proof fn lemma_uninstall_when_absent(ls: Seq<Seq<char>>, cmd: Seq<char>)
    requires
        !spec_has_managed(ls, cmd),
    ensures
        spec_uninstall(ls, cmd) == ls,
    decreases ls.len(),
{
    reveal(Seq::filter);
    let pred = |l: Seq<char>| !spec_is_managed(l, cmd);
    if ls.len() > 0 {
        assert forall|i: int| 0 <= i < ls.drop_last().len()
            implies !spec_is_managed(#[trigger] ls.drop_last()[i], cmd) by {
            assert(ls.drop_last()[i] == ls[i]);
        }
        lemma_uninstall_when_absent(ls.drop_last(), cmd);
        assert(pred(ls.last()));
        assert(ls.drop_last() + seq![ls.last()] =~= ls);
    } else {
        assert(ls.filter(pred) =~= ls);
    }
}

/// The managed lines of a schedule: what uninstalling would remove.
pub open spec fn spec_managed_lines(ls: Seq<Seq<char>>, cmd: Seq<char>) -> Seq<Seq<char>> {
    ls.filter(|l: Seq<char>| spec_is_managed(l, cmd))
}

proof fn lemma_no_managed_lines(ls: Seq<Seq<char>>, cmd: Seq<char>)
    requires
        !spec_has_managed(ls, cmd),
    ensures
        spec_managed_lines(ls, cmd).len() == 0,
    decreases ls.len(),
{
    reveal(Seq::filter);
    if ls.len() > 0 {
        assert forall|i: int| 0 <= i < ls.drop_last().len()
            implies !spec_is_managed(#[trigger] ls.drop_last()[i], cmd) by {
            assert(ls.drop_last()[i] == ls[i]);
        }
        lemma_no_managed_lines(ls.drop_last(), cmd);
        assert(!spec_is_managed(ls.last(), cmd));
    }
}

/// Installing into a schedule with no managed line yields exactly one
/// managed line.
pub proof fn lemma_install_adds_one(ls: Seq<Seq<char>>, cmd: Seq<char>)
    requires
        !spec_has_managed(ls, cmd),
        cmd.len() > 0,
        !spec_is_ws(cmd.last()),
    ensures
        spec_managed_lines(spec_install(ls, cmd), cmd).len() == 1,
{
    reveal(Seq::filter);
    lemma_no_managed_lines(ls, cmd);
    lemma_entry_is_managed(cmd);
    let e = spec_cron_entry(cmd);
    let out = ls.push(e);
    assert(out.drop_last() =~= ls);
    assert(out.last() == e);
}

/// Installing is idempotent: a second install changes nothing.
pub proof fn lemma_install_idempotent(ls: Seq<Seq<char>>, cmd: Seq<char>)
    requires
        cmd.len() > 0,
        !spec_is_ws(cmd.last()),
    ensures
        spec_install(spec_install(ls, cmd), cmd) == spec_install(ls, cmd),
{
    if !spec_has_managed(ls, cmd) {
        lemma_entry_is_managed(cmd);
        let out = ls.push(spec_cron_entry(cmd));
        assert(out[ls.len() as int] == spec_cron_entry(cmd));
        assert(spec_has_managed(out, cmd));
    }
}

/// Uninstalling after installing gives the same schedule as
/// uninstalling directly; in particular a schedule that had no managed
/// line comes back unchanged.
pub proof fn lemma_install_then_uninstall(ls: Seq<Seq<char>>, cmd: Seq<char>)
    requires
        cmd.len() > 0,
        !spec_is_ws(cmd.last()),
    ensures
        spec_uninstall(spec_install(ls, cmd), cmd) == spec_uninstall(ls, cmd),
        !spec_has_managed(ls, cmd) ==> spec_uninstall(spec_install(ls, cmd), cmd) == ls,
{
    reveal(Seq::filter);
    let pred = |l: Seq<char>| !spec_is_managed(l, cmd);
    if !spec_has_managed(ls, cmd) {
        lemma_entry_is_managed(cmd);
        let out = ls.push(spec_cron_entry(cmd));
        assert(out.drop_last() =~= ls);
        assert(!pred(out.last()));
        assert(spec_uninstall(out, cmd) == spec_uninstall(ls, cmd));
        lemma_uninstall_when_absent(ls, cmd);
    }
}


/// The maintenance command the managed line runs: the tool itself,
/// ejecting the expired volumes.
pub fn maintenance_command(executable: &str) -> (r: String)
    ensures
        r@ == executable@ + " eject --expired"@,
{
    let mut s = executable.to_owned();
    s.append(" eject --expired");
    s
}

/// The maintenance command is never empty and never ends in white
/// space, whatever the executable path: what the install and
/// uninstall laws ask of a command.
pub proof fn lemma_maintenance_command_wf(executable: Seq<char>)
    ensures
        (executable + " eject --expired"@).len() > 0,
        !spec_is_ws((executable + " eject --expired"@).last()),
{
    reveal_strlit(" eject --expired");
    let cmd = executable + " eject --expired"@;
    assert(cmd.last() == " eject --expired"@[15]);
    assert(" eject --expired"@[15] == 'd');
}

/// The file-level rewrite: splits the schedule into lines, installs
/// or uninstalls the managed line, and joins the result back, one
/// line feed after every line.
pub fn rewrite_schedule_text(content: &str, cmd: &str, install: bool) -> (r: String)
    ensures
        install ==> r@ == spec_join_nl(spec_install(spec_lines(content@), cmd@)),
        !install ==> r@ == spec_join_nl(spec_uninstall(spec_lines(content@), cmd@)),
{
    let lines = split_lines(content);
    let rewritten = rewrite_schedule(&lines, cmd, install);
    join_lines(&rewritten)
}

/// Lines joined back into file text: each line followed by one line
/// feed.
pub open spec fn spec_join_nl(ls: Seq<Seq<char>>) -> Seq<char>
    decreases ls.len(),
{
    if ls.len() == 0 {
        Seq::empty()
    } else {
        spec_join_nl(ls.drop_last()) + ls.last() + seq!['\n']
    }
}

/// Joins lines into file text.
pub fn join_lines(lines: &Vec<String>) -> (r: String)
    ensures
        r@ == spec_join_nl(lines.deep_view()),
{
    let ghost ls = lines.deep_view();
    let mut out = String::new();
    let n = lines.len();
    let mut i: usize = 0;
    proof {
        assert(spec_join_nl(ls.take(0)) =~= Seq::<char>::empty());
    }
    while i < n
        invariant
            n == lines.len(),
            ls == lines.deep_view(),
            i <= n,
            out@ == spec_join_nl(ls.take(i as int)),
        decreases n - i,
    {
        proof {
            reveal_strlit("\n");
            assert(ls.take(i + 1).drop_last() =~= ls.take(i as int));
            assert(ls.take(i + 1).last() == ls[i as int]);
            assert(ls[i as int] == lines@[i as int]@);
        }
        out.append(lines[i].as_str());
        out.append("\n");
        proof {
            assert(out@ =~= spec_join_nl(ls.take(i + 1)));
        }
        i = i + 1;
    }
    proof {
        assert(ls.take(n as int) =~= ls);
    }
    out
}

} // verus!
