//! Mounted managed volumes: reading the registry out of marker files,
//! picking the mount point out of the disk-image tool's attach output,
//! and selecting which volumes an eject request applies to.

use vstd::prelude::*;
use crate::expiry::is_expired;
use crate::marker::{spec_all_digits, spec_digits_val, parse_expiry};
use crate::strutil::{
    spec_contains, spec_find, spec_lines, str_contains, str_eq, find_char, split_lines,
    lemma_find_at,
};

verus! {

/// A mounted volume that carries an expiry marker.
pub struct Volume {
    /// The filesystem path where the volume is mounted.
    pub mount_point: String,
    /// The instant (seconds since the epoch) until which it is good.
    pub expiry: u64,
}

/// A mount point reported by the disk-image backend, together with the
/// content of its expiry marker file, when one could be read.
pub struct MarkerEntry {
    pub mount_point: String,
    pub marker: Option<String>,
}

/// The expiry instant a marker file content denotes: defined exactly
/// when the content is a non-empty string of decimal digits whose
/// value fits in an unsigned 64-bit count of seconds.
pub open spec fn spec_marker_value(m: Option<Seq<char>>) -> Option<u64> {
    match m {
        Some(s) => if s.len() > 0 && spec_all_digits(s) && spec_digits_val(s) <= u64::MAX {
            Some(spec_digits_val(s) as u64)
        } else {
            None
        },
        None => None,
    }
}

/// The view of an optional string.
pub open spec fn spec_opt_view(m: Option<String>) -> Option<Seq<char>> {
    match m {
        Some(s) => Some(s@),
        None => None,
    }
}

/// The model of a list of volumes: mount path and expiry pairs.
pub open spec fn spec_volumes(vs: Seq<Volume>) -> Seq<(Seq<char>, u64)> {
    vs.map_values(|v: Volume| (v.mount_point@, v.expiry))
}

/// The managed volumes among a list of reported mount points: those
/// whose marker file content parses, each paired with its expiry, in
/// the order reported.
pub open spec fn spec_registry(es: Seq<MarkerEntry>) -> Seq<(Seq<char>, u64)>
    decreases es.len(),
{
    if es.len() == 0 {
        Seq::empty()
    } else {
        let front = spec_registry(es.drop_last());
        match spec_marker_value(spec_opt_view(es.last().marker)) {
            Some(v) => front.push((es.last().mount_point@, v)),
            None => front,
        }
    }
}

/// Filters the reported mount points down to the managed volumes: an
/// entry is kept exactly when its marker content parses as an expiry
/// instant; entries with no or an unreadable marker are dropped.
pub fn registry_from_markers(entries: &Vec<MarkerEntry>) -> (r: Vec<Volume>)
    ensures
        spec_volumes(r@) == spec_registry(entries@),
{
    let mut out: Vec<Volume> = Vec::new();
    let n = entries.len();
    let mut i: usize = 0;
    while i < n
        invariant
            n == entries.len(),
            i <= n,
            spec_volumes(out@) == spec_registry(entries@.take(i as int)),
        decreases n - i,
    {
        proof {
            assert(entries@.take(i + 1).drop_last() =~= entries@.take(i as int));
            assert(entries@.take(i + 1).last() == entries@[i as int]);
        }
        let ghost old_out = spec_volumes(out@);
        let parsed = match &entries[i].marker {
            Some(m) => parse_expiry(m.as_str()),
            None => None,
        };
        if let Some(expiry) = parsed {
            out.push(Volume { mount_point: entries[i].mount_point.clone(), expiry });
            proof {
                assert(spec_volumes(out@) =~= old_out.push((
                    entries@[i as int].mount_point@,
                    expiry,
                )));
            }
        }
        i = i + 1;
    }
    proof {
        assert(entries@.take(n as int) =~= entries@);
    }
    out
}

/// The part of an attach-output line after its second tab character,
/// when the line has at least two tabs.
pub open spec fn spec_third_tab_field(l: Seq<char>) -> Option<Seq<char>> {
    let t1 = spec_find(l, '\t', 0);
    let t2 = spec_find(l, '\t', t1 + 1);
    if t2 < l.len() {
        Some(l.subrange(t2 + 1, l.len() as int))
    } else {
        None
    }
}

/// The index of the first line that mentions the mounted-filesystem
/// marker, or the number of lines when none does.
pub open spec fn spec_first_hfs_line(ls: Seq<Seq<char>>, i: int) -> int
    decreases ls.len() - i,
{
    if i < 0 || i >= ls.len() {
        ls.len() as int
    } else if spec_contains(ls[i], "\tApple_HFS"@) {
        i
    } else {
        spec_first_hfs_line(ls, i + 1)
    }
}

/// The mount point named by the disk-image tool's attach output: the
/// text after the second tab of the first line that mentions the
/// mounted-filesystem marker; nothing when no line mentions it or
/// that line has fewer than two tabs.
pub open spec fn spec_mount_point(out: Seq<char>) -> Option<Seq<char>> {
    let ls = spec_lines(out);
    let i = spec_first_hfs_line(ls, 0);
    if i < ls.len() {
        spec_third_tab_field(ls[i])
    } else {
        None
    }
}

/// Reads the mount point out of the disk-image tool's attach output.
pub fn parse_mount_output(output: &str) -> (r: Option<String>)
    ensures
        r is Some <==> spec_mount_point(output@) is Some,
        r is Some ==> Some(r->0@) == spec_mount_point(output@),
{
    let lines = split_lines(output);
    let ghost ls = spec_lines(output@);
    let n = lines.len();
    let mut i: usize = 0;
    while i < n
        invariant
            n == lines.len(),
            ls == spec_lines(output@),
            lines.deep_view() == ls,
            i <= n,
            spec_first_hfs_line(ls, 0) == spec_first_hfs_line(ls, i as int),
        decreases n - i,
    {
        proof {
            assert(lines[i as int]@ == ls[i as int]);
        }
        if str_contains(&lines[i], "\tApple_HFS") {
            let line = &lines[i];
            let len = line.as_str().unicode_len();
            proof {
                assert(ls.len() == lines@.len());
                assert(line@ == ls[i as int]);
                assert(spec_contains(ls[i as int], "\tApple_HFS"@));
                assert(spec_first_hfs_line(ls, i as int) == i);
                assert(spec_mount_point(output@) == spec_third_tab_field(ls[i as int]));
                reveal_strlit("\tApple_HFS");
                let w = choose|w: int| 0 <= w && w + "\tApple_HFS"@.len() <= line@.len()
                    && #[trigger] line@.subrange(w, w + "\tApple_HFS"@.len()) == "\tApple_HFS"@;
                assert(line@.subrange(w, w + 10)[0] == line@[w]);
                assert(line@[w] == '\t');
            }
            let t1 = match find_char(line.as_str(), 0, '\t') {
                Some(t) => t,
                None => {
                    proof {
                        assert(false);
                    }
                    return None;
                },
            };
            proof {
                lemma_find_at(line@, '\t', 0, t1 as int);
            }
            match find_char(line.as_str(), t1 + 1, '\t') {
                Some(t2) => {
                    proof {
                        lemma_find_at(line@, '\t', t1 + 1, t2 as int);
                    }
                    let field = line.as_str().substring_char(t2 + 1, len);
                    proof {
                        assert(field@ =~= line@.subrange(t2 + 1, line@.len() as int));
                    }
                    return Some(field.to_owned());
                },
                None => {
                    proof {
                        lemma_find_at(line@, '\t', t1 + 1, line@.len() as int);
                    }
                    return None;
                },
            }
        }
        i = i + 1;
    }
    proof {
        assert(spec_first_hfs_line(ls, n as int) == n);
    }
    None
}

/// Whether one volume falls under an eject request: it is ejected
/// when expired volumes were asked for and it has expired, when all
/// volumes were asked for, or when its canonical path equals the
/// canonical form of an explicitly requested path.
pub open spec fn spec_eject_selected(
    v: Volume,
    canon: Option<Seq<char>>,
    now: u64,
    all: bool,
    expired: bool,
    target: Option<Seq<char>>,
) -> bool {
    (expired && v.expiry < now) || all || (target is Some && canon is Some
        && canon->0 == target->0)
}

/// The indices of the volumes an eject request selects, in order.
pub open spec fn spec_eject_indices(
    vs: Seq<Volume>,
    cs: Seq<Option<String>>,
    now: u64,
    all: bool,
    expired: bool,
    target: Option<Seq<char>>,
) -> Seq<int>
    decreases vs.len(),
{
    if vs.len() == 0 {
        Seq::empty()
    } else {
        let front = spec_eject_indices(vs.drop_last(), cs.drop_last(), now, all, expired, target);
        if spec_eject_selected(
            vs.last(),
            spec_opt_view(cs.last()),
            now,
            all,
            expired,
            target,
        ) {
            front.push(vs.len() - 1)
        } else {
            front
        }
    }
}

/// Whether some volume's canonical path equals the requested one.
pub open spec fn spec_path_found(cs: Seq<Option<String>>, target: Option<Seq<char>>) -> bool {
    exists|i: int| 0 <= i < cs.len() && target is Some && #[trigger] cs[i] is Some
        && cs[i]->0@ == target->0
}

/// The outcome of applying an eject request to the volume list.
pub struct EjectSelection {
    /// Positions of the volumes to eject, in listed order.
    pub indices: Vec<usize>,
    /// Whether an explicitly requested path matched some volume; when
    /// a path was requested and this is false, the request fails with
    /// a not-mounted error.
    pub path_found: bool,
}

/// Applies an eject request to the volumes. `canon` holds, for each
/// volume, the canonical form of its mount path when one could be
/// computed, and `target` the canonical form of an explicitly
/// requested path. A volume is selected when it matches any requested
/// criterion; the request as a whole fails (for the caller to report)
/// exactly when a path was requested and matched nothing.
pub fn select_ejects(
    vols: &Vec<Volume>,
    canon: &Vec<Option<String>>,
    now: u64,
    all: bool,
    expired: bool,
    target: &Option<String>,
) -> (r: EjectSelection)
    requires
        canon@.len() == vols@.len(),
    ensures
        r.indices@.map_values(|u: usize| u as int) == spec_eject_indices(
            vols@,
            canon@,
            now,
            all,
            expired,
            spec_opt_view(*target),
        ),
        r.path_found == spec_path_found(canon@, spec_opt_view(*target)),
{
    let ghost tgt = spec_opt_view(*target);
    let mut indices: Vec<usize> = Vec::new();
    let mut path_found = false;
    let n = vols.len();
    let mut i: usize = 0;
    while i < n
        invariant
            n == vols@.len(),
            canon@.len() == vols@.len(),
            tgt == spec_opt_view(*target),
            i <= n,
            indices@.map_values(|u: usize| u as int) == spec_eject_indices(
                vols@.take(i as int),
                canon@.take(i as int),
                now,
                all,
                expired,
                tgt,
            ),
            path_found == spec_path_found(canon@.take(i as int), tgt),
        decreases n - i,
    {
        proof {
            assert(vols@.take(i + 1).drop_last() =~= vols@.take(i as int));
            assert(canon@.take(i + 1).drop_last() =~= canon@.take(i as int));
            assert(vols@.take(i + 1).last() == vols@[i as int]);
            assert(canon@.take(i + 1).last() == canon@[i as int]);
        }
        let is_match = match (target, &canon[i]) {
            (Some(t), Some(c)) => str_eq(c.as_str(), t.as_str()),
            _ => false,
        };
        let expired_now = is_expired(vols[i].expiry, now);
        let selected = (expired && expired_now) || all || is_match;
        let ghost old_indices = indices@.map_values(|u: usize| u as int);
        if selected {
            indices.push(i);
            proof {
                assert(indices@.map_values(|u: usize| u as int) =~= old_indices.push(i as int));
            }
        }
        if is_match {
            path_found = true;
        }
        proof {
            if spec_path_found(canon@.take(i as int), tgt) {
                let w = choose|w: int| 0 <= w < canon@.take(i as int).len() && tgt is Some
                    && #[trigger] canon@.take(i as int)[w] is Some
                    && canon@.take(i as int)[w]->0@ == tgt->0;
                assert(canon@.take(i + 1)[w] == canon@.take(i as int)[w]);
            }
            if spec_path_found(canon@.take(i + 1), tgt) && !spec_path_found(
                canon@.take(i as int),
                tgt,
            ) && !is_match {
                let w = choose|w: int| 0 <= w < canon@.take(i + 1).len() && tgt is Some
                    && #[trigger] canon@.take(i + 1)[w] is Some
                    && canon@.take(i + 1)[w]->0@ == tgt->0;
                assert(w == i);
                assert(false);
            }
        }
        i = i + 1;
    }
    proof {
        assert(vols@.take(n as int) =~= vols@);
        assert(canon@.take(n as int) =~= canon@);
    }
    EjectSelection { indices, path_found }
}

} // verus!
