//! The download auditor: recovering origin URLs from a file's
//! metadata, picking the first one that passes the age cutoff and the
//! domain filter, and ordering the results by file name.

use vstd::prelude::*;
use crate::domain::{matches_domain, spec_matches_domain};
use crate::strutil::{spec_str_le, str_le, lemma_str_le_total};
use vstd::multiset::Multiset;

verus! {

/// What the property-list decoder yields for given bytes: a list of
/// strings when the bytes decode as one, nothing otherwise. The
/// result is a function of the bytes alone.
pub uninterp spec fn plist_string_list(b: Seq<u8>) -> Option<Seq<Seq<char>>>;

/// The view of an optional list of strings.
pub open spec fn spec_opt_strings_view(r: Option<Vec<String>>) -> Option<Seq<Seq<char>>> {
    match r {
        Some(v) => Some(v.deep_view()),
        None => None,
    }
}

/// Relies on plist::from_bytes: decodes a property list, of any of
/// the plist encodings, into the list of strings it holds; a pure
/// parse of the bytes.
#[verifier::external_body]
fn parse_plist_strings(bytes: &Vec<u8>) -> (r: Option<Vec<String>>)
    ensures
        spec_opt_strings_view(r) == plist_string_list(bytes@),
{
    plist::from_bytes::<Vec<String>>(bytes.as_slice()).ok()
}

/// What URL parsing yields for a given string: nothing when the
/// string is not a URL; otherwise its domain-name host, when it has
/// one. The result is a function of the string alone.
pub uninterp spec fn url_host_of(s: Seq<char>) -> Option<Option<Seq<char>>>;

/// The view of the layered optional host string.
pub open spec fn spec_opt_host_view(r: Option<Option<String>>) -> Option<Option<Seq<char>>> {
    match r {
        Some(Some(h)) => Some(Some(h@)),
        Some(None) => Some(None),
        None => None,
    }
}

/// Relies on url::Url::parse and url::Url::domain: whether a string
/// parses as a URL, and the domain-name host of the parsed URL (none
/// for a host that is an address, or no host at all).
#[verifier::external_body]
fn url_domain(s: &str) -> (r: Option<Option<String>>)
    ensures
        spec_opt_host_view(r) == url_host_of(s@),
{
    match url::Url::parse(s) {
        Ok(u) => Some(u.domain().map(|d| d.to_string())),
        Err(_) => None,
    }
}

/// Some pattern of the filter matches the host.
pub open spec fn spec_matches_any(domains: Seq<Seq<char>>, host: Seq<char>) -> bool {
    exists|k: int| 0 <= k < domains.len() && spec_matches_domain(#[trigger] domains[k], host)
}

/// Whether any pattern of the filter matches the host.
pub fn host_matches_any(domains: &Vec<String>, host: &str) -> (r: bool)
    ensures
        r == spec_matches_any(domains.deep_view(), host@),
{
    let ghost dv = domains.deep_view();
    let n = domains.len();
    let mut k: usize = 0;
    while k < n
        invariant
            n == domains.len(),
            dv == domains.deep_view(),
            k <= n,
            forall|j: int| 0 <= j < k ==> !spec_matches_domain(#[trigger] dv[j], host@),
        decreases n - k,
    {
        proof {
            assert(dv[k as int] == domains@[k as int]@);
        }
        if matches_domain(domains[k].as_str(), host) {
            return true;
        }
        k = k + 1;
    }
    false
}

/// Whether one candidate origin URL is accepted: the file must pass
/// the age cutoff, the string must parse as a URL, and either no
/// domain filter was given or the URL's domain-name host matches one
/// of its patterns.
pub open spec fn spec_url_accepted(domains: Seq<Seq<char>>, u: Seq<char>, age_ok: bool) -> bool {
    age_ok && match url_host_of(u) {
        None => false,
        Some(h) => domains.len() == 0 || (h is Some && spec_matches_any(domains, h->0)),
    }
}

/// The position of the first accepted candidate URL at or after `i`,
/// or the number of candidates when none is accepted there.
pub open spec fn spec_first_accepted(
    urls: Seq<Seq<char>>,
    domains: Seq<Seq<char>>,
    age_ok: bool,
    i: int,
) -> int
    decreases urls.len() - i,
{
    if i < 0 || i >= urls.len() {
        urls.len() as int
    } else if spec_url_accepted(domains, urls[i], age_ok) {
        i
    } else {
        spec_first_accepted(urls, domains, age_ok, i + 1)
    }
}

/// Picks the first candidate origin URL that the filter accepts.
pub fn select_source(urls: &Vec<String>, domains: &Vec<String>, age_ok: bool) -> (r: Option<
    usize,
>)
    ensures
        r is Some ==> r->0 < urls@.len() && spec_first_accepted(
            urls.deep_view(),
            domains.deep_view(),
            age_ok,
            0,
        ) == r->0,
        r is None ==> spec_first_accepted(urls.deep_view(), domains.deep_view(), age_ok, 0)
            == urls@.len(),
{
    let ghost uv = urls.deep_view();
    let ghost dv = domains.deep_view();
    let n = urls.len();
    let mut i: usize = 0;
    while i < n
        invariant
            n == urls.len(),
            uv == urls.deep_view(),
            dv == domains.deep_view(),
            i <= n,
            spec_first_accepted(uv, dv, age_ok, 0) == spec_first_accepted(uv, dv, age_ok, i as int),
        decreases n - i,
    {
        proof {
            assert(uv[i as int] == urls@[i as int]@);
        }
        let accepted = if !age_ok {
            false
        } else {
            match url_domain(urls[i].as_str()) {
                None => false,
                Some(h) => domains.len() == 0 || (match &h {
                    Some(d) => host_matches_any(domains, d.as_str()),
                    None => false,
                }),
            }
        };
        proof {
            assert(accepted == spec_url_accepted(dv, uv[i as int], age_ok));
        }
        if accepted {
            return Some(i);
        }
        i = i + 1;
    }
    None
}

/// A file of the scanned directory, as the caller hands it in: its
/// name (the final path component), its full path, whether it passes
/// the optional age cutoff, and the raw origin metadata when it could
/// be read.
pub struct DownloadEntry {
    pub name: String,
    pub path: String,
    pub age_ok: bool,
    pub origin_data: Option<Vec<u8>>,
}

/// A matched download: the file together with the first origin URL
/// that the filter accepted.
pub struct DownloadRecord {
    pub name: String,
    pub path: String,
    pub source: String,
}

/// The view of optional raw bytes.
pub open spec fn spec_opt_bytes_view(d: Option<Vec<u8>>) -> Option<Seq<u8>> {
    match d {
        Some(b) => Some(b@),
        None => None,
    }
}

/// The model of a record: name, path and source.
pub open spec fn spec_record_model(r: DownloadRecord) -> (Seq<char>, Seq<char>, Seq<char>) {
    (r.name@, r.path@, r.source@)
}

/// The model of a list of records.
pub open spec fn spec_records_model(rs: Seq<DownloadRecord>) -> Seq<
    (Seq<char>, Seq<char>, Seq<char>),
> {
    rs.map_values(|r: DownloadRecord| spec_record_model(r))
}

/// The source a file contributes: the first accepted origin URL of
/// its decoded metadata, if the metadata was readable, decodes as a
/// string list, and some candidate is accepted.
pub open spec fn spec_audit_source(
    data: Option<Seq<u8>>,
    domains: Seq<Seq<char>>,
    age_ok: bool,
) -> Option<Seq<char>> {
    match data {
        None => None,
        Some(b) => match plist_string_list(b) {
            None => None,
            Some(urls) => {
                let i = spec_first_accepted(urls, domains, age_ok, 0);
                if i < urls.len() {
                    Some(urls[i])
                } else {
                    None
                }
            },
        },
    }
}

/// The records of all matched files, in directory order: one per
/// entry that contributes a source.
pub open spec fn spec_audit_records(es: Seq<DownloadEntry>, domains: Seq<Seq<char>>) -> Seq<
    (Seq<char>, Seq<char>, Seq<char>),
>
    decreases es.len(),
{
    if es.len() == 0 {
        Seq::empty()
    } else {
        let front = spec_audit_records(es.drop_last(), domains);
        let e = es.last();
        match spec_audit_source(spec_opt_bytes_view(e.origin_data), domains, e.age_ok) {
            Some(src) => front.push((e.name@, e.path@, src)),
            None => front,
        }
    }
}

/// Decides what a single file contributes: the first origin URL of
/// its metadata that the filter accepts, or nothing when the metadata
/// is unreadable, does not decode, or no candidate passes.
pub fn audit_entry(entry: &DownloadEntry, domains: &Vec<String>) -> (r: Option<String>)
    ensures
        (match r {
            Some(s) => Some(s@),
            None => None::<Seq<char>>,
        }) == spec_audit_source(
            spec_opt_bytes_view(entry.origin_data),
            domains.deep_view(),
            entry.age_ok,
        ),
{
    let data = match &entry.origin_data {
        Some(d) => d,
        None => {
            return None;
        },
    };
    let urls = match parse_plist_strings(data) {
        Some(u) => u,
        None => {
            return None;
        },
    };
    match select_source(&urls, domains, entry.age_ok) {
        Some(i) => {
            proof {
                assert(urls.deep_view()[i as int] == urls@[i as int]@);
            }
            Some(urls[i].clone())
        },
        None => None,
    }
}

/// Multiset inserting in the middle adds the element, as pushing at
/// the end does.
proof fn lemma_insert_to_multiset<A>(s: Seq<A>, k: int, v: A)
    requires
        0 <= k <= s.len(),
    ensures
        s.insert(k, v).to_multiset() == s.to_multiset().insert(v),
{
    broadcast use vstd::seq_lib::group_to_multiset_ensures;
    broadcast use vstd::multiset::group_multiset_axioms;

    let left = s.take(k);
    let right = s.skip(k);
    assert(s.insert(k, v) =~= left.push(v) + right);
    assert(s =~= left + right);
    vstd::seq_lib::lemma_multiset_commutative(left.push(v), right);
    vstd::seq_lib::lemma_multiset_commutative(left, right);
    assert(left.push(v).to_multiset() =~= left.to_multiset().insert(v));
    assert(left.to_multiset().insert(v).add(right.to_multiset()) =~= left.to_multiset().add(
        right.to_multiset(),
    ).insert(v));
}

/// Sorts the records by file name, keeping exactly the same records.
pub fn sort_records(records: Vec<DownloadRecord>) -> (r: Vec<DownloadRecord>)
    ensures
        spec_records_model(r@).to_multiset() == spec_records_model(records@).to_multiset(),
        forall|i: int| 0 <= i && i + 1 < r@.len() ==> spec_str_le(
            #[trigger] r@[i].name@,
            r@[i + 1].name@,
        ),
{
    broadcast use vstd::seq_lib::group_to_multiset_ensures;
    broadcast use vstd::multiset::group_multiset_axioms;

    let ghost whole = spec_records_model(records@).to_multiset();
    let mut rest = records;
    let mut out: Vec<DownloadRecord> = Vec::new();
    proof {
        assert(spec_records_model(out@).to_multiset().add(
            spec_records_model(rest@).to_multiset(),
        ) =~= spec_records_model(rest@).to_multiset());
    }
    while rest.len() > 0
        invariant
            whole == spec_records_model(records@).to_multiset(),
            spec_records_model(out@).to_multiset().add(spec_records_model(rest@).to_multiset())
                == whole,
            forall|i: int| 0 <= i && i + 1 < out@.len() ==> spec_str_le(
                #[trigger] out@[i].name@,
                out@[i + 1].name@,
            ),
        decreases rest@.len(),
    {
        broadcast use vstd::seq_lib::group_to_multiset_ensures;
        broadcast use vstd::multiset::group_multiset_axioms;

        let ghost old_rest = rest@;
        let ghost old_out = out@;
        let rec = rest.remove(0);
        proof {
            let mo = spec_records_model(old_rest);
            assert(spec_records_model(rest@) =~= mo.remove(0));
            assert(mo.remove(0).to_multiset() =~= mo.to_multiset().remove(mo[0]));
            assert(mo[0] == spec_record_model(rec));
            assert(mo.contains(mo[0]));
            assert(mo.to_multiset().count(mo[0]) > 0);
        }
        let n = out.len();
        let mut k: usize = 0;
        while k < n && str_le(out[k].name.as_str(), rec.name.as_str())
            invariant
                n == out@.len(),
                k <= n,
                out@ == old_out,
                forall|j: int| 0 <= j < k ==> spec_str_le(#[trigger] out@[j].name@, rec.name@),
            decreases n - k,
        {
            k = k + 1;
        }
        proof {
            if k < n {
                lemma_str_le_total(out@[k as int].name@, rec.name@);
            }
            lemma_insert_to_multiset(spec_records_model(old_out), k as int,
                spec_record_model(rec));
        }
        out.insert(k, rec);
        proof {
            assert(spec_records_model(out@) =~= spec_records_model(old_out).insert(
                k as int,
                spec_record_model(rec),
            ));
            let a = spec_records_model(old_out).to_multiset();
            let b = spec_records_model(old_rest).to_multiset();
            let m = spec_record_model(rec);
            assert(a.insert(m).add(b.remove(m)) =~= a.add(b));
            assert(spec_records_model(out@).to_multiset().add(
                spec_records_model(rest@).to_multiset(),
            ) =~= whole);
            assert forall|i: int| 0 <= i && i + 1 < out@.len() implies spec_str_le(
                #[trigger] out@[i].name@,
                out@[i + 1].name@,
            ) by {
                if i + 1 < k {
                    assert(out@[i] == old_out[i] && out@[i + 1] == old_out[i + 1]);
                } else if i + 1 == k {
                    assert(out@[i] == old_out[i]);
                    assert(out@[i + 1] == rec);
                } else if i == k {
                    assert(out@[i] == rec);
                    assert(out@[i + 1] == old_out[i]);
                } else {
                    assert(out@[i] == old_out[i - 1] && out@[i + 1] == old_out[i]);
                }
            }
        }
    }
    proof {
        assert(spec_records_model(rest@).to_multiset().len() == 0);
        assert(spec_records_model(rest@).to_multiset() =~= Multiset::empty());
        assert(spec_records_model(out@).to_multiset().add(Multiset::<(
            Seq<char>,
            Seq<char>,
            Seq<char>,
        )>::empty()) =~= spec_records_model(out@).to_multiset());
    }
    out
}

/// Scans the handed-in directory entries: every file whose metadata
/// yields an accepted origin URL becomes a record, and the records
/// come back ordered by file name.
pub fn find_downloads(entries: &Vec<DownloadEntry>, domains: &Vec<String>) -> (r: Vec<
    DownloadRecord,
>)
    ensures
        spec_records_model(r@).to_multiset() == spec_audit_records(
            entries@,
            domains.deep_view(),
        ).to_multiset(),
        forall|i: int| 0 <= i && i + 1 < r@.len() ==> spec_str_le(
            #[trigger] r@[i].name@,
            r@[i + 1].name@,
        ),
{
    broadcast use vstd::seq_lib::group_to_multiset_ensures;

    let ghost dv = domains.deep_view();
    let mut picked: Vec<DownloadRecord> = Vec::new();
    let n = entries.len();
    let mut i: usize = 0;
    while i < n
        invariant
            n == entries.len(),
            dv == domains.deep_view(),
            i <= n,
            spec_records_model(picked@) == spec_audit_records(entries@.take(i as int), dv),
        decreases n - i,
    {
        proof {
            assert(entries@.take(i + 1).drop_last() =~= entries@.take(i as int));
            assert(entries@.take(i + 1).last() == entries@[i as int]);
        }
        let ghost old_model = spec_records_model(picked@);
        if let Some(source) = audit_entry(&entries[i], domains) {
            picked.push(DownloadRecord {
                name: entries[i].name.clone(),
                path: entries[i].path.clone(),
                source,
            });
            proof {
                assert(spec_records_model(picked@) =~= old_model.push((
                    entries@[i as int].name@,
                    entries@[i as int].path@,
                    picked@.last().source@,
                )));
            }
        }
        i = i + 1;
    }
    proof {
        assert(entries@.take(n as int) =~= entries@);
    }
    sort_records(picked)
}

} // verus!
