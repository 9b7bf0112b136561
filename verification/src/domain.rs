//! Domain pattern matching for the download auditor.
//!
//! A pattern is either a literal host, matched exactly, or a wildcard
//! form `*.domain` which matches the domain itself and every subdomain
//! of it. Comparison is case-sensitive.

use vstd::prelude::*;
use crate::strutil::{str_eq, str_ends_with, str_starts_with, spec_ends_with};

verus! {

/// The pattern begins with the two-character wildcard marker `*.`.
pub open spec fn spec_has_wildcard(pattern: Seq<char>) -> bool {
    pattern.len() >= 2 && pattern[0] == '*' && pattern[1] == '.'
}

/// A host matches the wildcard suffix `d` exactly when it equals `d`
/// or ends with `"." + d`.
pub open spec fn spec_wildcard_matches(d: Seq<char>, host: Seq<char>) -> bool {
    host == d || spec_ends_with(host, seq!['.'] + d)
}

/// Whether `host` satisfies `pattern`: a pattern of the form `*.d`
/// matches `d` itself and every subdomain of `d`; any other pattern
/// matches only the identical host.
pub open spec fn spec_matches_domain(pattern: Seq<char>, host: Seq<char>) -> bool {
    if spec_has_wildcard(pattern) {
        spec_wildcard_matches(pattern.skip(2), host)
    } else {
        host == pattern
    }
}

/// Decides whether `target` satisfies the domain `pattern`.
///
/// Wildcard patterns `*.d` accept `d` itself and any host that ends in
/// `.d`; every other pattern must equal the target.
pub fn matches_domain(pattern: &str, target: &str) -> (r: bool)
    ensures
        r == spec_matches_domain(pattern@, target@),
{
    proof {
        reveal_strlit("*.");
    }
    if str_starts_with(pattern, "*.") {
        proof {
            let pre = pattern@.subrange(0, 2);
            assert(pattern@[0] == pre[0] && pattern@[1] == pre[1]);
            assert(spec_has_wildcard(pattern@));
        }
        let plen = pattern.unicode_len();
        let rest = pattern.substring_char(2, plen);
        proof {
            assert(rest@ =~= pattern@.skip(2));
        }
        if str_eq(target, rest) {
            return true;
        }
        let tlen = target.unicode_len();
        let rlen = rest.unicode_len();
        if tlen > rlen && str_ends_with(target, rest)
            && target.get_char(tlen - rlen - 1) == '.' {
            proof {
                let dotted = seq!['.'] + rest@;
                let tail = target@.subrange(
                    target@.len() - dotted.len(),
                    target@.len() as int,
                );
                assert(target@.subrange(
                    target@.len() - rest@.len(),
                    target@.len() as int,
                ) == rest@);
                assert(tail =~= dotted);
            }
            return true;
        }
        proof {
            let dotted = seq!['.'] + rest@;
            if spec_ends_with(target@, dotted) {
                let tail = target@.subrange(
                    target@.len() - dotted.len(),
                    target@.len() as int,
                );
                assert(tail == dotted);
                assert(tail[0] == target@[target@.len() - rest@.len() - 1]);
                assert forall|j: int| 0 <= j < rest@.len() implies
                    target@.subrange(
                        target@.len() - rest@.len(),
                        target@.len() as int,
                    )[j] == rest@[j]
                by {
                    assert(tail[j + 1] == dotted[j + 1]);
                    assert(tail[j + 1] == target@[target@.len() - dotted.len() + j + 1]);
                }
                assert(target@.subrange(
                    target@.len() - rest@.len(),
                    target@.len() as int,
                ) =~= rest@);
            }
            assert(!spec_wildcard_matches(rest@, target@));
        }
        false
    } else {
        proof {
            if spec_has_wildcard(pattern@) {
                assert(pattern@.subrange(0, 2) =~= "*."@);
            }
            assert(!spec_has_wildcard(pattern@));
        }
        str_eq(target, pattern)
    }
}



/// The wildcard law: a pattern `*.d` accepts a host exactly when the
/// host is `d` itself or ends with `"." + d`.
pub proof fn lemma_wildcard_pattern_iff(d: Seq<char>, host: Seq<char>)
    ensures
        spec_matches_domain(seq!['*', '.'] + d, host) == (host == d || spec_ends_with(
            host,
            seq!['.'] + d,
        )),
{
    let pattern = seq!['*', '.'] + d;
    assert(pattern[0] == '*' && pattern[1] == '.');
    assert(pattern.skip(2) =~= d);
}

/// The literal law: a pattern without the wildcard marker accepts
/// exactly the identical host.
pub proof fn lemma_literal_pattern_iff(pattern: Seq<char>, host: Seq<char>)
    requires
        !spec_has_wildcard(pattern),
    ensures
        spec_matches_domain(pattern, host) == (host == pattern),
{
}

} // verus!
