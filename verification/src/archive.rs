//! Reading the archive tool's output: the uncompressed size out of a
//! listing, the password-check verdict out of a test run, and the
//! container size an import needs.

use vstd::prelude::*;
use crate::marker::{spec_all_digits, spec_digits_val, parse_expiry};
use crate::strutil::{spec_contains, spec_lines, spec_trim, str_contains, trim_str, split_lines};

verus! {

/// The ASCII white-space characters, as ASCII-white-space splitting
/// treats them.
pub open spec fn spec_is_ascii_ws(c: char) -> bool {
    c == ' ' || c == '\t' || c == '\n' || c == '\r' || c == '\u{c}'
}

/// Whether `c` is ASCII white space.
pub fn is_ascii_ws(c: char) -> (r: bool)
    ensures
        r == spec_is_ascii_ws(c),
{
    c == ' ' || c == '\t' || c == '\n' || c == '\r' || c == '\u{c}'
}

/// The first position at or after `from` that does not hold ASCII
/// white space, or the end.
pub open spec fn spec_skip_ws(s: Seq<char>, from: int) -> int
    decreases s.len() - from,
{
    if from < 0 || from >= s.len() {
        s.len() as int
    } else if spec_is_ascii_ws(s[from]) {
        spec_skip_ws(s, from + 1)
    } else {
        from
    }
}

/// The first position at or after `from` that holds ASCII white
/// space, or the end.
pub open spec fn spec_skip_token(s: Seq<char>, from: int) -> int
    decreases s.len() - from,
{
    if from < 0 || from >= s.len() {
        s.len() as int
    } else if spec_is_ascii_ws(s[from]) {
        from
    } else {
        spec_skip_token(s, from + 1)
    }
}

/// Advances over ASCII white space.
fn skip_ws(s: &str, from: usize) -> (r: usize)
    requires
        from <= s@.len(),
    ensures
        from <= r <= s@.len(),
        r == spec_skip_ws(s@, from as int),
        r < s@.len() ==> !spec_is_ascii_ws(s@[r as int]),
{
    let len = s.unicode_len();
    let mut i: usize = from;
    while i < len && is_ascii_ws(s.get_char(i))
        invariant
            len == s@.len(),
            from <= i <= len,
            spec_skip_ws(s@, from as int) == spec_skip_ws(s@, i as int),
        decreases len - i,
    {
        i = i + 1;
    }
    i
}

/// Advances over a token of non-white-space characters.
fn skip_token(s: &str, from: usize) -> (r: usize)
    requires
        from <= s@.len(),
    ensures
        from <= r <= s@.len(),
        r == spec_skip_token(s@, from as int),
        r < s@.len() ==> spec_is_ascii_ws(s@[r as int]),
{
    let len = s.unicode_len();
    let mut i: usize = from;
    while i < len && !is_ascii_ws(s.get_char(i))
        invariant
            len == s@.len(),
            from <= i <= len,
            spec_skip_token(s@, from as int) == spec_skip_token(s@, i as int),
        decreases len - i,
    {
        i = i + 1;
    }
    i
}

/// The third ASCII-white-space-separated token of `l`, when `l` has
/// at least three.
pub open spec fn spec_third_token(l: Seq<char>) -> Option<Seq<char>> {
    let t0 = spec_skip_ws(l, 0);
    let e0 = spec_skip_token(l, t0);
    let t1 = spec_skip_ws(l, e0);
    let e1 = spec_skip_token(l, t1);
    let t2 = spec_skip_ws(l, e1);
    let e2 = spec_skip_token(l, t2);
    if t2 < l.len() {
        Some(l.subrange(t2, e2))
    } else {
        None
    }
}

/// The uncompressed byte count the archive tool's listing reports:
/// the third token of the last line of the trimmed output, read as a
/// decimal integer. Nothing when the trimmed output is empty, the
/// last line has fewer than three tokens, or the token is not such an
/// integer.
pub open spec fn spec_zip_size(out: Seq<char>) -> Option<u64> {
    let ls = spec_lines(spec_trim(out));
    if ls.len() == 0 {
        None
    } else {
        match spec_third_token(ls.last()) {
            Some(tok) => if tok.len() > 0 && spec_all_digits(tok) && spec_digits_val(tok)
                <= u64::MAX {
                Some(spec_digits_val(tok) as u64)
            } else {
                None
            },
            None => None,
        }
    }
}

/// Reads the uncompressed byte count out of the archive tool's
/// listing output.
pub fn parse_zip_size_output(output: &str) -> (r: Option<u64>)
    ensures
        r == spec_zip_size(output@),
{
    let trimmed = trim_str(output);
    let lines = split_lines(trimmed);
    let n = lines.len();
    proof {
        assert(lines.deep_view().len() == lines@.len());
    }
    if n == 0 {
        return None;
    }
    let last = &lines[n - 1];
    proof {
        assert(lines.deep_view()[n - 1] == lines@[n - 1]@);
        assert(last@ == spec_lines(spec_trim(output@)).last());
    }
    let llen = last.as_str().unicode_len();
    let t0 = skip_ws(last.as_str(), 0);
    let e0 = skip_token(last.as_str(), t0);
    let t1 = skip_ws(last.as_str(), e0);
    let e1 = skip_token(last.as_str(), t1);
    let t2 = skip_ws(last.as_str(), e1);
    let e2 = skip_token(last.as_str(), t2);
    if t2 >= llen {
        return None;
    }
    let tok = last.as_str().substring_char(t2, e2);
    proof {
        assert(tok@ =~= last@.subrange(t2 as int, e2 as int));
    }
    parse_expiry(tok)
}

/// The verdict of the archive tool's password test: the password is
/// right exactly when the error stream does not report a wrong
/// password and the output stream reports success.
pub fn password_check_ok(out: &str, err: &str) -> (r: bool)
    ensures
        r == (!spec_contains(err@, "ERROR: Wrong password"@) && spec_contains(
            out@,
            "Everything is Ok"@,
        )),
{
    let wrong = str_contains(err, "ERROR: Wrong password");
    let ok = str_contains(out, "Everything is Ok");
    !wrong && ok
}

/// The whole storage units an archive of `bytes` uncompressed bytes
/// occupies: its size in units of 1024 bytes, rounded into the next
/// unit.
pub fn archive_units(bytes: u64) -> (r: u64)
    ensures
        r == bytes / 1024 + 1,
{
    bytes / 1024 + 1
}

/// The container size an import needs: the archive's storage units
/// plus the caller's safety margin. Nothing when the sum does not fit.
pub fn required_container_size(bytes: u64, extra: u64) -> (r: Option<u64>)
    ensures
        r is Some <==> bytes / 1024 + 1 + extra <= u64::MAX,
        r is Some ==> r->0 == bytes / 1024 + 1 + extra,
{
    let units = archive_units(bytes);
    if extra <= u64::MAX - units {
        Some(units + extra)
    } else {
        None
    }
}

} // verus!
