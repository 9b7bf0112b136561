//! The expiry marker: a managed volume carries a small file whose
//! content is its expiry instant written as decimal integer seconds.
//! This module encodes and decodes that content and proves that the
//! two directions agree.

use vstd::prelude::*;

verus! {

/// The character for the decimal digit `d`.
pub open spec fn spec_digit_char(d: int) -> char
    recommends 0 <= d < 10,
{
    ((d + 48) as u8) as char
}

/// Whether `c` is a decimal digit.
pub open spec fn spec_is_digit(c: char) -> bool {
    48 <= c as u32 <= 57
}

/// The numeric value of the digit `c`.
pub open spec fn spec_digit_val(c: char) -> int
    recommends spec_is_digit(c),
{
    c as u32 - 48
}

/// Every character of `s` is a decimal digit.
pub open spec fn spec_all_digits(s: Seq<char>) -> bool {
    forall|i: int| 0 <= i < s.len() ==> spec_is_digit(#[trigger] s[i])
}

/// The decimal representation of `n`, most significant digit first,
/// with no sign, no leading zeros (except for `n == 0` itself).
pub open spec fn spec_dec(n: nat) -> Seq<char>
    decreases n,
{
    if n < 10 {
        seq![spec_digit_char(n as int)]
    } else {
        spec_dec(n / 10) + seq![spec_digit_char((n % 10) as int)]
    }
}

/// The value of a string of decimal digits.
pub open spec fn spec_digits_val(s: Seq<char>) -> int
    decreases s.len(),
{
    if s.len() == 0 {
        0
    } else {
        spec_digits_val(s.drop_last()) * 10 + spec_digit_val(s.last())
    }
}

/// The value of a prefix of a digit string never exceeds the value of
/// the whole string.
proof fn lemma_digits_val_prefix(s: Seq<char>, i: int)
    requires
        0 <= i <= s.len(),
        spec_all_digits(s),
    ensures
        spec_digits_val(s.take(i)) <= spec_digits_val(s),
        spec_digits_val(s) >= 0,
    decreases s.len() - i,
{
    if i == s.len() {
        assert(s.take(i) =~= s);
        lemma_digits_val_nonneg(s);
    } else {
        lemma_digits_val_prefix(s, i + 1);
        assert(s.take(i + 1).drop_last() =~= s.take(i));
        assert(s.take(i + 1).last() == s[i]);
        lemma_digits_val_nonneg(s.take(i));
    }
}

/// A digit string has a non-negative value.
proof fn lemma_digits_val_nonneg(s: Seq<char>)
    requires
        spec_all_digits(s),
    ensures
        spec_digits_val(s) >= 0,
    decreases s.len(),
{
    if s.len() > 0 {
        assert(spec_all_digits(s.drop_last()));
        lemma_digits_val_nonneg(s.drop_last());
    }
}

/// Round trip of the decimal encoding: the representation of `n` is a
/// non-empty digit string whose value is `n` again.
pub proof fn lemma_dec_round_trip(n: nat)
    ensures
        spec_dec(n).len() >= 1,
        spec_all_digits(spec_dec(n)),
        spec_digits_val(spec_dec(n)) == n,
    decreases n,
{
    if n < 10 {
        reveal_with_fuel(spec_digits_val, 3);
        assert(spec_dec(n) =~= seq![spec_digit_char(n as int)]);
        assert(spec_digit_val(spec_digit_char(n as int)) == n);
        assert(spec_dec(n).drop_last() =~= Seq::<char>::empty());
    } else {
        lemma_dec_round_trip(n / 10);
        let whole = spec_dec(n / 10) + seq![spec_digit_char((n % 10) as int)];
        assert(whole.drop_last() =~= spec_dec(n / 10));
        assert(whole.last() == spec_digit_char((n % 10) as int));
        assert(spec_digit_val(spec_digit_char((n % 10) as int)) == n % 10);
        assert(spec_digits_val(whole) == (n / 10) * 10 + n % 10);
        assert((n / 10) * 10 + n % 10 == n);
        assert(spec_all_digits(whole)) by {
            assert(forall|i: int| 0 <= i < spec_dec(n / 10).len()
                ==> whole[i] == #[trigger] spec_dec(n / 10)[i]);
        }
    }
}

/// The single-character string for the digit `d`.
fn digit_str(d: u64) -> (r: String)
    requires
        d < 10,
    ensures
        r@ =~= seq![spec_digit_char(d as int)],
{
    proof {
        reveal_strlit("0");
        reveal_strlit("1");
        reveal_strlit("2");
        reveal_strlit("3");
        reveal_strlit("4");
        reveal_strlit("5");
        reveal_strlit("6");
        reveal_strlit("7");
        reveal_strlit("8");
        reveal_strlit("9");
    }
    let s = match d {
        0 => "0",
        1 => "1",
        2 => "2",
        3 => "3",
        4 => "4",
        5 => "5",
        6 => "6",
        7 => "7",
        8 => "8",
        _ => "9",
    };
    String::from_str(s)
}

/// Writes `v` in decimal, exactly as the expiry marker file holds it.
pub fn format_expiry(v: u64) -> (r: String)
    ensures
        r@ == spec_dec(v as nat),
    decreases v,
{
    if v < 10 {
        digit_str(v)
    } else {
        let mut s = format_expiry(v / 10);
        let tail = digit_str(v % 10);
        s.append(tail.as_str());
        proof {
            assert(s@ =~= spec_dec((v / 10) as nat) + seq![
                spec_digit_char((v % 10) as int),
            ]);
        }
        s
    }
}

/// Reads a marker file's content: `Some(v)` exactly when the content
/// is a non-empty string of decimal digits whose value fits in an
/// unsigned 64-bit count of seconds, and `v` is that value.
pub fn parse_expiry(s: &str) -> (r: Option<u64>)
    ensures
        (r is Some <==> s@.len() > 0 && spec_all_digits(s@)
            && spec_digits_val(s@) <= u64::MAX),
        r is Some ==> r->0 as int == spec_digits_val(s@),
{
    let len = s.unicode_len();
    if len == 0 {
        return None;
    }
    let mut v: u64 = 0;
    let mut i: usize = 0;
    while i < len
        invariant
            len == s@.len(),
            0 < len,
            i <= len,
            spec_all_digits(s@.take(i as int)),
            v as int == spec_digits_val(s@.take(i as int)),
        decreases len - i,
    {
        let c = s.get_char(i);
        let cv = c as u32;
        if cv < 48 || cv > 57 {
            proof {
                assert(!spec_is_digit(s@[i as int]));
            }
            return None;
        }
        let d: u64 = (cv - 48) as u64;
        proof {
            assert(s@.take(i + 1).drop_last() =~= s@.take(i as int));
            assert(s@.take(i + 1).last() == s@[i as int]);
        }
        if v > (u64::MAX - d) / 10 {
            proof {
                assert(v as int * 10 + d > u64::MAX);
                if spec_all_digits(s@) && spec_digits_val(s@) <= u64::MAX {
                    lemma_digits_val_prefix(s@, i + 1);
                }
            }
            return None;
        }
        v = v * 10 + d;
        i = i + 1;
    }
    proof {
        assert(s@.take(len as int) =~= s@);
    }
    Some(v)
}

/// The name of the marker file that records a managed volume's expiry.
pub fn expiry_marker_file_name() -> (r: String)
    ensures
        r@ == ".encrypted-volume-good-until"@,
{
    String::from_str(".encrypted-volume-good-until")
}

} // verus!
