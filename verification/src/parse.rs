//! Parsing of the numeric fields the external analyzer reports: plain
//! decimal integers, and durations given as decimal seconds. Durations are
//! read into whole microseconds directly, so no floating-point rounding
//! can disturb comparisons near the similarity threshold.

use vstd::prelude::*;
use crate::media::Duration;

verus! {

/// Whether `c` is a decimal digit.
pub open spec fn is_dec_digit(c: char) -> bool {
    48 <= c as int <= 57
}

/// Numeric value of a decimal digit.
pub open spec fn digit_val(c: char) -> int {
    c as int - 48
}

/// Whether every character of `s` is a decimal digit.
pub open spec fn all_digits(s: Seq<char>) -> bool {
    forall|i: int| 0 <= i < s.len() ==> is_dec_digit(#[trigger] s[i])
}

/// The value of a digit string read in base ten.
pub open spec fn dec_val(s: Seq<char>) -> int
    decreases s.len(),
{
    if s.len() == 0 {
        0
    } else {
        dec_val(s.drop_last()) * 10 + digit_val(s.last())
    }
}

/// Ten to the `k`.
pub open spec fn pow10(k: nat) -> int
    decreases k,
{
    if k == 0 {
        1
    } else {
        10 * pow10((k - 1) as nat)
    }
}

proof fn lemma_dec_val_nonneg(s: Seq<char>)
    requires
        all_digits(s),
    ensures
        dec_val(s) >= 0,
    decreases s.len(),
{
    if s.len() > 0 {
        assert(all_digits(s.drop_last())) by {
            assert(forall|i: int| 0 <= i < s.len() - 1 ==> s.drop_last()[i] == s[i]);
        }
        lemma_dec_val_nonneg(s.drop_last());
    }
}

/// Reading further digits can only grow the value.
proof fn lemma_dec_val_prefix(s: Seq<char>, j: int)
    requires
        all_digits(s),
        0 <= j <= s.len(),
    ensures
        dec_val(s) >= dec_val(s.take(j)),
    decreases s.len(),
{
    if j < s.len() {
        assert(all_digits(s.drop_last())) by {
            assert(forall|i: int| 0 <= i < s.len() - 1 ==> s.drop_last()[i] == s[i]);
        }
        lemma_dec_val_prefix(s.drop_last(), j);
        assert(s.drop_last().take(j) =~= s.take(j));
        lemma_dec_val_nonneg(s.drop_last());
    } else {
        assert(s.take(j) =~= s);
    }
}

/// Parses an unsigned decimal integer. The value is returned exactly when
/// the string is non-empty, holds digits only, and the value fits.
pub fn parse_u64(s: &str) -> (r: Option<u64>)
    ensures
        match r {
            Option::Some(v) => s@.len() > 0 && all_digits(s@) && v as int == dec_val(s@),
            Option::None => s@.len() == 0 || !all_digits(s@) || dec_val(s@) > u64::MAX,
        },
{
    let n = s.unicode_len();
    if n == 0 {
        return None;
    }
    let mut acc: u64 = 0;
    let mut i: usize = 0;
    proof {
        assert(s@.take(0) =~= Seq::<char>::empty());
    }
    while i < n
        invariant
            n == s@.len(),
            0 <= i <= n,
            all_digits(s@.take(i as int)),
            acc as int == dec_val(s@.take(i as int)),
        decreases n - i,
    {
        let c = s.get_char(i);
        let cv = c as u32;
        proof {
            let t = s@.take(i + 1);
            assert(t.drop_last() =~= s@.take(i as int));
            assert(t.last() == s@[i as int]);
        }
        if cv < 48 || cv > 57 {
            assert(!is_dec_digit(s@[i as int]));
            return None;
        }
        let d = (cv - 48) as u64;
        if acc > (u64::MAX - d) / 10 {
            proof {
                let rest = u64::MAX - d;
                assert(rest / 10 * 10 + rest % 10 == rest);
                assert(acc as int * 10 + d > u64::MAX);
                assert(dec_val(s@.take(i + 1)) > u64::MAX);
                if all_digits(s@) {
                    lemma_dec_val_prefix(s@, i + 1);
                }
            }
            return None;
        }
        proof {
            let rest = u64::MAX - d;
            assert(rest / 10 * 10 + rest % 10 == rest);
            assert(acc as int * 10 + d <= u64::MAX);
        }
        acc = acc * 10 + d;
        i += 1;
    }
    proof {
        assert(s@.take(n as int) =~= s@);
    }
    Some(acc)
}

/// Parses an unsigned decimal integer that must fit in 32 bits.
pub fn parse_u32(s: &str) -> (r: Option<u32>)
    ensures
        match r {
            Option::Some(v) => s@.len() > 0 && all_digits(s@) && v as int == dec_val(s@),
            Option::None => s@.len() == 0 || !all_digits(s@) || dec_val(s@) > u32::MAX,
        },
{
    match parse_u64(s) {
        Some(v) => {
            if v <= 0xffff_ffff {
                Some(v as u32)
            } else {
                None
            }
        },
        None => None,
    }
}

/// Executable equality of two string slices, character by character.
pub fn str_eq(a: &str, b: &str) -> (r: bool)
    ensures
        r == (a@ == b@),
{
    let n = a.unicode_len();
    if n != b.unicode_len() {
        return false;
    }
    let mut i: usize = 0;
    while i < n
        invariant
            n == a@.len(),
            n == b@.len(),
            0 <= i <= n,
            forall|k: int| 0 <= k < i ==> a@[k] == b@[k],
        decreases n - i,
    {
        if a.get_char(i) != b.get_char(i) {
            assert(a@[i as int] != b@[i as int]);
            return false;
        }
        i += 1;
    }
    proof {
        assert(a@ =~= b@);
    }
    true
}

/// Index of the first dot in `s` at or after `k`, or the length of `s`
/// when there is none.
pub open spec fn dot_index_from(s: Seq<char>, k: int) -> int
    decreases s.len() - k,
{
    if k < 0 || k >= s.len() {
        s.len() as int
    } else if s[k] == '.' {
        k
    } else {
        dot_index_from(s, k + 1)
    }
}

/// The digits before the first dot.
pub open spec fn whole_part(s: Seq<char>) -> Seq<char> {
    s.take(dot_index_from(s, 0))
}

/// The digits after the first dot; empty when there is no dot.
pub open spec fn frac_part(s: Seq<char>) -> Seq<char> {
    if dot_index_from(s, 0) < s.len() {
        s.skip(dot_index_from(s, 0) + 1)
    } else {
        Seq::empty()
    }
}

/// Microseconds denoted by a fractional-seconds digit string: the first
/// six digits, scaled to microseconds; digits beyond the sixth lie below
/// the precision held and are dropped.
pub open spec fn frac_micros(f: Seq<char>) -> int {
    if f.len() >= 6 {
        dec_val(f.take(6))
    } else {
        dec_val(f) * pow10((6 - f.len()) as nat)
    }
}

/// A decimal-seconds string this library accepts: digits, at most one
/// dot, at least one digit, and a value that fits in `u64` microseconds.
pub open spec fn duration_str_valid(s: Seq<char>) -> bool {
    &&& all_digits(whole_part(s))
    &&& all_digits(frac_part(s))
    &&& whole_part(s).len() + frac_part(s).len() > 0
    &&& dec_val(whole_part(s)) * 1_000_000 + frac_micros(frac_part(s)) <= u64::MAX
}

/// The microsecond value a valid decimal-seconds string denotes.
pub open spec fn duration_micros_of(s: Seq<char>) -> int {
    dec_val(whole_part(s)) * 1_000_000 + frac_micros(frac_part(s))
}

proof fn lemma_pow10_values()
    ensures
        pow10(0) == 1,
        pow10(1) == 10,
        pow10(2) == 100,
        pow10(3) == 1_000,
        pow10(4) == 10_000,
        pow10(5) == 100_000,
        pow10(6) == 1_000_000,
{
    assert(pow10(0) == 1);
    assert(pow10(1) == 10);
    assert(pow10(2) == 100);
    assert(pow10(3) == 1_000);
    assert(pow10(4) == 10_000);
    assert(pow10(5) == 100_000);
    assert(pow10(6) == 1_000_000);
}

proof fn lemma_pow10_pos(k: nat)
    ensures
        pow10(k) > 0,
    decreases k,
{
    if k > 0 {
        lemma_pow10_pos((k - 1) as nat);
    }
}

proof fn lemma_pow10_mul(a: nat, b: nat)
    ensures
        pow10(a) * pow10(b) == pow10(a + b),
    decreases a,
{
    if a == 0 {
        lemma_pow10_pos(b);
    } else {
        lemma_pow10_mul((a - 1) as nat, b);
        assert((a - 1) as nat + b == (a + b - 1) as nat);
        assert(pow10(a) == 10 * pow10((a - 1) as nat));
        assert(pow10(a + b) == 10 * pow10((a + b - 1) as nat));
        assert(pow10(a) * pow10(b) == 10 * (pow10((a - 1) as nat) * pow10(b)))
            by (nonlinear_arith)
            requires
                pow10(a) == 10 * pow10((a - 1) as nat),
        ;
    }
}

proof fn lemma_frac_micros_nonneg(f: Seq<char>)
    requires
        all_digits(f),
    ensures
        frac_micros(f) >= 0,
{
    if f.len() >= 6 {
        assert(all_digits(f.take(6))) by {
            assert(forall|i: int| 0 <= i < 6 ==> f.take(6)[i] == f[i]);
        }
        lemma_dec_val_nonneg(f.take(6));
    } else {
        lemma_dec_val_nonneg(f);
        lemma_pow10_pos((6 - f.len()) as nat);
        assert(dec_val(f) * pow10((6 - f.len()) as nat) >= 0) by (nonlinear_arith)
            requires
                dec_val(f) >= 0,
                pow10((6 - f.len()) as nat) > 0,
        ;
    }
}

/// Parses a duration given as decimal seconds (`"10"`, `"10.35"`,
/// `".5"`), as the external analyzer prints one, into microseconds.
/// Fractional digits beyond the sixth are dropped. Succeeds exactly on
/// the strings [`duration_str_valid`] describes.
pub fn parse_duration_secs(s: &str) -> (r: Option<Duration>)
    ensures
        match r {
            Option::Some(d) => duration_str_valid(s@) && d.micros as int == duration_micros_of(s@),
            Option::None => !duration_str_valid(s@),
        },
{
    let n = s.unicode_len();
    // find the first dot
    let mut dot: usize = 0;
    while dot < n && s.get_char(dot) != '.'
        invariant
            n == s@.len(),
            0 <= dot <= n,
            dot_index_from(s@, 0) == dot_index_from(s@, dot as int),
        decreases n - dot,
    {
        dot += 1;
    }
    proof {
        assert(dot_index_from(s@, 0) == dot as int);
    }
    let ghost w = whole_part(s@);
    let ghost f = frac_part(s@);
    // the whole seconds before the dot
    let whole_str = s.substring_char(0, dot);
    proof {
        assert(whole_str@ =~= w);
    }
    let wv: u64 = if dot == 0 {
        proof {
            assert(w.len() == 0);
        }
        0u64
    } else {
        match parse_u64(whole_str) {
            Some(v) => v,
            None => {
                proof {
                    if all_digits(w) && all_digits(f) && dec_val(w) > u64::MAX {
                        lemma_frac_micros_nonneg(f);
                        assert(dec_val(w) * 1_000_000 >= dec_val(w)) by (nonlinear_arith)
                            requires
                                dec_val(w) > 0,
                        ;
                    }
                }
                return None;
            },
        }
    };
    proof {
        lemma_dec_val_nonneg(w);
        assert(wv as int == dec_val(w));
    }
    // the fractional digits after the dot: the first six carry value
    let mut fv: u64 = 0;
    let mut taken: usize = 0;
    let mut j: usize = if dot < n {
        dot + 1
    } else {
        n
    };
    proof {
        lemma_pow10_values();
        assert(f.take(0) =~= Seq::<char>::empty());
    }
    while j < n
        invariant
            n == s@.len(),
            dot as int == dot_index_from(s@, 0),
            f == frac_part(s@),
            dot < n ==> dot + 1 <= j <= n && f == s@.skip(dot + 1) && f.len() == n - dot - 1,
            dot >= n ==> j == n && f.len() == 0,
            taken <= 6,
            dot < n ==> taken as int == (if j - dot - 1 <= 6 {
                j - dot - 1
            } else {
                6int
            }),
            dot >= n ==> taken == 0,
            all_digits(f.take(if dot < n {
                j - dot - 1
            } else {
                0int
            })),
            fv as int == dec_val(f.take(taken as int)),
            fv < pow10(taken as nat),
            pow10(5) == 100_000,
        decreases n - j,
    {
        let c = s.get_char(j);
        let cv = c as u32;
        let ghost fi = j - dot - 1;
        proof {
            let t = f.take(fi + 1);
            assert(t.drop_last() =~= f.take(fi));
            assert(t.last() == f[fi]);
            assert(f[fi] == s@[j as int]);
        }
        if cv < 48 || cv > 57 {
            proof {
                assert(!is_dec_digit(f[fi]));
                assert(!all_digits(f));
            }
            return None;
        }
        let d = (cv - 48) as u64;
        if taken < 6 {
            proof {
                lemma_pow10_values();
                assert(pow10((taken + 1) as nat) == 10 * pow10(taken as nat));
                assert(fv as int * 10 + d < pow10((taken + 1) as nat));
                assert(f.take(fi + 1) == f.take(taken + 1));
            }
            fv = fv * 10 + d;
            taken += 1;
        } else {
            proof {
                assert(f.take(taken as int) == f.take(6));
            }
        }
        j += 1;
    }
    proof {
        if dot < n {
            assert(f.take(n - dot - 1) =~= f);
        } else {
            assert(f.take(0int) =~= f);
        }
        assert(all_digits(f));
    }
    if dot == 0 && dot + 1 >= n {
        // no digit at all: the whole and the fraction are both empty
        proof {
            assert(w.len() == 0);
            assert(f.len() == 0);
        }
        return None;
    }
    let scale: u64 = if taken == 0 {
        1_000_000
    } else if taken == 1 {
        100_000
    } else if taken == 2 {
        10_000
    } else if taken == 3 {
        1_000
    } else if taken == 4 {
        100
    } else if taken == 5 {
        10
    } else {
        1
    };
    proof {
        lemma_pow10_values();
        assert(scale as int == pow10((6 - taken) as nat));
        lemma_pow10_mul(taken as nat, (6 - taken) as nat);
        assert((fv as int) * (scale as int) < 1_000_000) by (nonlinear_arith)
            requires
                fv as int >= 0,
                (fv as int) < pow10(taken as nat),
                scale as int == pow10((6 - taken) as nat),
                scale >= 1,
                pow10(taken as nat) * pow10((6 - taken) as nat) == 1_000_000,
        ;
    }
    let fm: u64 = fv * scale;
    proof {
        if f.len() >= 6 {
            assert(taken == 6);
            assert(scale == 1);
            assert(f.take(taken as int) == f.take(6));
            assert(fm as int == frac_micros(f));
        } else {
            assert(taken as int == f.len());
            assert(f.take(taken as int) =~= f);
            assert(fm as int == frac_micros(f));
        }
    }
    if wv > (u64::MAX - fm) / 1_000_000 {
        proof {
            let rest = u64::MAX - fm;
            assert(rest / 1_000_000 * 1_000_000 + rest % 1_000_000 == rest);
            assert(wv as int * 1_000_000 + fm > u64::MAX);
            assert(!duration_str_valid(s@));
        }
        return None;
    }
    proof {
        let rest = u64::MAX - fm;
        assert(rest / 1_000_000 * 1_000_000 + rest % 1_000_000 == rest);
        assert(wv as int * 1_000_000 + fm <= u64::MAX);
        assert(duration_str_valid(s@));
    }
    Some(Duration { micros: wv * 1_000_000 + fm })
}

} // verus!
