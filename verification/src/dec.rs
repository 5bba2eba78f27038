//! Decimal encoding of transfer values.
//!
//! A transfer value is held as an unsigned integer count of smallest units,
//! at eighteen decimal places below one whole asset unit. The upstream API
//! reports values as decimal numbers with an optional fraction; the store's
//! canonical record form carries the scaled integer in plain decimal digits.

use vstd::prelude::*;

verus! {

pub open spec fn is_dec_digit(c: char) -> bool {
    '0' <= c && c <= '9'
}

pub open spec fn dec_digit_val(c: char) -> int {
    if '0' <= c && c <= '9' {
        c as int - '0' as int
    } else {
        0
    }
}

pub open spec fn all_dec_digits(s: Seq<char>) -> bool {
    forall|i: int| 0 <= i < s.len() ==> is_dec_digit(#[trigger] s[i])
}

/// Value of a run of decimal digits, most significant first.
pub open spec fn dec_seq_val(s: Seq<char>) -> int
    decreases s.len(),
{
    if s.len() == 0 {
        0
    } else {
        dec_seq_val(s.drop_last()) * 10 + dec_digit_val(s.last())
    }
}

pub open spec fn pow10(k: nat) -> int
    decreases k,
{
    if k == 0 {
        1
    } else {
        10 * pow10((k - 1) as nat)
    }
}

pub proof fn lemma_dec_seq_val_nonneg(s: Seq<char>)
    ensures
        dec_seq_val(s) >= 0,
    decreases s.len(),
{
    if s.len() > 0 {
        lemma_dec_seq_val_nonneg(s.drop_last());
    }
}

/// Appending digits never lowers the value.
pub proof fn lemma_dec_seq_val_extend(s: Seq<char>, i: int)
    requires
        0 <= i <= s.len(),
    ensures
        dec_seq_val(s) >= dec_seq_val(s.take(i)),
    decreases s.len() - i,
{
    if i < s.len() {
        lemma_dec_seq_val_extend(s, i + 1);
        assert(s.take(i + 1).drop_last() =~= s.take(i));
        assert(s.take(i + 1).last() == s[i]);
        lemma_dec_seq_val_nonneg(s.take(i));
    } else {
        assert(s.take(i) =~= s);
    }
}

/// A digit run of length `k` denotes a value below `10^k`.
pub proof fn lemma_dec_seq_val_bound(s: Seq<char>)
    ensures
        dec_seq_val(s) < pow10(s.len()),
    decreases s.len(),
{
    if s.len() == 0 {
    } else {
        lemma_dec_seq_val_bound(s.drop_last());
        lemma_pow10_pos(s.len() as nat);
        assert(dec_seq_val(s.drop_last()) <= pow10((s.len() - 1) as nat) - 1);
        assert(dec_seq_val(s.drop_last()) * 10 <= (pow10((s.len() - 1) as nat) - 1) * 10)
            by (nonlinear_arith)
            requires
                dec_seq_val(s.drop_last()) <= pow10((s.len() - 1) as nat) - 1,
        ;
        assert(dec_digit_val(s.last()) <= 9);
    }
}

pub proof fn lemma_pow10_pos(k: nat)
    ensures
        pow10(k) >= 1,
    decreases k,
{
    if k > 0 {
        lemma_pow10_pos((k - 1) as nat);
    }
}

/// Parses a run of decimal digits into a scaled-unit integer.
///
/// Succeeds exactly when the run is non-empty, all digits, and denotes a
/// value that fits in a `u128`.
pub fn dec_seq_to_u128(v: &Vec<char>) -> (r: Option<u128>)
    ensures
        r is Some <==> (v@.len() >= 1 && all_dec_digits(v@) && dec_seq_val(v@) <= u128::MAX),
        r matches Some(x) ==> x == dec_seq_val(v@),
{
    if v.len() == 0 {
        return None;
    }
    let mut val: u128 = 0;
    let mut i: usize = 0;
    let n = v.len();
    while i < n
        invariant
            0 <= i <= n,
            n == v@.len(),
            forall|j: int| 0 <= j < i ==> is_dec_digit(#[trigger] v@[j]),
            val == dec_seq_val(v@.take(i as int)),
        decreases n - i,
    {
        let c = v[i];
        if !('0' <= c && c <= '9') {
            assert(!is_dec_digit(v@[i as int]));
            return None;
        }
        let u = c as u32;
        let d = (u - 48) as u128;
        assert(is_dec_digit(v@[i as int]));
        assert(dec_digit_val(v@[i as int]) == d as int);
        let val10 = match val.checked_mul(10) {
            Some(x) => x,
            None => {
                proof {
                    lemma_dec_seq_val_extend(v@, i + 1);
                    assert(v@.take(i + 1).drop_last() =~= v@.take(i as int));
                    assert(v@.take(i + 1).last() == v@[i as int]);
                    lemma_dec_seq_val_nonneg(v@.take(i + 1));
                    assert(dec_seq_val(v@.take(i + 1)) > u128::MAX);
                }
                return None;
            },
        };
        let val2 = match val10.checked_add(d) {
            Some(x) => x,
            None => {
                proof {
                    lemma_dec_seq_val_extend(v@, i + 1);
                    assert(v@.take(i + 1).drop_last() =~= v@.take(i as int));
                    assert(v@.take(i + 1).last() == v@[i as int]);
                    assert(dec_seq_val(v@.take(i + 1)) > u128::MAX);
                }
                return None;
            },
        };
        val = val2;
        proof {
            assert(v@.take(i + 1).drop_last() =~= v@.take(i as int));
            assert(v@.take(i + 1).last() == v@[i as int]);
        }
        i = i + 1;
    }
    proof {
        assert(v@.take(n as int) =~= v@);
        lemma_dec_seq_val_nonneg(v@);
    }
    Some(val)
}

/// Minimal-length decimal digit string of `n` (so `0` is "0").
pub open spec fn u128_dec_digits(n: int) -> Seq<char>
    decreases n,
{
    if n < 10 {
        seq![(('0' as int + n) as u32) as char]
    } else {
        u128_dec_digits(n / 10) + seq![(('0' as int + n % 10) as u32) as char]
    }
}

fn dec_char_digit(d: u128) -> (c: char)
    requires
        d < 10,
    ensures
        c as int == '0' as int + d,
        is_dec_digit(c),
        dec_digit_val(c) == d,
{
    ((48 + d) as u8) as char
}

fn push_dec_digits(n: u128, out: &mut Vec<char>)
    ensures
        final(out)@ == old(out)@ + u128_dec_digits(n as int),
    decreases n,
{
    if n < 10 {
        let c = dec_char_digit(n);
        out.push(c);
    } else {
        push_dec_digits(n / 10, out);
        let c = dec_char_digit(n % 10);
        out.push(c);
        proof {
            assert(out@ =~= old(out)@ + u128_dec_digits(n as int));
        }
    }
}

/// Writes the scaled-unit value in plain decimal digits.
pub fn u128_to_dec_chars(n: u128) -> (r: Vec<char>)
    ensures
        r@ == u128_dec_digits(n as int),
{
    let mut chars: Vec<char> = Vec::new();
    push_dec_digits(n, &mut chars);
    proof {
        assert(chars@ =~= u128_dec_digits(n as int));
    }
    chars
}

/// Encoding then decoding a scaled value yields the value back.
pub proof fn lemma_dec_round_trip(n: int)
    requires
        0 <= n,
    ensures
        u128_dec_digits(n).len() >= 1,
        all_dec_digits(u128_dec_digits(n)),
        dec_seq_val(u128_dec_digits(n)) == n,
    decreases n,
{
    if n < 10 {
        let s = u128_dec_digits(n);
        assert(s =~= seq![(('0' as int + n) as u32) as char]);
        assert(s.drop_last() =~= Seq::<char>::empty());
        assert(s.last() == (('0' as int + n) as u32) as char);
        assert(dec_seq_val(s) == dec_seq_val(s.drop_last()) * 10 + dec_digit_val(s.last()));
    } else {
        lemma_dec_round_trip(n / 10);
        let s = u128_dec_digits(n);
        assert(s.drop_last() =~= u128_dec_digits(n / 10));
        assert(s.last() == (('0' as int + n % 10) as u32) as char);
        assert(dec_seq_val(s) == (n / 10) * 10 + (n % 10));
        assert(forall|i: int| 0 <= i < s.len() ==> is_dec_digit(#[trigger] s[i])) by {
            assert(forall|i: int|
                0 <= i < s.len() - 1 ==> s[i] == #[trigger] u128_dec_digits(n / 10)[i]);
        }
    }
}

/// The fixed-point value denoted by an integer digit run and a (possibly
/// empty) fraction digit run, in smallest units.
pub open spec fn spec_scaled_value(ip: Seq<char>, fp: Seq<char>) -> int {
    dec_seq_val(ip) * pow10(18) + dec_seq_val(fp) * pow10((18 - fp.len()) as nat)
}

/// Whether the digit runs of an upstream decimal number are acceptable: a
/// non-empty integer part of at most nineteen digits and a fraction of at
/// most eighteen digits (so the scaled value always fits).
pub open spec fn spec_scaled_ok(ip: Seq<char>, fp: Seq<char>) -> bool {
    1 <= ip.len() <= 19 && fp.len() <= 18 && all_dec_digits(ip) && all_dec_digits(fp)
}

/// Converts an upstream decimal number, split into integer and fraction
/// digit runs, into smallest units.
pub fn scaled_from_digits(ip: &Vec<char>, fp: &Vec<char>) -> (r: Option<u128>)
    ensures
        r is Some <==> spec_scaled_ok(ip@, fp@),
        r matches Some(x) ==> x == spec_scaled_value(ip@, fp@),
{
    if ip.len() < 1 || ip.len() > 19 || fp.len() > 18 {
        return None;
    }
    let iv = match dec_seq_to_u128(ip) {
        Some(x) => x,
        None => {
            proof {
                if all_dec_digits(ip@) {
                    lemma_dec_seq_val_bound(ip@);
                    lemma_pow10_mono(ip@.len() as nat, 19);
                    lemma_pow10_values();
                }
            }
            return None;
        },
    };
    let fv = match dec_seq_to_u128(fp) {
        Some(x) => x,
        None => {
            if fp.len() == 0 {
                proof {
                    lemma_dec_seq_val_bound(ip@);
                    lemma_pow10_mono(ip@.len() as nat, 19);
                    lemma_pow10_values();
                    assert(dec_seq_val(ip@) * pow10(18) <= (pow10(19) - 1) * pow10(18))
                        by (nonlinear_arith)
                        requires
                            0 <= dec_seq_val(ip@) <= pow10(19) - 1,
                            pow10(18) >= 1,
                    ;
                    assert(fp@ =~= Seq::<char>::empty());
                }
                let scale = 1000000000000000000u128;
                let sv = iv * scale;
                return Some(sv);
            }
            proof {
                if all_dec_digits(fp@) {
                    lemma_dec_seq_val_bound(fp@);
                    lemma_pow10_mono(fp@.len() as nat, 18);
                    lemma_pow10_values();
                }
            }
            return None;
        },
    };
    proof {
        lemma_dec_seq_val_bound(ip@);
        lemma_dec_seq_val_bound(fp@);
        lemma_pow10_mono(ip@.len() as nat, 19);
        lemma_pow10_mono(fp@.len() as nat, 18);
        lemma_pow10_pos((18 - fp@.len()) as nat);
        lemma_pow10_values();
        assert(dec_seq_val(ip@) * pow10(18) <= (pow10(19) - 1) * pow10(18)) by (nonlinear_arith)
            requires
                0 <= dec_seq_val(ip@) <= pow10(19) - 1,
                pow10(18) >= 1,
        ;
        lemma_frac_scaled_bound(fp@);
    }
    let scale = 1000000000000000000u128;
    let sv = iv * scale;
    let fscale = pow10_exec((18 - fp.len()) as u64);
    let fsv = fv * fscale;
    Some(sv + fsv)
}

/// `10^(k) * v < 10^18` for a fraction of `18 - k` digits.
proof fn lemma_frac_scaled_bound(fp: Seq<char>)
    requires
        fp.len() <= 18,
        all_dec_digits(fp),
    ensures
        dec_seq_val(fp) * pow10((18 - fp.len()) as nat) <= pow10(18) - pow10(
            (18 - fp.len()) as nat,
        ),
        dec_seq_val(fp) * pow10((18 - fp.len()) as nat) >= 0,
{
    lemma_dec_seq_val_bound(fp);
    lemma_dec_seq_val_nonneg(fp);
    lemma_pow10_pos((18 - fp.len()) as nat);
    lemma_pow10_mul(fp.len() as nat, (18 - fp.len()) as nat);
    assert(dec_seq_val(fp) * pow10((18 - fp.len()) as nat) <= (pow10(fp.len() as nat) - 1) * pow10(
        (18 - fp.len()) as nat,
    )) by (nonlinear_arith)
        requires
            0 <= dec_seq_val(fp) <= pow10(fp.len() as nat) - 1,
            pow10((18 - fp.len()) as nat) >= 1,
    ;
    assert((pow10(fp.len() as nat) - 1) * pow10((18 - fp.len()) as nat) == pow10(fp.len() as nat)
        * pow10((18 - fp.len()) as nat) - pow10((18 - fp.len()) as nat)) by (nonlinear_arith);
    assert(dec_seq_val(fp) * pow10((18 - fp.len()) as nat) >= 0) by (nonlinear_arith)
        requires
            dec_seq_val(fp) >= 0,
            pow10((18 - fp.len()) as nat) >= 1,
    ;
}

/// Concrete values of the two powers of ten the codecs use.
pub proof fn lemma_pow10_values()
    ensures
        pow10(18) == 1000000000000000000,
        pow10(19) == 10000000000000000000,
{
    reveal_with_fuel(pow10, 20);
}

proof fn lemma_pow10_mul(a: nat, b: nat)
    ensures
        pow10(a) * pow10(b) == pow10(a + b),
    decreases a,
{
    if a == 0 {
    } else {
        lemma_pow10_mul((a - 1) as nat, b);
        assert(pow10(a) * pow10(b) == 10 * (pow10((a - 1) as nat) * pow10(b)))
            by (nonlinear_arith)
            requires
                pow10(a) == 10 * pow10((a - 1) as nat),
        ;
    }
}

pub proof fn lemma_pow10_mono(a: nat, b: nat)
    requires
        a <= b,
    ensures
        pow10(a) <= pow10(b),
    decreases b,
{
    if a < b {
        lemma_pow10_mono(a, (b - 1) as nat);
        lemma_pow10_pos((b - 1) as nat);
    }
}

/// `10^k` for `k` at most 18.
fn pow10_exec(k: u64) -> (r: u128)
    requires
        k <= 18,
    ensures
        r == pow10(k as nat),
{
    let mut r: u128 = 1;
    let mut i: u64 = 0;
    proof {
        lemma_pow10_mono(k as nat, 18);
        lemma_pow10_values();
    }
    while i < k
        invariant
            0 <= i <= k,
            k <= 18,
            r == pow10(i as nat),
            pow10(k as nat) <= 1000000000000000000,
        decreases k - i,
    {
        proof {
            lemma_pow10_mono((i + 1) as nat, k as nat);
            lemma_pow10_pos(i as nat);
        }
        r = r * 10;
        i = i + 1;
    }
    r
}

} // verus!
