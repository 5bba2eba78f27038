//! Hexadecimal block-height encoding.
//!
//! The upstream API carries block heights as `0x`-prefixed hexadecimal
//! strings; the cursor is a `u64`. These functions convert both ways and the
//! conversion is proved to round-trip.

use vstd::prelude::*;

verus! {

/// True if `c` is an ASCII hexadecimal digit (either case).
pub open spec fn is_hex_digit(c: char) -> bool {
    ('0' <= c && c <= '9') || ('a' <= c && c <= 'f') || ('A' <= c && c <= 'F')
}

/// Numeric value of a hexadecimal digit; 0 on non-digits.
pub open spec fn hex_digit_val(c: char) -> int {
    if '0' <= c && c <= '9' {
        c as int - '0' as int
    } else if 'a' <= c && c <= 'f' {
        c as int - 'a' as int + 10
    } else if 'A' <= c && c <= 'F' {
        c as int - 'A' as int + 10
    } else {
        0
    }
}

pub open spec fn all_hex_digits(s: Seq<char>) -> bool {
    forall|i: int| 0 <= i < s.len() ==> is_hex_digit(#[trigger] s[i])
}

/// Value of a sequence of hexadecimal digits, most significant first.
pub open spec fn hex_seq_val(s: Seq<char>) -> int
    decreases s.len(),
{
    if s.len() == 0 {
        0
    } else {
        hex_seq_val(s.drop_last()) * 16 + hex_digit_val(s.last())
    }
}

/// A well-formed block-height string: `0x`, then at least one hex digit,
/// and a value that fits in a `u64`.
pub open spec fn spec_hex_ok(s: Seq<char>) -> bool {
    s.len() >= 3 && s[0] == '0' && s[1] == 'x' && all_hex_digits(s.skip(2))
        && hex_seq_val(s.skip(2)) <= u64::MAX
}

/// The block height a well-formed string denotes.
pub open spec fn spec_hex_value(s: Seq<char>) -> int {
    hex_seq_val(s.skip(2))
}

pub proof fn lemma_hex_seq_val_nonneg(s: Seq<char>)
    ensures
        hex_seq_val(s) >= 0,
    decreases s.len(),
{
    if s.len() > 0 {
        lemma_hex_seq_val_nonneg(s.drop_last());
        assert(hex_digit_val(s.last()) >= 0);
    }
}

/// Appending digits never lowers the value.
pub proof fn lemma_hex_seq_val_extend(s: Seq<char>, i: int)
    requires
        0 <= i <= s.len(),
    ensures
        hex_seq_val(s) >= hex_seq_val(s.take(i)),
    decreases s.len() - i,
{
    if i < s.len() {
        lemma_hex_seq_val_extend(s, i + 1);
        assert(s.take(i + 1).drop_last() =~= s.take(i));
        assert(s.take(i + 1).last() == s[i]);
        lemma_hex_seq_val_nonneg(s.take(i));
        assert(hex_seq_val(s.take(i + 1)) == hex_seq_val(s.take(i)) * 16 + hex_digit_val(s[i]));
        assert(hex_seq_val(s.take(i)) * 16 >= hex_seq_val(s.take(i))) by {
            lemma_hex_seq_val_nonneg(s.take(i));
        }
        assert(hex_digit_val(s[i]) >= 0);
    } else {
        assert(s.take(i) =~= s);
    }
}

/// Tells whether `c` is a hexadecimal digit, and its value.
fn hex_digit_of(c: char) -> (r: Option<u64>)
    ensures
        r is Some <==> is_hex_digit(c),
        r matches Some(v) ==> v == hex_digit_val(c),
{
    let u = c as u32;
    if 48 <= u && u <= 57 {
        Some((u - 48) as u64)
    } else if 97 <= u && u <= 102 {
        Some((u - 97 + 10) as u64)
    } else if 65 <= u && u <= 70 {
        Some((u - 65 + 10) as u64)
    } else {
        None
    }
}

/// Parses a `0x`-prefixed hexadecimal block height.
///
/// Returns `Some` exactly on well-formed strings whose value fits in a
/// `u64`, and then returns that value.
pub fn hex_to_u64(s: &str) -> (r: Option<u64>)
    ensures
        r is Some <==> spec_hex_ok(s@),
        r matches Some(v) ==> v == spec_hex_value(s@),
{
    let n = s.unicode_len();
    if n < 3 {
        return None;
    }
    if s.get_char(0) != '0' || s.get_char(1) != 'x' {
        return None;
    }
    let ghost digits = s@.skip(2);
    let mut val: u64 = 0;
    let mut i: usize = 2;
    while i < n
        invariant
            2 <= i <= n,
            n == s@.len(),
            s@.len() >= 3,
            digits == s@.skip(2),
            all_hex_digits(digits.take(i - 2)),
            val == hex_seq_val(digits.take(i - 2)),
        decreases n - i,
    {
        let c = s.get_char(i);
        let d = match hex_digit_of(c) {
            Some(d) => d,
            None => {
                assert(digits[i - 2] == s@[i as int]);
                return None;
            },
        };
        if val >= 0x1000_0000_0000_0000u64 {
            // One more digit would push the value past u64::MAX.
            proof {
                lemma_hex_seq_val_extend(digits, i - 1);
                assert(digits.take(i - 1).drop_last() =~= digits.take(i - 2));
                assert(hex_seq_val(digits.take(i - 1)) == val * 16 + hex_digit_val(digits[i - 2 + 0]))
                    by {
                    assert(digits.take(i - 1).last() == digits[i - 2]);
                }
                assert(hex_seq_val(digits) > u64::MAX);
            }
            return None;
        }
        val = val * 16 + d;
        proof {
            assert(digits.take(i - 1).drop_last() =~= digits.take(i - 2));
            assert(digits.take(i - 1).last() == digits[i - 2]);
            assert(digits[i - 2] == s@[i as int]);
        }
        i = i + 1;
    }
    proof {
        assert(digits.take(n - 2) =~= digits);
    }
    Some(val)
}

/// Lowercase hexadecimal digit character for a value below 16.
pub open spec fn hex_char_of(d: int) -> char {
    if d < 10 {
        (('0' as int + d) as u32) as char
    } else {
        (('a' as int + d - 10) as u32) as char
    }
}

/// Minimal-length hexadecimal digit string of `n` (so `0` is "0").
pub open spec fn u64_hex_digits(n: int) -> Seq<char>
    decreases n,
{
    if n < 16 {
        seq![hex_char_of(n)]
    } else {
        u64_hex_digits(n / 16) + seq![hex_char_of(n % 16)]
    }
}

/// The full `0x`-prefixed form of `n`.
pub open spec fn spec_u64_to_hex(n: int) -> Seq<char> {
    seq!['0', 'x'] + u64_hex_digits(n)
}

fn hex_char_digit(d: u64) -> (c: char)
    requires
        d < 16,
    ensures
        c == hex_char_of(d as int),
{
    if d < 10 {
        ((48 + d) as u8) as char
    } else {
        ((97 + d - 10) as u8) as char
    }
}

fn push_hex_digits(n: u64, out: &mut Vec<char>)
    ensures
        final(out)@ == old(out)@ + u64_hex_digits(n as int),
    decreases n,
{
    if n < 16 {
        let c = hex_char_digit(n);
        out.push(c);
    } else {
        push_hex_digits(n / 16, out);
        let c = hex_char_digit(n % 16);
        out.push(c);
        proof {
            assert(out@ =~= old(out)@ + u64_hex_digits(n as int));
        }
    }
}

/// Encodes a block height in the upstream's `0x`-prefixed lowercase form.
pub fn u64_to_hex(n: u64) -> (r: String)
    ensures
        r@ == spec_u64_to_hex(n as int),
{
    let mut chars: Vec<char> = Vec::new();
    chars.push('0');
    chars.push('x');
    push_hex_digits(n, &mut chars);
    proof {
        assert(chars@ =~= spec_u64_to_hex(n as int));
    }
    crate::text::chars_to_string(&chars)
}

proof fn lemma_hex_digit_of_char(d: int)
    requires
        0 <= d < 16,
    ensures
        is_hex_digit(hex_char_of(d)),
        hex_digit_val(hex_char_of(d)) == d,
{
}

/// Every character of an encoded block height is plain ASCII.
pub proof fn lemma_hex_string_ascii(n: int)
    requires
        0 <= n,
    ensures
        forall|i: int|
            0 <= i < spec_u64_to_hex(n).len() ==> 0 <= (#[trigger] spec_u64_to_hex(n)[i] as int)
                < 128,
{
    lemma_hex_digits_ascii(n);
    assert forall|i: int|
        0 <= i < spec_u64_to_hex(n).len() implies 0 <= (#[trigger] spec_u64_to_hex(n)[i] as int)
        < 128 by {
        if i >= 2 {
            assert(spec_u64_to_hex(n)[i] == u64_hex_digits(n)[i - 2]);
        }
    }
}

proof fn lemma_hex_digits_ascii(n: int)
    requires
        0 <= n,
    ensures
        forall|i: int|
            0 <= i < u64_hex_digits(n).len() ==> 0 <= (#[trigger] u64_hex_digits(n)[i] as int)
                < 128,
    decreases n,
{
    if n < 16 {
        assert(u64_hex_digits(n)[0] == hex_char_of(n));
    } else {
        lemma_hex_digits_ascii(n / 16);
        let s = u64_hex_digits(n);
        assert forall|i: int| 0 <= i < s.len() implies 0 <= (#[trigger] s[i] as int) < 128 by {
            if i < s.len() - 1 {
                assert(s[i] == u64_hex_digits(n / 16)[i]);
            } else {
                assert(s[i] == hex_char_of(n % 16));
            }
        }
    }
}

/// Encoding then decoding a block height yields the height back: the digit
/// string is well-formed and denotes `n`.
pub proof fn lemma_hex_round_trip(n: int)
    requires
        0 <= n <= u64::MAX,
    ensures
        spec_hex_ok(spec_u64_to_hex(n)),
        spec_hex_value(spec_u64_to_hex(n)) == n,
    decreases n,
{
    lemma_hex_digits_val(n);
    assert(spec_u64_to_hex(n).skip(2) =~= u64_hex_digits(n));
}

proof fn lemma_hex_digits_val(n: int)
    requires
        0 <= n,
    ensures
        u64_hex_digits(n).len() >= 1,
        all_hex_digits(u64_hex_digits(n)),
        hex_seq_val(u64_hex_digits(n)) == n,
    decreases n,
{
    if n < 16 {
        lemma_hex_digit_of_char(n);
        let s = u64_hex_digits(n);
        assert(s =~= seq![hex_char_of(n)]);
        assert(s.drop_last() =~= Seq::<char>::empty());
        assert(s.last() == hex_char_of(n));
        assert(hex_seq_val(s) == hex_seq_val(s.drop_last()) * 16 + hex_digit_val(s.last()));
        assert(hex_seq_val(Seq::<char>::empty()) == 0);
    } else {
        lemma_hex_digits_val(n / 16);
        lemma_hex_digit_of_char(n % 16);
        let s = u64_hex_digits(n);
        assert(s.drop_last() =~= u64_hex_digits(n / 16));
        assert(s.last() == hex_char_of(n % 16));
        assert(hex_seq_val(s) == (n / 16) * 16 + (n % 16));
        assert(forall|i: int| 0 <= i < s.len() ==> is_hex_digit(#[trigger] s[i])) by {
            assert(forall|i: int|
                0 <= i < s.len() - 1 ==> s[i] == #[trigger] u64_hex_digits(n / 16)[i]);
        }
    }
}

} // verus!
