//! The transfer record model and its canonical string form.
//!
//! One record describes one observed transfer: transaction hash, block
//! height (in the upstream's `0x`-hexadecimal form), transferred value in
//! smallest units, and the participant addresses. The canonical string form
//! is what the durable store holds; serializing and parsing it round-trips.

use vstd::prelude::*;
use vstd::string::*;
use crate::dec::{
    all_dec_digits, dec_seq_val, is_dec_digit, lemma_dec_round_trip, lemma_dec_seq_val_nonneg,
    u128_dec_digits, u128_to_dec_chars, dec_seq_to_u128,
};
use crate::hex::{is_hex_digit, spec_hex_ok};
use crate::text::{chars_to_string, expect_lit, spec_expect, to_chars};

verus! {

/// One observed transfer.
pub struct TransferRecord {
    /// Transaction hash: the primary key.
    pub hash: String,
    /// Block height in `0x`-hexadecimal form.
    pub block_num: String,
    /// Transferred amount in smallest units (eighteen decimal places).
    pub value: u128,
    /// Sender address.
    pub from: String,
    /// Recipient address.
    pub to: String,
}

/// Mathematical model of a record.
pub ghost struct TransferRecordV {
    pub hash: Seq<char>,
    pub block_num: Seq<char>,
    pub value: u128,
    pub from: Seq<char>,
    pub to: Seq<char>,
}

impl View for TransferRecord {
    type V = TransferRecordV;

    open spec fn view(&self) -> TransferRecordV {
        TransferRecordV {
            hash: self.hash@,
            block_num: self.block_num@,
            value: self.value,
            from: self.from@,
            to: self.to@,
        }
    }
}

/// A string field that can stand between quotes unescaped.
pub open spec fn plain_str(s: Seq<char>) -> bool {
    forall|i: int| 0 <= i < s.len() ==> #[trigger] s[i] != '"' && s[i] != '\\'
}

/// A well-formed record: plain string fields and a valid block height.
pub open spec fn wf_record(r: TransferRecordV) -> bool {
    plain_str(r.hash) && plain_str(r.from) && plain_str(r.to) && spec_hex_ok(r.block_num)
}

/// The digits of a well-formed block height are never quotes or escapes.
pub proof fn lemma_hex_ok_plain(s: Seq<char>)
    requires
        spec_hex_ok(s),
    ensures
        plain_str(s),
{
    assert forall|i: int| 0 <= i < s.len() implies #[trigger] s[i] != '"' && s[i] != '\\' by {
        if i >= 2 {
            assert(is_hex_digit(s.skip(2)[i - 2]));
            assert(s.skip(2)[i - 2] == s[i]);
        }
    }
}

/// Canonical serialized form of a record.
pub open spec fn spec_ser_record(r: TransferRecordV) -> Seq<char> {
    "{\"hash\":\""@ + r.hash + "\""@ + ",\"blockNum\":\""@ + r.block_num + "\""@ + ",\"from\":\""@
        + r.from + "\""@ + ",\"to\":\""@ + r.to + "\""@ + ",\"value\":"@ + u128_dec_digits(
        r.value as int,
    ) + "}"@
}

/// Serializes a record into its canonical string form.
pub fn record_to_string(r: &TransferRecord) -> (s: String)
    ensures
        s@ == spec_ser_record(r@),
{
    let mut out = String::new();
    out.append("{\"hash\":\"");
    out.append(r.hash.as_str());
    out.append("\"");
    out.append(",\"blockNum\":\"");
    out.append(r.block_num.as_str());
    out.append("\"");
    out.append(",\"from\":\"");
    out.append(r.from.as_str());
    out.append("\"");
    out.append(",\"to\":\"");
    out.append(r.to.as_str());
    out.append("\"");
    out.append(",\"value\":");
    let digits = u128_to_dec_chars(r.value);
    let dstr = chars_to_string(&digits);
    out.append(dstr.as_str());
    out.append("}");
    proof {
        assert(out@ =~= spec_ser_record(r@));
    }
    out
}

/// Scanning a quoted string body from `i`: its content (escape-free) and
/// the index after the closing quote.
pub open spec fn spec_scan_string(s: Seq<char>, i: int) -> Option<(Seq<char>, int)>
    decreases s.len() - i,
{
    if i < 0 || i >= s.len() {
        None
    } else if s[i] == '"' {
        Some((Seq::empty(), i + 1))
    } else if s[i] == '\\' {
        None
    } else {
        match spec_scan_string(s, i + 1) {
            Some((t, j)) => Some((seq![s[i]] + t, j)),
            None => None,
        }
    }
}

/// The run of decimal digits starting at `i` and the index after it.
pub open spec fn spec_dec_run(s: Seq<char>, i: int) -> (Seq<char>, int)
    decreases s.len() - i,
{
    if i < 0 || i >= s.len() || !is_dec_digit(s[i]) {
        (Seq::empty(), i)
    } else {
        let (t, j) = spec_dec_run(s, i + 1);
        (seq![s[i]] + t, j)
    }
}

/// Parse of the canonical record form. Yields a record exactly when the
/// whole string is a canonical serialization.
pub open spec fn spec_parse_record(s: Seq<char>) -> Option<TransferRecordV> {
    match spec_expect(s, 0, "{\"hash\":\""@) {
        None => None,
        Some(i0) => match spec_scan_string(s, i0) {
            None => None,
            Some((hash, i1)) => match spec_expect(s, i1, ",\"blockNum\":\""@) {
                None => None,
                Some(i2) => match spec_scan_string(s, i2) {
                    None => None,
                    Some((block, i3)) => match spec_expect(s, i3, ",\"from\":\""@) {
                        None => None,
                        Some(i4) => match spec_scan_string(s, i4) {
                            None => None,
                            Some((from, i5)) => match spec_expect(s, i5, ",\"to\":\""@) {
                                None => None,
                                Some(i6) => match spec_scan_string(s, i6) {
                                    None => None,
                                    Some((to, i7)) => match spec_expect(s, i7, ",\"value\":"@) {
                                        None => None,
                                        Some(i8) => {
                                            let (digits, i9) = spec_dec_run(s, i8);
                                            if digits.len() >= 1 && dec_seq_val(digits)
                                                <= u128::MAX && i9 + 1 == s.len() && s[i9] == '}' {
                                                Some(
                                                    TransferRecordV {
                                                        hash,
                                                        block_num: block,
                                                        value: dec_seq_val(digits) as u128,
                                                        from,
                                                        to,
                                                    },
                                                )
                                            } else {
                                                None
                                            }
                                        },
                                    },
                                },
                            },
                        },
                    },
                },
            },
        },
    }
}

/// Scans a quoted string body; mirrors [`spec_scan_string`].
pub fn scan_string(v: &Vec<char>, i: usize) -> (r: Option<(Vec<char>, usize)>)
    requires
        i <= v@.len(),
    ensures
        r is Some <==> spec_scan_string(v@, i as int) is Some,
        r matches Some((t, j)) ==> spec_scan_string(v@, i as int) == Some((t@, j as int)) && i < j
            <= v@.len() && plain_str(t@),
    decreases v@.len() - i,
{
    if i >= v.len() {
        None
    } else if v[i] == '"' {
        Some((Vec::new(), i + 1))
    } else if v[i] == '\\' {
        None
    } else {
        match scan_string(v, i + 1) {
            Some((t, j)) => {
                let mut t2 = t;
                t2.insert(0, v[i]);
                proof {
                    assert(t2@ =~= seq![v@[i as int]] + spec_scan_string(v@, i + 1)->Some_0.0);
                }
                Some((t2, j))
            },
            None => None,
        }
    }
}

/// Collects the digit run at `i`; mirrors [`spec_dec_run`].
pub fn dec_run(v: &Vec<char>, i: usize) -> (r: (Vec<char>, usize))
    requires
        i <= v@.len(),
    ensures
        spec_dec_run(v@, i as int) == (r.0@, r.1 as int),
        i <= r.1 <= v@.len(),
        r.1 as int == i + r.0@.len(),
    decreases v@.len() - i,
{
    if i >= v.len() || !('0' <= v[i] && v[i] <= '9') {
        proof {
            if i < v@.len() {
                assert(!is_dec_digit(v@[i as int]));
            }
        }
        (Vec::new(), i)
    } else {
        let (t, j) = dec_run(v, i + 1);
        let mut t2 = t;
        t2.insert(0, v[i]);
        proof {
            assert(is_dec_digit(v@[i as int]));
            assert(t2@ =~= seq![v@[i as int]] + spec_dec_run(v@, i + 1).0);
        }
        (t2, j)
    }
}

/// Parses the canonical record form; mirrors [`spec_parse_record`].
pub fn record_from_string(s: &str) -> (r: Option<TransferRecord>)
    ensures
        r is Some <==> spec_parse_record(s@) is Some,
        r matches Some(rec) ==> spec_parse_record(s@) == Some(rec@),
{
    let v = to_chars(s);
    let i0 = match expect_lit(&v, 0, "{\"hash\":\"") {
        Some(i) => i,
        None => {
            return None;
        },
    };
    let (hash, i1) = match scan_string(&v, i0) {
        Some(p) => p,
        None => {
            return None;
        },
    };
    let i2 = match expect_lit(&v, i1, ",\"blockNum\":\"") {
        Some(i) => i,
        None => {
            return None;
        },
    };
    let (block, i3) = match scan_string(&v, i2) {
        Some(p) => p,
        None => {
            return None;
        },
    };
    let i4 = match expect_lit(&v, i3, ",\"from\":\"") {
        Some(i) => i,
        None => {
            return None;
        },
    };
    let (from, i5) = match scan_string(&v, i4) {
        Some(p) => p,
        None => {
            return None;
        },
    };
    let i6 = match expect_lit(&v, i5, ",\"to\":\"") {
        Some(i) => i,
        None => {
            return None;
        },
    };
    let (to, i7) = match scan_string(&v, i6) {
        Some(p) => p,
        None => {
            return None;
        },
    };
    let i8 = match expect_lit(&v, i7, ",\"value\":") {
        Some(i) => i,
        None => {
            return None;
        },
    };
    let (digits, i9) = dec_run(&v, i8);
    let value = match dec_seq_to_u128(&digits) {
        Some(x) => x,
        None => {
            proof {
                lemma_dec_run_digits(v@, i8 as int);
            }
            return None;
        },
    };
    if !(i9 < v.len() && i9 + 1 == v.len() && v[i9] == '}') {
        return None;
    }
    Some(
        TransferRecord {
            hash: chars_to_string(&hash),
            block_num: chars_to_string(&block),
            value,
            from: chars_to_string(&from),
            to: chars_to_string(&to),
        },
    )
}

/// A digit run consists of decimal digits.
proof fn lemma_dec_run_digits(s: Seq<char>, i: int)
    ensures
        all_dec_digits(spec_dec_run(s, i).0),
    decreases s.len() - i,
{
    if i < 0 || i >= s.len() || !is_dec_digit(s[i]) {
    } else {
        lemma_dec_run_digits(s, i + 1);
        let t = spec_dec_run(s, i + 1).0;
        let t2 = spec_dec_run(s, i).0;
        assert(t2 == seq![s[i]] + t);
        assert forall|k: int| 0 <= k < t2.len() implies is_dec_digit(#[trigger] t2[k]) by {
            if k == 0 {
                assert(t2[0] == s[i]);
            } else {
                assert(t2[k] == t[k - 1]);
            }
        }
    }
}

/// Expecting a fixed text inside a known decomposition succeeds.
proof fn lemma_expect_concat(s: Seq<char>, pre: Seq<char>, t: Seq<char>, rest: Seq<char>)
    requires
        s == pre + t + rest,
    ensures
        spec_expect(s, pre.len() as int, t) == Some((pre.len() + t.len()) as int),
{
    assert(s.subrange(pre.len() as int, (pre.len() + t.len()) as int) =~= t);
}

/// Scanning inside a known decomposition finds exactly the content.
proof fn lemma_scan_concat(s: Seq<char>, pre: Seq<char>, content: Seq<char>, rest: Seq<char>)
    requires
        s == pre + content + "\""@ + rest,
        plain_str(content),
    ensures
        spec_scan_string(s, pre.len() as int) == Some(
            (content, (pre.len() + content.len() + 1) as int),
        ),
    decreases content.len(),
{
    reveal_strlit("\"");
    let i = pre.len() as int;
    if content.len() == 0 {
        assert(s[i] == '"');
    } else {
        assert(s[i] == content[0]);
        assert(content[0] != '"' && content[0] != '\\');
        let pre2 = pre + seq![content[0]];
        let content2 = content.skip(1);
        assert(plain_str(content2)) by {
            assert(forall|k: int|
                0 <= k < content2.len() ==> #[trigger] content2[k] == content[k + 1]);
        }
        assert(s =~= pre2 + content2 + "\""@ + rest);
        lemma_scan_concat(s, pre2, content2, rest);
        assert(spec_scan_string(s, i + 1) == Some(
            (content2, (pre2.len() + content2.len() + 1) as int),
        ));
        assert(seq![s[i]] + content2 =~= content);
    }
}

/// A digit run inside a known decomposition is read off whole when what
/// follows is not a digit.
proof fn lemma_dec_run_concat(s: Seq<char>, pre: Seq<char>, digits: Seq<char>, rest: Seq<char>)
    requires
        s == pre + digits + rest,
        all_dec_digits(digits),
        rest.len() > 0,
        !is_dec_digit(rest[0]),
    ensures
        spec_dec_run(s, pre.len() as int) == (digits, (pre.len() + digits.len()) as int),
    decreases digits.len(),
{
    let i = pre.len() as int;
    if digits.len() == 0 {
        assert(s[i] == rest[0]);
    } else {
        assert(s[i] == digits[0]);
        assert(is_dec_digit(digits[0]));
        let pre2 = pre + seq![digits[0]];
        let digits2 = digits.skip(1);
        assert(all_dec_digits(digits2)) by {
            assert(forall|k: int| 0 <= k < digits2.len() ==> #[trigger] digits2[k] == digits[k + 1]);
        }
        assert(s =~= pre2 + digits2 + rest);
        lemma_dec_run_concat(s, pre2, digits2, rest);
        assert(seq![s[i]] + digits2 =~= digits);
    }
}

/// First half of the round-trip argument: the opening literal, the hash
/// and the block height are read back at their places.
#[verifier::rlimit(100)]
#[verifier::spinoff_prover]
proof fn lemma_round_trip_head(r: TransferRecordV)
    requires
        wf_record(r),
    ensures
        ({
            let s = spec_ser_record(r);
            let la = "{\"hash\":\""@;
            let lb = ",\"blockNum\":\""@;
            let a0 = la.len() as int;
            let a1 = a0 + r.hash.len() + 1;
            let a2 = a1 + lb.len();
            let a3 = a2 + r.block_num.len() + 1;
            spec_expect(s, 0, la) == Some(a0) && spec_scan_string(s, a0) == Some((r.hash, a1))
                && spec_expect(s, a1, lb) == Some(a2) && spec_scan_string(s, a2) == Some(
                (r.block_num, a3),
            )
        }),
{
    let s = spec_ser_record(r);
    let la = "{\"hash\":\""@;
    let q = "\""@;
    let lb = ",\"blockNum\":\""@;
    let lc = ",\"from\":\""@;
    let ld = ",\"to\":\""@;
    let le = ",\"value\":"@;
    let rb = "}"@;
    let h = r.hash;
    let b = r.block_num;
    let f = r.from;
    let t = r.to;
    let d = u128_dec_digits(r.value as int);
    lemma_hex_ok_plain(b);
    reveal_strlit("\"");

    let rest_a = h + q + lb + b + q + lc + f + q + ld + t + q + le + d + rb;
    assert(s =~= Seq::<char>::empty() + la + rest_a);
    lemma_expect_concat(s, Seq::empty(), la, rest_a);

    let rest_b = lb + b + q + lc + f + q + ld + t + q + le + d + rb;
    assert(s =~= la + h + q + rest_b);
    lemma_scan_concat(s, la, h, rest_b);

    let pre2 = la + h + q;
    let rest_c = b + q + lc + f + q + ld + t + q + le + d + rb;
    assert(s =~= pre2 + lb + rest_c);
    lemma_expect_concat(s, pre2, lb, rest_c);

    let pre3 = pre2 + lb;
    let rest_d = lc + f + q + ld + t + q + le + d + rb;
    assert(s =~= pre3 + b + q + rest_d);
    lemma_scan_concat(s, pre3, b, rest_d);
}

/// Second half of the round-trip argument: the addresses, the value digits
/// and the closing brace are read back at their places.
#[verifier::rlimit(100)]
#[verifier::spinoff_prover]
proof fn lemma_round_trip_tail(r: TransferRecordV)
    requires
        wf_record(r),
    ensures
        ({
            let s = spec_ser_record(r);
            let la = "{\"hash\":\""@;
            let lb = ",\"blockNum\":\""@;
            let lc = ",\"from\":\""@;
            let ld = ",\"to\":\""@;
            let le = ",\"value\":"@;
            let d = u128_dec_digits(r.value as int);
            let a3 = la.len() + r.hash.len() + 1 + lb.len() + r.block_num.len() + 1;
            let a4 = a3 + lc.len();
            let a5 = a4 + r.from.len() + 1;
            let a6 = a5 + ld.len();
            let a7 = a6 + r.to.len() + 1;
            let a8 = a7 + le.len();
            let a9 = a8 + d.len();
            spec_expect(s, a3 as int, lc) == Some(a4 as int) && spec_scan_string(s, a4 as int)
                == Some((r.from, a5 as int)) && spec_expect(s, a5 as int, ld) == Some(a6 as int)
                && spec_scan_string(s, a6 as int) == Some((r.to, a7 as int)) && spec_expect(
                s,
                a7 as int,
                le,
            ) == Some(a8 as int) && spec_dec_run(s, a8 as int) == (d, a9 as int) && a9 + 1
                == s.len() && s[a9 as int] == '}'
        }),
{
    let s = spec_ser_record(r);
    let la = "{\"hash\":\""@;
    let q = "\""@;
    let lb = ",\"blockNum\":\""@;
    let lc = ",\"from\":\""@;
    let ld = ",\"to\":\""@;
    let le = ",\"value\":"@;
    let rb = "}"@;
    let h = r.hash;
    let b = r.block_num;
    let f = r.from;
    let t = r.to;
    let d = u128_dec_digits(r.value as int);
    lemma_dec_round_trip(r.value as int);
    reveal_strlit("\"");
    reveal_strlit("}");

    let pre4 = la + h + q + lb + b + q;
    let rest_e = f + q + ld + t + q + le + d + rb;
    assert(s =~= pre4 + lc + rest_e);
    lemma_expect_concat(s, pre4, lc, rest_e);

    let pre5 = pre4 + lc;
    let rest_f = ld + t + q + le + d + rb;
    assert(s =~= pre5 + f + q + rest_f);
    lemma_scan_concat(s, pre5, f, rest_f);

    let pre6 = pre5 + f + q;
    let rest_g = t + q + le + d + rb;
    assert(s =~= pre6 + ld + rest_g);
    lemma_expect_concat(s, pre6, ld, rest_g);

    let pre7 = pre6 + ld;
    let rest_h = le + d + rb;
    assert(s =~= pre7 + t + q + rest_h);
    lemma_scan_concat(s, pre7, t, rest_h);

    let pre8 = pre7 + t + q;
    let rest_i = d + rb;
    assert(s =~= pre8 + le + rest_i);
    lemma_expect_concat(s, pre8, le, rest_i);

    let pre9 = pre8 + le;
    assert(s =~= pre9 + d + rb);
    assert(!is_dec_digit(rb[0]));
    lemma_dec_run_concat(s, pre9, d, rb);

    let a9 = pre9.len() + d.len();
    assert(s[a9 as int] == rb[0]);
    assert(a9 + 1 == s.len());
}

/// A serialized record parses back to the record it came from: the
/// canonical form round-trips.
#[verifier::rlimit(100)]
#[verifier::spinoff_prover]
pub proof fn lemma_record_round_trip(r: TransferRecordV)
    requires
        wf_record(r),
    ensures
        spec_parse_record(spec_ser_record(r)) == Some(r),
{
    let s = spec_ser_record(r);
    let d = u128_dec_digits(r.value as int);
    lemma_round_trip_head(r);
    lemma_round_trip_tail(r);
    lemma_dec_round_trip(r.value as int);
    lemma_dec_seq_val_nonneg(d);
    assert(spec_parse_record(s) == Some(r));
}

} // verus!
