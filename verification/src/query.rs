//! Upstream query client: request building and response decoding.
//!
//! The request is the JSON-RPC body for the asset-transfer listing method,
//! filtered by starting block and recipient. The response decoder reads the
//! compact-JSON body shape `{"...","result":{"transfers":[...]},...}` into
//! transfer records. Unknown object fields are tolerated when their values
//! are scalars or flat arrays of scalars; required fields are `hash`,
//! `blockNum` (a valid `0x`-hexadecimal height) and `value`, while `from`
//! and `to` default to empty when absent. Anything else is a decode fault.

use vstd::prelude::*;
use vstd::string::*;
use crate::dec::{spec_scaled_ok, spec_scaled_value, scaled_from_digits};
use crate::hex::{spec_hex_ok, spec_u64_to_hex, u64_to_hex};
use crate::record::{
    spec_dec_run, spec_scan_string, wf_record, TransferRecord, TransferRecordV,
};
use crate::text::{chars_eq_str, chars_to_string, spec_expect, expect_lit, to_chars};

verus! {

/// Why a query failed: the transport could not complete, or the response
/// body did not decode.
#[derive(Debug)]
pub enum QueryError {
    /// The outbound call failed; the payload describes the fault.
    Transport(String),
    /// The response body is not in the expected shape; the payload names
    /// what was being read.
    Decode(String),
}

/// The JSON-RPC request body listing transfers from `from_block` (in
/// `0x`-hexadecimal form) to the recipient.
pub open spec fn spec_request_body(recipient: Seq<char>, from_block: int) -> Seq<char> {
    "{\"jsonrpc\":\"2.0\",\"id\":0,\"method\":\"alchemy_getAssetTransfers\",\"params\":[{\"fromBlock\":\""@
        + spec_u64_to_hex(from_block) + "\",\"toAddress\":\""@ + recipient
        + "\",\"category\":[\"external\"]}]}"@
}

/// Builds the outbound JSON-RPC request body.
pub fn build_request_body(recipient: &str, from_block: u64) -> (r: String)
    ensures
        r@ == spec_request_body(recipient@, from_block as int),
{
    let mut out = String::new();
    out.append(
        "{\"jsonrpc\":\"2.0\",\"id\":0,\"method\":\"alchemy_getAssetTransfers\",\"params\":[{\"fromBlock\":\"",
    );
    let hexs = u64_to_hex(from_block);
    out.append(hexs.as_str());
    out.append("\",\"toAddress\":\"");
    out.append(recipient);
    out.append("\",\"category\":[\"external\"]}]}");
    proof {
        assert(out@ =~= spec_request_body(recipient@, from_block as int));
    }
    out
}

/// Index after the number starting at `i` (optional sign, digits, optional
/// fraction), if one is there.
pub open spec fn spec_skip_number(s: Seq<char>, i: int) -> Option<int> {
    if i < 0 || i >= s.len() {
        None
    } else {
        let i1 = if s[i] == '-' {
            i + 1
        } else {
            i
        };
        let (d1, j1) = spec_dec_run(s, i1);
        if d1.len() == 0 {
            None
        } else if j1 < s.len() && s[j1] == '.' {
            let (d2, j2) = spec_dec_run(s, j1 + 1);
            if d2.len() == 0 {
                None
            } else {
                Some(j2)
            }
        } else {
            Some(j1)
        }
    }
}

/// Index after the scalar (string, number, `true`, `false` or `null`)
/// starting at `i`, if one is there.
pub open spec fn spec_skip_scalar(s: Seq<char>, i: int) -> Option<int> {
    if i < 0 || i >= s.len() {
        None
    } else if s[i] == '"' {
        match spec_scan_string(s, i + 1) {
            Some((t, j)) => Some(j),
            None => None,
        }
    } else if s[i] == 't' {
        spec_expect(s, i, "true"@)
    } else if s[i] == 'f' {
        spec_expect(s, i, "false"@)
    } else if s[i] == 'n' {
        spec_expect(s, i, "null"@)
    } else {
        spec_skip_number(s, i)
    }
}

/// Index after the remaining scalar array elements starting at `i` (just
/// after `[` or a comma).
pub open spec fn spec_skip_elems(s: Seq<char>, i: int) -> Option<int>
    decreases s.len() - i,
{
    match spec_skip_scalar(s, i) {
        None => None,
        Some(j) => {
            if j <= i || j >= s.len() {
                None
            } else if s[j] == ',' {
                spec_skip_elems(s, j + 1)
            } else if s[j] == ']' {
                Some(j + 1)
            } else {
                None
            }
        },
    }
}

/// Index after the ignorable value at `i`: a scalar or a flat array of
/// scalars.
pub open spec fn spec_skip_flat(s: Seq<char>, i: int) -> Option<int> {
    if i < 0 || i >= s.len() {
        None
    } else if s[i] == '[' {
        if i + 1 < s.len() && s[i + 1] == ']' {
            Some(i + 2)
        } else {
            spec_skip_elems(s, i + 1)
        }
    } else {
        spec_skip_scalar(s, i)
    }
}

/// The scaled value and the index after the unsigned decimal number at `i`.
pub open spec fn spec_parse_value_num(s: Seq<char>, i: int) -> Option<(u128, int)> {
    let (ip, j1) = spec_dec_run(s, i);
    if ip.len() == 0 {
        None
    } else if j1 < s.len() && s[j1] == '.' {
        let (fp, j2) = spec_dec_run(s, j1 + 1);
        if fp.len() >= 1 && spec_scaled_ok(ip, fp) {
            Some((spec_scaled_value(ip, fp) as u128, j2))
        } else {
            None
        }
    } else if spec_scaled_ok(ip, Seq::empty()) {
        Some((spec_scaled_value(ip, Seq::empty()) as u128, j1))
    } else {
        None
    }
}

/// The record fields of a transfer object read from `i` (just after `{` or
/// a comma), folded over the fields already seen; yields the finished
/// record and the index after `}`.
pub open spec fn spec_parse_tfields(
    s: Seq<char>,
    i: int,
    h: Option<Seq<char>>,
    b: Option<Seq<char>>,
    v: Option<u128>,
    f: Option<Seq<char>>,
    t: Option<Seq<char>>,
) -> Option<(TransferRecordV, int)>
    decreases s.len() - i,
{
    if i < 0 || i >= s.len() || s[i] != '"' {
        None
    } else {
        match spec_scan_string(s, i + 1) {
            None => None,
            Some((key, jk)) => {
                if jk >= s.len() || s[jk] != ':' {
                    None
                } else {
                    let jv = jk + 1;
                    let step: Option<
                        (Option<Seq<char>>, Option<Seq<char>>, Option<u128>, Option<Seq<char>>, Option<Seq<char>>, int),
                    > = if key == "hash"@ {
                        if jv < s.len() && s[jv] == '"' {
                            match spec_scan_string(s, jv + 1) {
                                Some((val, j2)) => Some((Some(val), b, v, f, t, j2)),
                                None => None,
                            }
                        } else {
                            None
                        }
                    } else if key == "blockNum"@ {
                        if jv < s.len() && s[jv] == '"' {
                            match spec_scan_string(s, jv + 1) {
                                Some((val, j2)) => {
                                    if spec_hex_ok(val) {
                                        Some((h, Some(val), v, f, t, j2))
                                    } else {
                                        None
                                    }
                                },
                                None => None,
                            }
                        } else {
                            None
                        }
                    } else if key == "value"@ {
                        match spec_parse_value_num(s, jv) {
                            Some((val, j2)) => Some((h, b, Some(val), f, t, j2)),
                            None => None,
                        }
                    } else if key == "from"@ {
                        if jv < s.len() && s[jv] == '"' {
                            match spec_scan_string(s, jv + 1) {
                                Some((val, j2)) => Some((h, b, v, Some(val), t, j2)),
                                None => None,
                            }
                        } else {
                            None
                        }
                    } else if key == "to"@ {
                        if jv < s.len() && s[jv] == '"' {
                            match spec_scan_string(s, jv + 1) {
                                Some((val, j2)) => Some((h, b, v, f, Some(val), j2)),
                                None => None,
                            }
                        } else {
                            None
                        }
                    } else {
                        match spec_skip_flat(s, jv) {
                            Some(j2) => Some((h, b, v, f, t, j2)),
                            None => None,
                        }
                    };
                    match step {
                        None => None,
                        Some((h2, b2, v2, f2, t2, j2)) => {
                            if j2 <= i || j2 >= s.len() {
                                None
                            } else if s[j2] == ',' {
                                spec_parse_tfields(s, j2 + 1, h2, b2, v2, f2, t2)
                            } else if s[j2] == '}' {
                                match (h2, b2, v2) {
                                    (Some(hash), Some(block), Some(value)) => Some(
                                        (
                                            TransferRecordV {
                                                hash,
                                                block_num: block,
                                                value,
                                                from: match f2 {
                                                    Some(x) => x,
                                                    None => Seq::empty(),
                                                },
                                                to: match t2 {
                                                    Some(x) => x,
                                                    None => Seq::empty(),
                                                },
                                            },
                                            j2 + 1,
                                        ),
                                    ),
                                    _ => None,
                                }
                            } else {
                                None
                            }
                        },
                    }
                }
            },
        }
    }
}

/// One transfer object starting at `i`.
pub open spec fn spec_parse_transfer(s: Seq<char>, i: int) -> Option<(TransferRecordV, int)> {
    if 0 <= i && i < s.len() && s[i] == '{' {
        spec_parse_tfields(s, i + 1, None, None, None, None, None)
    } else {
        None
    }
}

/// The remaining transfer objects starting at `i` (just after `[` or a
/// comma), and the index after `]`.
pub open spec fn spec_parse_telems(s: Seq<char>, i: int) -> Option<(Seq<TransferRecordV>, int)>
    decreases s.len() - i,
{
    match spec_parse_transfer(s, i) {
        None => None,
        Some((rec, j)) => {
            if j <= i || j >= s.len() {
                None
            } else if s[j] == ',' {
                match spec_parse_telems(s, j + 1) {
                    Some((rest, j2)) => Some((seq![rec] + rest, j2)),
                    None => None,
                }
            } else if s[j] == ']' {
                Some((seq![rec], j + 1))
            } else {
                None
            }
        },
    }
}

/// The transfers array starting at `i`.
pub open spec fn spec_parse_tlist(s: Seq<char>, i: int) -> Option<(Seq<TransferRecordV>, int)> {
    if 0 <= i && i < s.len() && s[i] == '[' {
        if i + 1 < s.len() && s[i + 1] == ']' {
            Some((Seq::empty(), i + 2))
        } else {
            spec_parse_telems(s, i + 1)
        }
    } else {
        None
    }
}

/// The fields of the `result` object from `i` (just after `{` or a comma):
/// yields the transfers and the index after `}`. The `transfers` field is
/// required; other fields are skipped.
pub open spec fn spec_parse_rfields(s: Seq<char>, i: int, acc: Option<Seq<TransferRecordV>>) -> Option<
    (Seq<TransferRecordV>, int),
>
    decreases s.len() - i,
{
    if i < 0 || i >= s.len() || s[i] != '"' {
        None
    } else {
        match spec_scan_string(s, i + 1) {
            None => None,
            Some((key, jk)) => {
                if jk >= s.len() || s[jk] != ':' {
                    None
                } else {
                    let jv = jk + 1;
                    let step: Option<(Option<Seq<TransferRecordV>>, int)> = if key == "transfers"@ {
                        match spec_parse_tlist(s, jv) {
                            Some((list, j2)) => Some((Some(list), j2)),
                            None => None,
                        }
                    } else {
                        match spec_skip_flat(s, jv) {
                            Some(j2) => Some((acc, j2)),
                            None => None,
                        }
                    };
                    match step {
                        None => None,
                        Some((acc2, j2)) => {
                            if j2 <= i || j2 >= s.len() {
                                None
                            } else if s[j2] == ',' {
                                spec_parse_rfields(s, j2 + 1, acc2)
                            } else if s[j2] == '}' {
                                match acc2 {
                                    Some(list) => Some((list, j2 + 1)),
                                    None => None,
                                }
                            } else {
                                None
                            }
                        },
                    }
                }
            },
        }
    }
}

/// The fields of the top-level response object from `i`: yields the
/// transfers of its `result` field and the index after `}`. The `result`
/// field is required; other fields are skipped.
pub open spec fn spec_parse_topfields(s: Seq<char>, i: int, acc: Option<Seq<TransferRecordV>>) -> Option<
    (Seq<TransferRecordV>, int),
>
    decreases s.len() - i,
{
    if i < 0 || i >= s.len() || s[i] != '"' {
        None
    } else {
        match spec_scan_string(s, i + 1) {
            None => None,
            Some((key, jk)) => {
                if jk >= s.len() || s[jk] != ':' {
                    None
                } else {
                    let jv = jk + 1;
                    let step: Option<(Option<Seq<TransferRecordV>>, int)> = if key == "result"@ {
                        if jv < s.len() && s[jv] == '{' {
                            match spec_parse_rfields(s, jv + 1, None) {
                                Some((list, j2)) => Some((Some(list), j2)),
                                None => None,
                            }
                        } else {
                            None
                        }
                    } else {
                        match spec_skip_flat(s, jv) {
                            Some(j2) => Some((acc, j2)),
                            None => None,
                        }
                    };
                    match step {
                        None => None,
                        Some((acc2, j2)) => {
                            if j2 <= i || j2 >= s.len() {
                                None
                            } else if s[j2] == ',' {
                                spec_parse_topfields(s, j2 + 1, acc2)
                            } else if s[j2] == '}' {
                                match acc2 {
                                    Some(list) => Some((list, j2 + 1)),
                                    None => None,
                                }
                            } else {
                                None
                            }
                        },
                    }
                }
            },
        }
    }
}

/// The batch of transfer records a response body denotes, if it is in the
/// expected shape.
pub open spec fn spec_decode(s: Seq<char>) -> Option<Seq<TransferRecordV>> {
    if s.len() >= 1 && s[0] == '{' {
        match spec_parse_topfields(s, 1, None) {
            Some((list, j)) => {
                if j == s.len() {
                    Some(list)
                } else {
                    None
                }
            },
            None => None,
        }
    } else {
        None
    }
}


/// The character sequences of an optional field buffer.
pub open spec fn opt_chars(o: Option<Vec<char>>) -> Option<Seq<char>> {
    match o {
        Some(v) => Some(v@),
        None => None,
    }
}

/// The models of a vector of records.
pub open spec fn recs_view(v: Seq<TransferRecord>) -> Seq<TransferRecordV> {
    v.map_values(|x: TransferRecord| x@)
}

/// Skips a number; mirrors [`spec_skip_number`].
fn skip_number(v: &Vec<char>, i: usize) -> (r: Option<usize>)
    requires
        i <= v@.len(),
    ensures
        r is Some <==> spec_skip_number(v@, i as int) is Some,
        r matches Some(j) ==> spec_skip_number(v@, i as int) == Some(j as int) && i < j <= v@.len(),
{
    if i >= v.len() {
        return None;
    }
    let i1 = if v[i] == '-' {
        i + 1
    } else {
        i
    };
    let (d1, j1) = crate::record::dec_run(v, i1);
    if d1.len() == 0 {
        return None;
    }
    if j1 < v.len() && v[j1] == '.' {
        let (d2, j2) = crate::record::dec_run(v, j1 + 1);
        if d2.len() == 0 {
            return None;
        }
        Some(j2)
    } else {
        Some(j1)
    }
}

/// Skips a scalar; mirrors [`spec_skip_scalar`].
fn skip_scalar(v: &Vec<char>, i: usize) -> (r: Option<usize>)
    requires
        i <= v@.len(),
    ensures
        r is Some <==> spec_skip_scalar(v@, i as int) is Some,
        r matches Some(j) ==> spec_skip_scalar(v@, i as int) == Some(j as int) && i < j <= v@.len(),
{
    if i >= v.len() {
        return None;
    }
    if v[i] == '"' {
        match crate::record::scan_string(v, i + 1) {
            Some((_t, j)) => Some(j),
            None => None,
        }
    } else if v[i] == 't' {
        proof {
            reveal_strlit("true");
        }
        expect_lit(v, i, "true")
    } else if v[i] == 'f' {
        proof {
            reveal_strlit("false");
        }
        expect_lit(v, i, "false")
    } else if v[i] == 'n' {
        proof {
            reveal_strlit("null");
        }
        expect_lit(v, i, "null")
    } else {
        skip_number(v, i)
    }
}

/// Skips remaining scalar array elements; mirrors [`spec_skip_elems`].
fn skip_elems(v: &Vec<char>, i: usize) -> (r: Option<usize>)
    requires
        i <= v@.len(),
    ensures
        r is Some <==> spec_skip_elems(v@, i as int) is Some,
        r matches Some(j) ==> spec_skip_elems(v@, i as int) == Some(j as int) && i < j <= v@.len(),
    decreases v@.len() - i,
{
    match skip_scalar(v, i) {
        None => None,
        Some(j) => {
            if j <= i || j >= v.len() {
                None
            } else if v[j] == ',' {
                skip_elems(v, j + 1)
            } else if v[j] == ']' {
                Some(j + 1)
            } else {
                None
            }
        },
    }
}

/// Skips an ignorable value; mirrors [`spec_skip_flat`].
fn skip_flat(v: &Vec<char>, i: usize) -> (r: Option<usize>)
    requires
        i <= v@.len(),
    ensures
        r is Some <==> spec_skip_flat(v@, i as int) is Some,
        r matches Some(j) ==> spec_skip_flat(v@, i as int) == Some(j as int) && i < j <= v@.len(),
{
    if i >= v.len() {
        return None;
    }
    if v[i] == '[' {
        if i + 1 < v.len() && v[i + 1] == ']' {
            Some(i + 2)
        } else {
            skip_elems(v, i + 1)
        }
    } else {
        skip_scalar(v, i)
    }
}

/// Reads the decimal value field; mirrors [`spec_parse_value_num`].
fn parse_value_num(v: &Vec<char>, i: usize) -> (r: Option<(u128, usize)>)
    requires
        i <= v@.len(),
    ensures
        r is Some <==> spec_parse_value_num(v@, i as int) is Some,
        r matches Some((x, j)) ==> spec_parse_value_num(v@, i as int) == Some((x, j as int)) && i
            < j <= v@.len(),
{
    let (ip, j1) = crate::record::dec_run(v, i);
    if ip.len() == 0 {
        return None;
    }
    if j1 < v.len() && v[j1] == '.' {
        let (fp, j2) = crate::record::dec_run(v, j1 + 1);
        if fp.len() == 0 {
            return None;
        }
        match scaled_from_digits(&ip, &fp) {
            Some(x) => Some((x, j2)),
            None => None,
        }
    } else {
        let empty: Vec<char> = Vec::new();
        match scaled_from_digits(&ip, &empty) {
            Some(x) => {
                proof {
                    assert(empty@ =~= Seq::<char>::empty());
                }
                Some((x, j1))
            },
            None => {
                proof {
                    assert(empty@ =~= Seq::<char>::empty());
                }
                None
            },
        }
    }
}

/// Reads the fields of one transfer object; mirrors [`spec_parse_tfields`].
fn parse_tfields(
    v: &Vec<char>,
    i: usize,
    h: Option<Vec<char>>,
    b: Option<Vec<char>>,
    val: Option<u128>,
    f: Option<Vec<char>>,
    t: Option<Vec<char>>,
) -> (r: Option<(TransferRecord, usize)>)
    requires
        i <= v@.len(),
        h matches Some(x) ==> crate::record::plain_str(x@),
        b matches Some(x) ==> spec_hex_ok(x@),
        f matches Some(x) ==> crate::record::plain_str(x@),
        t matches Some(x) ==> crate::record::plain_str(x@),
    ensures
        r is Some <==> spec_parse_tfields(
            v@,
            i as int,
            opt_chars(h),
            opt_chars(b),
            val,
            opt_chars(f),
            opt_chars(t),
        ) is Some,
        r matches Some((rec, j)) ==> spec_parse_tfields(
            v@,
            i as int,
            opt_chars(h),
            opt_chars(b),
            val,
            opt_chars(f),
            opt_chars(t),
        ) == Some((rec@, j as int)) && i < j <= v@.len() && wf_record(rec@),
    decreases v@.len() - i,
{
    if i >= v.len() || v[i] != '"' {
        return None;
    }
    let (key, jk) = match crate::record::scan_string(v, i + 1) {
        Some(p) => p,
        None => {
            return None;
        },
    };
    if jk >= v.len() || v[jk] != ':' {
        return None;
    }
    let jv = jk + 1;
    let mut h2 = h;
    let mut b2 = b;
    let mut val2 = val;
    let mut f2 = f;
    let mut t2 = t;
    let j2: usize;
    if chars_eq_str(&key, "hash") {
        if jv < v.len() && v[jv] == '"' {
            match crate::record::scan_string(v, jv + 1) {
                Some((s2, j)) => {
                    h2 = Some(s2);
                    j2 = j;
                },
                None => {
                    return None;
                },
            }
        } else {
            return None;
        }
    } else if chars_eq_str(&key, "blockNum") {
        if jv < v.len() && v[jv] == '"' {
            match crate::record::scan_string(v, jv + 1) {
                Some((s2, j)) => {
                    match crate::hex::hex_to_u64(chars_to_string(&s2).as_str()) {
                        Some(_) => {},
                        None => {
                            return None;
                        },
                    }
                    b2 = Some(s2);
                    j2 = j;
                },
                None => {
                    return None;
                },
            }
        } else {
            return None;
        }
    } else if chars_eq_str(&key, "value") {
        match parse_value_num(v, jv) {
            Some((x, j)) => {
                val2 = Some(x);
                j2 = j;
            },
            None => {
                return None;
            },
        }
    } else if chars_eq_str(&key, "from") {
        if jv < v.len() && v[jv] == '"' {
            match crate::record::scan_string(v, jv + 1) {
                Some((s2, j)) => {
                    f2 = Some(s2);
                    j2 = j;
                },
                None => {
                    return None;
                },
            }
        } else {
            return None;
        }
    } else if chars_eq_str(&key, "to") {
        if jv < v.len() && v[jv] == '"' {
            match crate::record::scan_string(v, jv + 1) {
                Some((s2, j)) => {
                    t2 = Some(s2);
                    j2 = j;
                },
                None => {
                    return None;
                },
            }
        } else {
            return None;
        }
    } else {
        match skip_flat(v, jv) {
            Some(j) => {
                j2 = j;
            },
            None => {
                return None;
            },
        }
    }
    if j2 <= i || j2 >= v.len() {
        return None;
    }
    if v[j2] == ',' {
        parse_tfields(v, j2 + 1, h2, b2, val2, f2, t2)
    } else if v[j2] == '}' {
        match (h2, b2, val2) {
            (Some(hash), Some(block), Some(value)) => {
                let from_s = match f2 {
                    Some(x) => chars_to_string(&x),
                    None => String::new(),
                };
                let to_s = match t2 {
                    Some(x) => chars_to_string(&x),
                    None => String::new(),
                };
                let rec = TransferRecord {
                    hash: chars_to_string(&hash),
                    block_num: chars_to_string(&block),
                    value,
                    from: from_s,
                    to: to_s,
                };
                Some((rec, j2 + 1))
            },
            _ => None,
        }
    } else {
        None
    }
}

/// Reads one transfer object; mirrors [`spec_parse_transfer`].
fn parse_transfer(v: &Vec<char>, i: usize) -> (r: Option<(TransferRecord, usize)>)
    requires
        i <= v@.len(),
    ensures
        r is Some <==> spec_parse_transfer(v@, i as int) is Some,
        r matches Some((rec, j)) ==> spec_parse_transfer(v@, i as int) == Some((rec@, j as int))
            && i < j <= v@.len() && wf_record(rec@),
{
    if i < v.len() && v[i] == '{' {
        parse_tfields(v, i + 1, None, None, None, None, None)
    } else {
        None
    }
}

/// Reads the remaining transfer objects; mirrors [`spec_parse_telems`].
fn parse_telems(v: &Vec<char>, i: usize) -> (r: Option<(Vec<TransferRecord>, usize)>)
    requires
        i <= v@.len(),
    ensures
        r is Some <==> spec_parse_telems(v@, i as int) is Some,
        r matches Some((list, j)) ==> spec_parse_telems(v@, i as int) == Some(
            (recs_view(list@), j as int),
        ) && i < j <= v@.len() && (forall|k: int|
            0 <= k < list@.len() ==> wf_record(#[trigger] recs_view(list@)[k])),
    decreases v@.len() - i,
{
    match parse_transfer(v, i) {
        None => None,
        Some((rec, j)) => {
            if j <= i || j >= v.len() {
                None
            } else if v[j] == ',' {
                match parse_telems(v, j + 1) {
                    Some((rest, j2)) => {
                        let ghost rest0 = rest@;
                        let mut list = rest;
                        list.insert(0, rec);
                        proof {
                            assert(recs_view(list@) =~= seq![rec@] + recs_view(rest0));
                        }
                        Some((list, j2))
                    },
                    None => None,
                }
            } else if v[j] == ']' {
                let mut list: Vec<TransferRecord> = Vec::new();
                list.push(rec);
                proof {
                    assert(recs_view(list@) =~= seq![rec@]);
                }
                Some((list, j + 1))
            } else {
                None
            }
        },
    }
}

/// Reads the transfers array; mirrors [`spec_parse_tlist`].
fn parse_tlist(v: &Vec<char>, i: usize) -> (r: Option<(Vec<TransferRecord>, usize)>)
    requires
        i <= v@.len(),
    ensures
        r is Some <==> spec_parse_tlist(v@, i as int) is Some,
        r matches Some((list, j)) ==> spec_parse_tlist(v@, i as int) == Some(
            (recs_view(list@), j as int),
        ) && i < j <= v@.len() && (forall|k: int|
            0 <= k < list@.len() ==> wf_record(#[trigger] recs_view(list@)[k])),
{
    if i < v.len() && v[i] == '[' {
        if i + 1 < v.len() && v[i + 1] == ']' {
            let list: Vec<TransferRecord> = Vec::new();
            proof {
                assert(recs_view(list@) =~= Seq::<TransferRecordV>::empty());
            }
            Some((list, i + 2))
        } else {
            parse_telems(v, i + 1)
        }
    } else {
        None
    }
}

/// Reads the `result` object's fields; mirrors [`spec_parse_rfields`].
fn parse_rfields(v: &Vec<char>, i: usize, acc: Option<Vec<TransferRecord>>) -> (r: Option<
    (Vec<TransferRecord>, usize),
>)
    requires
        i <= v@.len(),
        acc matches Some(list) ==> forall|k: int|
            0 <= k < list@.len() ==> wf_record(#[trigger] recs_view(list@)[k]),
    ensures
        r is Some <==> spec_parse_rfields(v@, i as int, opt_recs(acc)) is Some,
        r matches Some((list, j)) ==> spec_parse_rfields(v@, i as int, opt_recs(acc)) == Some(
            (recs_view(list@), j as int),
        ) && i < j <= v@.len() && (forall|k: int|
            0 <= k < list@.len() ==> wf_record(#[trigger] recs_view(list@)[k])),
    decreases v@.len() - i,
{
    if i >= v.len() || v[i] != '"' {
        return None;
    }
    let (key, jk) = match crate::record::scan_string(v, i + 1) {
        Some(p) => p,
        None => {
            return None;
        },
    };
    if jk >= v.len() || v[jk] != ':' {
        return None;
    }
    let jv = jk + 1;
    let mut acc2 = acc;
    let j2: usize;
    if chars_eq_str(&key, "transfers") {
        match parse_tlist(v, jv) {
            Some((list, j)) => {
                acc2 = Some(list);
                j2 = j;
            },
            None => {
                return None;
            },
        }
    } else {
        match skip_flat(v, jv) {
            Some(j) => {
                j2 = j;
            },
            None => {
                return None;
            },
        }
    }
    if j2 <= i || j2 >= v.len() {
        return None;
    }
    if v[j2] == ',' {
        parse_rfields(v, j2 + 1, acc2)
    } else if v[j2] == '}' {
        match acc2 {
            Some(list) => Some((list, j2 + 1)),
            None => None,
        }
    } else {
        None
    }
}

/// The record models of an optional accumulated list.
pub open spec fn opt_recs(o: Option<Vec<TransferRecord>>) -> Option<Seq<TransferRecordV>> {
    match o {
        Some(v) => Some(recs_view(v@)),
        None => None,
    }
}

/// Reads the top-level response object's fields; mirrors
/// [`spec_parse_topfields`].
fn parse_topfields(v: &Vec<char>, i: usize, acc: Option<Vec<TransferRecord>>) -> (r: Option<
    (Vec<TransferRecord>, usize),
>)
    requires
        i <= v@.len(),
        acc matches Some(list) ==> forall|k: int|
            0 <= k < list@.len() ==> wf_record(#[trigger] recs_view(list@)[k]),
    ensures
        r is Some <==> spec_parse_topfields(v@, i as int, opt_recs(acc)) is Some,
        r matches Some((list, j)) ==> spec_parse_topfields(v@, i as int, opt_recs(acc)) == Some(
            (recs_view(list@), j as int),
        ) && i < j <= v@.len() && (forall|k: int|
            0 <= k < list@.len() ==> wf_record(#[trigger] recs_view(list@)[k])),
    decreases v@.len() - i,
{
    if i >= v.len() || v[i] != '"' {
        return None;
    }
    let (key, jk) = match crate::record::scan_string(v, i + 1) {
        Some(p) => p,
        None => {
            return None;
        },
    };
    if jk >= v.len() || v[jk] != ':' {
        return None;
    }
    let jv = jk + 1;
    let mut acc2 = acc;
    let j2: usize;
    if chars_eq_str(&key, "result") {
        if jv < v.len() && v[jv] == '{' {
            match parse_rfields(v, jv + 1, None) {
                Some((list, j)) => {
                    acc2 = Some(list);
                    j2 = j;
                },
                None => {
                    return None;
                },
            }
        } else {
            return None;
        }
    } else {
        match skip_flat(v, jv) {
            Some(j) => {
                j2 = j;
            },
            None => {
                return None;
            },
        }
    }
    if j2 <= i || j2 >= v.len() {
        return None;
    }
    if v[j2] == ',' {
        parse_topfields(v, j2 + 1, acc2)
    } else if v[j2] == '}' {
        match acc2 {
            Some(list) => Some((list, j2 + 1)),
            None => None,
        }
    } else {
        None
    }
}

/// Decodes a response body into its batch of transfer records.
///
/// Succeeds exactly on bodies in the expected shape, and then yields the
/// records the body denotes, all well-formed; otherwise the decode fault
/// names the part of the response being read.
pub fn decode_transfers_response(body: &str) -> (r: Result<Vec<TransferRecord>, QueryError>)
    ensures
        r is Ok <==> spec_decode(body@) is Some,
        r matches Ok(list) ==> spec_decode(body@) == Some(recs_view(list@)) && (forall|k: int|
            0 <= k < list@.len() ==> wf_record(#[trigger] recs_view(list@)[k])),
        r is Err ==> r->Err_0 is Decode,
{
    let v = to_chars(body);
    if v.len() < 1 || v[0] != '{' {
        return Err(QueryError::Decode(String::from_str("result.transfers")));
    }
    match parse_topfields(&v, 1, None) {
        Some((list, j)) => {
            if j == v.len() {
                Ok(list)
            } else {
                Err(QueryError::Decode(String::from_str("result.transfers")))
            }
        },
        None => Err(QueryError::Decode(String::from_str("result.transfers"))),
    }
}

} // verus!
