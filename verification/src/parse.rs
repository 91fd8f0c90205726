use vstd::prelude::*;

use crate::encode::key_description;
use crate::encode::key_description_vec;
use crate::encode::key_id;
use crate::encode::key_id_vec;
use crate::encode::key_temperature;
use crate::encode::key_temperature_vec;
use crate::record::RecordView;
use crate::record::WeatherRecord;
use crate::wire::check_number_token;
use crate::wire::digits_end;
use crate::wire::is_number_token;
use crate::wire::number_end;
use crate::wire::scan_digits;
use crate::wire::scan_number;
use vstd::slice::slice_subrange;
use vstd::slice::slice_to_vec;

verus! {

/// The position just past `token` when `s` carries exactly `token` at
/// position `i`, and nothing otherwise.
pub open spec fn spec_expect(s: Seq<u8>, i: int, token: Seq<u8>) -> Option<int> {
    if 0 <= i && i + token.len() <= s.len() && s.subrange(i, i + token.len()) == token {
        Some(i + token.len())
    } else {
        None
    }
}

/// The numeric value of a digit sequence, most significant digit first.
pub open spec fn digits_value(d: Seq<u8>) -> int
    decreases d.len(),
{
    if d.len() == 0 {
        0
    } else {
        digits_value(d.drop_last()) * 10 + (d.last() - 0x30)
    }
}

/// The identifier and the position just past it when `s` carries a digit
/// run at position `i` whose value fits in the identifier's type.
pub open spec fn spec_parse_u64(s: Seq<u8>, i: int) -> Option<(u64, int)> {
    let e = digits_end(s, i);
    if e > i && digits_value(s.subrange(i, e)) <= u64::MAX {
        Some((digits_value(s.subrange(i, e)) as u64, e))
    } else {
        None
    }
}

/// The unescaped content of a quoted string whose opening quote has already
/// been consumed, and the position just past its closing quote. Only the
/// escapes for quote and backslash are understood, and control bytes are
/// refused.
pub open spec fn spec_parse_string(s: Seq<u8>, i: int) -> Option<(Seq<u8>, int)>
    decreases s.len() - i,
{
    if i < 0 || i >= s.len() {
        None
    } else if s[i] == 0x22 {
        Some((Seq::empty(), i + 1))
    } else if s[i] == 0x5c {
        if i + 1 < s.len() && (s[i + 1] == 0x22 || s[i + 1] == 0x5c) {
            match spec_parse_string(s, i + 2) {
                Some(p) => Some((seq![s[i + 1]] + p.0, p.1)),
                None => None,
            }
        } else {
            None
        }
    } else if s[i] >= 0x20 {
        match spec_parse_string(s, i + 1) {
            Some(p) => Some((seq![s[i]] + p.0, p.1)),
            None => None,
        }
    } else {
        None
    }
}

/// One record and the position just past its closing brace, when `s`
/// carries a record at position `i`: the id key, a decimal identifier, the
/// description key, a quoted string, the temperature key, a decimal number
/// token, and the closing brace.
pub open spec fn spec_parse_record(s: Seq<u8>, i: int) -> Option<(RecordView, int)> {
    match spec_expect(s, i, key_id()) {
        None => None,
        Some(j1) => match spec_parse_u64(s, j1) {
            None => None,
            Some((id, j2)) => match spec_expect(s, j2, key_description()) {
                None => None,
                Some(j3) => match spec_parse_string(s, j3) {
                    None => None,
                    Some((description, j4)) => match spec_expect(s, j4, key_temperature()) {
                        None => None,
                        Some(j5) => {
                            let e = number_end(s, j5);
                            let token = s.subrange(j5, e);
                            if is_number_token(token) && e < s.len() && s[e] == 0x7d {
                                Some((RecordView { id, description, temperature: token }, e + 1))
                            } else {
                                None
                            }
                        },
                    },
                },
            },
        },
    }
}

/// One or more comma-separated records starting at position `i`, and the
/// position just past the last of them.
pub open spec fn spec_parse_list(s: Seq<u8>, i: int) -> Option<(Seq<RecordView>, int)>
    decreases s.len() - i,
{
    match spec_parse_record(s, i) {
        None => None,
        Some((record, j)) => {
            if j < s.len() && s[j] == 0x2c {
                if i < j {
                    match spec_parse_list(s, j + 1) {
                        None => None,
                        Some((rest, k)) => Some((seq![record] + rest, k)),
                    }
                } else {
                    None
                }
            } else {
                Some((seq![record], j))
            }
        },
    }
}

/// The sequence of records that `s` carries when `s` is, in its entirety,
/// a bracketed comma-separated list of records, and nothing otherwise.
pub open spec fn spec_parse_records(s: Seq<u8>) -> Option<Seq<RecordView>> {
    if s.len() == 2 && s[0] == 0x5b && s[1] == 0x5d {
        Some(Seq::empty())
    } else if s.len() > 0 && s[0] == 0x5b {
        match spec_parse_list(s, 1) {
            None => None,
            Some((records, j)) => {
                if j + 1 == s.len() && s[j] == 0x5d {
                    Some(records)
                } else {
                    None
                }
            },
        }
    } else {
        None
    }
}

/// Matches the fixed bytes of `token` at position `i`.
fn expect_bytes(s: &[u8], i: usize, token: &[u8]) -> (r: Option<usize>)
    requires
        i <= s@.len(),
    ensures
        match spec_expect(s@, i as int, token@) {
            Some(j) => r matches Some(x) && x == j && i < x <= s@.len() || token@.len() == 0,
            None => r is None,
        },
{
    if s.len() - i < token.len() {
        assert(spec_expect(s@, i as int, token@) is None);
        return None;
    }
    let mut k: usize = 0;
    while k < token.len()
        invariant
            i <= s@.len(),
            s@.len() <= usize::MAX,
            i + token@.len() <= s@.len(),
            k <= token@.len(),
            forall|m: int| 0 <= m < k ==> s@[i + m] == token@[m],
        decreases token@.len() - k,
    {
        if s[i + k] != token[k] {
            proof {
                assert(s@.subrange(i as int, i + token@.len())[k as int] == s@[i + k]);
                assert(s@.subrange(i as int, i + token@.len()) != token@);
            }
            return None;
        }
        k = k + 1;
    }
    proof {
        assert(s@.subrange(i as int, i + token@.len()) =~= token@);
    }
    Some(i + token.len())
}

/// Parses the digit run at position `i` as an identifier, rejecting runs
/// whose value does not fit.
fn parse_u64(s: &[u8], i: usize) -> (r: Option<(u64, usize)>)
    requires
        i <= s@.len(),
    ensures
        match spec_parse_u64(s@, i as int) {
            Some(p) => r matches Some(q) && q.0 == p.0 && q.1 == p.1 && i < q.1 <= s@.len(),
            None => r is None,
        },
{
    let e = scan_digits(s, i);
    if e == i {
        return None;
    }
    proof {
        lemma_digits_end_props(s@, i as int);
    }
    let mut value: u64 = 0;
    let mut overflow: bool = false;
    let mut j: usize = i;
    assert(s@.subrange(i as int, i as int) =~= Seq::<u8>::empty());
    while j < e
        invariant
            i <= j <= e <= s@.len(),
            e == digits_end(s@, i as int),
            forall|k: int| i <= k < e ==> crate::wire::is_digit(s@[k]),
            !overflow ==> value == digits_value(s@.subrange(i as int, j as int)),
            overflow ==> digits_value(s@.subrange(i as int, j as int)) > u64::MAX,
            digits_value(s@.subrange(i as int, j as int)) >= 0,
        decreases e - j,
    {
        let d: u8 = s[j] - 0x30;
        proof {
            let before = s@.subrange(i as int, j as int);
            let after = s@.subrange(i as int, j + 1);
            assert(after.drop_last() =~= before);
            assert(after.last() == s@[j as int]);
            assert(digits_value(after) == digits_value(before) * 10 + (s@[j as int] - 0x30));
        }
        if overflow {
            proof {
                let before = s@.subrange(i as int, j as int);
                assert(digits_value(before) * 10 >= digits_value(before));
            }
        } else {
            match value.checked_mul(10) {
                None => {
                    overflow = true;
                },
                Some(v10) => match v10.checked_add(d as u64) {
                    None => {
                        overflow = true;
                    },
                    Some(v) => {
                        value = v;
                    },
                },
            }
        }
        j = j + 1;
    }
    if overflow {
        None
    } else {
        Some((value, e))
    }
}

/// Properties of a digit run: it stays in bounds, every byte before its end
/// is a digit, and the byte at its end (if any) is not.
pub proof fn lemma_digits_end_props(s: Seq<u8>, i: int)
    requires
        0 <= i <= s.len(),
    ensures
        i <= digits_end(s, i) <= s.len(),
        forall|k: int| i <= k < digits_end(s, i) ==> crate::wire::is_digit(s[k]),
        digits_end(s, i) < s.len() ==> !crate::wire::is_digit(s[digits_end(s, i)]),
    decreases s.len() - i,
{
    if i < s.len() && crate::wire::is_digit(s[i]) {
        lemma_digits_end_props(s, i + 1);
    }
}

/// Properties of a number-byte run, as for `lemma_digits_end_props`.
pub proof fn lemma_number_end_props(s: Seq<u8>, i: int)
    requires
        0 <= i <= s.len(),
    ensures
        i <= number_end(s, i) <= s.len(),
        forall|k: int| i <= k < number_end(s, i) ==> crate::wire::is_number_byte(s[k]),
        number_end(s, i) < s.len() ==> !crate::wire::is_number_byte(s[number_end(s, i)]),
    decreases s.len() - i,
{
    if i < s.len() && crate::wire::is_number_byte(s[i]) {
        lemma_number_end_props(s, i + 1);
    }
}

/// Parses the string content at position `i`, appending the unescaped
/// bytes to `out`.
fn parse_string(s: &[u8], i: usize, out: &mut Vec<u8>) -> (r: Option<usize>)
    requires
        i <= s@.len(),
    ensures
        match spec_parse_string(s@, i as int) {
            Some(p) => r matches Some(j) && j == p.1 && i < j <= s@.len() && final(out)@ == old(
                out,
            )@ + p.0,
            None => r is None,
        },
    decreases s@.len() - i,
{
    if i >= s.len() {
        return None;
    }
    let b = s[i];
    if b == 0x22 {
        assert(out@ =~= out@ + Seq::<u8>::empty());
        Some(i + 1)
    } else if b == 0x5c {
        if i + 1 < s.len() && (s[i + 1] == 0x22 || s[i + 1] == 0x5c) {
            let c = s[i + 1];
            out.push(c);
            match parse_string(s, i + 2, out) {
                Some(j) => {
                    proof {
                        let p = spec_parse_string(s@, i + 2).unwrap();
                        assert(out@ =~= old(out)@ + (seq![c] + p.0));
                    }
                    Some(j)
                },
                None => None,
            }
        } else {
            None
        }
    } else if b >= 0x20 {
        out.push(b);
        match parse_string(s, i + 1, out) {
            Some(j) => {
                proof {
                    let p = spec_parse_string(s@, i + 1).unwrap();
                    assert(out@ =~= old(out)@ + (seq![b] + p.0));
                }
                Some(j)
            },
            None => None,
        }
    } else {
        None
    }
}

/// Parses one record at position `i`.
fn parse_record(s: &[u8], i: usize) -> (r: Option<(WeatherRecord, usize)>)
    requires
        i <= s@.len(),
    ensures
        match spec_parse_record(s@, i as int) {
            Some(p) => r matches Some(q) && q.0@ == p.0 && q.1 == p.1 && i < q.1 <= s@.len(),
            None => r is None,
        },
{
    let token_id = key_id_vec();
    let j1 = match expect_bytes(s, i, token_id.as_slice()) {
        None => {
            return None;
        },
        Some(j) => j,
    };
    let (id, j2) = match parse_u64(s, j1) {
        None => {
            return None;
        },
        Some(p) => p,
    };
    let token_description = key_description_vec();
    let j3 = match expect_bytes(s, j2, token_description.as_slice()) {
        None => {
            return None;
        },
        Some(j) => j,
    };
    let mut description: Vec<u8> = Vec::new();
    let j4 = match parse_string(s, j3, &mut description) {
        None => {
            return None;
        },
        Some(j) => j,
    };
    let token_temperature = key_temperature_vec();
    let j5 = match expect_bytes(s, j4, token_temperature.as_slice()) {
        None => {
            return None;
        },
        Some(j) => j,
    };
    let e = scan_number(s, j5);
    let temperature_token = slice_subrange(s, j5, e);
    if !check_number_token(temperature_token) {
        return None;
    }
    if !(e < s.len()) {
        return None;
    }
    if s[e] != 0x7d {
        return None;
    }
    let record = WeatherRecord { id, description, temperature: slice_to_vec(temperature_token) };
    Some((record, e + 1))
}

/// Parses the comma-separated records at position `i`, appending them to
/// `out`.
fn parse_list(s: &[u8], i: usize, out: &mut Vec<WeatherRecord>) -> (r: Option<usize>)
    requires
        i <= s@.len(),
    ensures
        match spec_parse_list(s@, i as int) {
            Some(p) => r matches Some(j) && j == p.1 && j <= s@.len() && final(out).deep_view()
                == old(out).deep_view() + p.0,
            None => r is None,
        },
    decreases s@.len() - i,
{
    let (record, j) = match parse_record(s, i) {
        None => {
            return None;
        },
        Some(p) => p,
    };
    let ghost prev = out@;
    out.push(record);
    proof {
        lemma_deep_view_push(prev, out@, record);
    }
    if j < s.len() && s[j] == 0x2c {
        match parse_list(s, j + 1, out) {
            None => None,
            Some(k) => {
                proof {
                    let p = spec_parse_list(s@, j + 1).unwrap();
                    let whole = spec_parse_list(s@, i as int).unwrap();
                    assert(out.deep_view() =~= Seq::new(prev.len(), |m: int| prev[m].deep_view())
                        + (seq![record@] + p.0));
                    assert(whole.0 == seq![record@] + p.0);
                }
                Some(k)
            },
        }
    } else {
        proof {
            assert(out.deep_view() =~= Seq::new(prev.len(), |m: int| prev[m].deep_view()) + seq![
                record@,
            ]);
        }
        Some(j)
    }
}

/// After pushing one record, a vector models its old sequence with the new
/// record's model appended.
proof fn lemma_deep_view_push(prev: Seq<WeatherRecord>, cur: Seq<WeatherRecord>, x: WeatherRecord)
    requires
        cur == prev.push(x),
    ensures
        Seq::new(cur.len(), |k: int| cur[k].deep_view()) == Seq::new(
            prev.len(),
            |k: int| prev[k].deep_view(),
        ).push(x@),
{
    let a = Seq::new(cur.len(), |k: int| cur[k].deep_view());
    let b = Seq::new(prev.len(), |k: int| prev[k].deep_view()).push(x@);
    assert forall|k: int| 0 <= k < a.len() implies a[k] == b[k] by {
        if k < prev.len() {
            assert(cur[k] == prev[k]);
        } else {
            assert(cur[k] == x);
        }
    }
    assert(a =~= b);
}

/// Parses a whole response body: the input must be, in its entirety, a
/// bracketed comma-separated list of records. Returns the records the body
/// carries, or nothing when the body is not in the wire format.
pub fn parse_records(input: &[u8]) -> (r: Option<Vec<WeatherRecord>>)
    ensures
        match spec_parse_records(input@) {
            Some(records) => r matches Some(v) && v.deep_view() == records,
            None => r is None,
        },
{
    if input.len() == 2 && input[0] == 0x5b && input[1] == 0x5d {
        let empty: Vec<WeatherRecord> = Vec::new();
        assert(empty.deep_view() =~= Seq::<RecordView>::empty());
        return Some(empty);
    }
    if input.len() == 0 || input[0] != 0x5b {
        return None;
    }
    let mut out: Vec<WeatherRecord> = Vec::new();
    assert(out.deep_view() =~= Seq::<RecordView>::empty());
    match parse_list(input, 1, &mut out) {
        None => None,
        Some(j) => {
            if j == input.len() - 1 && input[j] == 0x5d {
                proof {
                    let p = spec_parse_list(input@, 1).unwrap();
                    assert(out.deep_view() =~= p.0);
                }
                Some(out)
            } else {
                None
            }
        },
    }
}

/// Every byte a parsed string carries is outside the control range.
proof fn lemma_parse_string_wf(s: Seq<u8>, i: int)
    ensures
        spec_parse_string(s, i) matches Some(p) ==> forall|k: int|
            0 <= k < p.0.len() ==> p.0[k] >= 0x20,
    decreases s.len() - i,
{
    if 0 <= i && i < s.len() {
        if s[i] == 0x5c {
            if i + 1 < s.len() {
                lemma_parse_string_wf(s, i + 2);
            }
        } else if s[i] != 0x22 && s[i] >= 0x20 {
            lemma_parse_string_wf(s, i + 1);
        }
    }
}

/// Every record the parser accepts is well formed.
proof fn lemma_parse_record_wf(s: Seq<u8>, i: int)
    ensures
        spec_parse_record(s, i) matches Some(p) ==> crate::wire::wf_record(p.0),
{
    if spec_parse_record(s, i) is Some {
        match spec_expect(s, i, key_id()) {
            None => {},
            Some(j1) => match spec_parse_u64(s, j1) {
                None => {},
                Some((_id, j2)) => match spec_expect(s, j2, key_description()) {
                    None => {},
                    Some(j3) => {
                        lemma_parse_string_wf(s, j3);
                    },
                },
            },
        }
    }
}

/// Every sequence of records the list parser accepts is well formed.
proof fn lemma_parse_list_wf(s: Seq<u8>, i: int)
    ensures
        spec_parse_list(s, i) matches Some(p) ==> crate::wire::wf_records(p.0),
    decreases s.len() - i,
{
    lemma_parse_record_wf(s, i);
    match spec_parse_record(s, i) {
        None => {},
        Some((record, j)) => {
            if j < s.len() && s[j] == 0x2c && i < j {
                lemma_parse_list_wf(s, j + 1);
                if spec_parse_list(s, j + 1) is Some {
                    let rest = spec_parse_list(s, j + 1).unwrap().0;
                    let whole = seq![record] + rest;
                    assert forall|k: int|
                        0 <= k < whole.len() implies crate::wire::wf_record(
                        #[trigger] whole[k],
                    ) by {
                        if k > 0 {
                            assert(whole[k] == rest[k - 1]);
                        }
                    }
                }
            }
        },
    }
}

/// Whatever body the parser accepts carries only well-formed records, so a
/// parsed sequence can always be encoded and parsed again.
pub proof fn lemma_parse_records_wf(s: Seq<u8>)
    ensures
        spec_parse_records(s) matches Some(rs) ==> crate::wire::wf_records(rs),
{
    lemma_parse_list_wf(s, 1);
}

} // verus!
