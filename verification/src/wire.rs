use vstd::prelude::*;

use crate::record::RecordView;

verus! {

/// Whether `b` is an ASCII decimal digit.
pub open spec fn is_digit(b: u8) -> bool {
    0x30 <= b && b <= 0x39
}

/// Whether `b` may appear inside a decimal number token.
pub open spec fn is_number_byte(b: u8) -> bool {
    is_digit(b) || b == 0x2d || b == 0x2e
}

/// The first position at or after `i` in `s` that does not hold a digit
/// (or the end of `s` when digits run to the end).
pub open spec fn digits_end(s: Seq<u8>, i: int) -> int
    decreases s.len() - i,
{
    if 0 <= i && i < s.len() && is_digit(s[i]) {
        digits_end(s, i + 1)
    } else {
        i
    }
}

/// The first position at or after `i` in `s` that does not hold a number
/// byte (or the end of `s`).
pub open spec fn number_end(s: Seq<u8>, i: int) -> int
    decreases s.len() - i,
{
    if 0 <= i && i < s.len() && is_number_byte(s[i]) {
        number_end(s, i + 1)
    } else {
        i
    }
}

/// Whether `t` is a decimal number token: an optional leading minus sign,
/// one or more digits, and an optional fraction of a dot followed by one or
/// more digits.
pub open spec fn is_number_token(t: Seq<u8>) -> bool {
    let start: int = if t.len() > 0 && t[0] == 0x2d {
        1
    } else {
        0
    };
    let whole_end = digits_end(t, start);
    &&& whole_end > start
    &&& (whole_end == t.len() || (t[whole_end] == 0x2e && whole_end + 1 < t.len()
        && digits_end(t, whole_end + 1) == t.len()))
}

/// A well-formed record: the temperature bytes are a decimal number token
/// and the description holds no control bytes.
pub open spec fn wf_record(r: RecordView) -> bool {
    &&& is_number_token(r.temperature)
    &&& forall|i: int| 0 <= i < r.description.len() ==> r.description[i] >= 0x20
}

/// All records of the sequence are well formed.
pub open spec fn wf_records(rs: Seq<RecordView>) -> bool {
    forall|i: int| 0 <= i < rs.len() ==> wf_record(#[trigger] rs[i])
}

/// Scans the longest digit run of `s` starting at `i`.
pub fn scan_digits(s: &[u8], i: usize) -> (r: usize)
    requires
        i <= s@.len(),
    ensures
        r == digits_end(s@, i as int),
        i <= r <= s@.len(),
    decreases s@.len() - i,
{
    if i < s.len() && 0x30 <= s[i] && s[i] <= 0x39 {
        scan_digits(s, i + 1)
    } else {
        i
    }
}

/// Scans the longest run of number bytes of `s` starting at `i`.
pub fn scan_number(s: &[u8], i: usize) -> (r: usize)
    requires
        i <= s@.len(),
    ensures
        r == number_end(s@, i as int),
        i <= r <= s@.len(),
    decreases s@.len() - i,
{
    if i < s.len() && (0x30 <= s[i] && s[i] <= 0x39 || s[i] == 0x2d || s[i] == 0x2e) {
        scan_number(s, i + 1)
    } else {
        i
    }
}

/// Decides whether `t` is a decimal number token.
pub fn check_number_token(t: &[u8]) -> (r: bool)
    ensures
        r == is_number_token(t@),
{
    let start: usize = if t.len() > 0 && t[0] == 0x2d {
        1
    } else {
        0
    };
    let whole_end = scan_digits(t, start);
    if whole_end <= start {
        false
    } else if whole_end == t.len() {
        true
    } else if t[whole_end] == 0x2e && whole_end + 1 < t.len() {
        scan_digits(t, whole_end + 1) == t.len()
    } else {
        false
    }
}

} // verus!
