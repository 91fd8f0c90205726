use vstd::prelude::*;

use crate::encode::escape_byte;
use crate::encode::spec_encode_u64;
use crate::encode::spec_escape;
use crate::parse::spec_parse_string;
use crate::parse::spec_parse_record;
use crate::parse::spec_expect;
use crate::parse::spec_parse_u64;
use crate::encode::spec_encode_record;
use crate::encode::key_id;
use crate::encode::key_description;
use crate::encode::key_temperature;
use crate::record::RecordView;
use crate::wire::wf_record;
use crate::wire::wf_records;
use crate::parse::spec_parse_list;
use crate::parse::spec_parse_records;
use crate::encode::spec_encode_tail;
use crate::encode::spec_encode_records;
use crate::parse::digits_value;
use crate::parse::lemma_digits_end_props;
use crate::wire::digits_end;
use crate::wire::is_digit;
use crate::wire::is_number_byte;
use crate::wire::is_number_token;
use crate::wire::number_end;

verus! {

/// The decimal digits of `n` are a nonempty digit run whose value is `n`.
pub proof fn lemma_encode_u64_digits(n: u64)
    ensures
        spec_encode_u64(n).len() >= 1,
        forall|k: int| 0 <= k < spec_encode_u64(n).len() ==> is_digit(spec_encode_u64(n)[k]),
        digits_value(spec_encode_u64(n)) == n,
    decreases n,
{
    if n < 10 {
        let d = spec_encode_u64(n);
        assert(d.drop_last() =~= Seq::<u8>::empty());
        assert(digits_value(d) == digits_value(d.drop_last()) * 10 + (d.last() - 0x30));
    } else {
        lemma_encode_u64_digits((n / 10) as u64);
        let prefix = spec_encode_u64((n / 10) as u64);
        let d = spec_encode_u64(n);
        assert(d.drop_last() =~= prefix);
        assert(d.last() == (0x30 + n % 10) as u8);
        assert(digits_value(d) == digits_value(prefix) * 10 + (d.last() - 0x30));
        assert(digits_value(d) == (n / 10) * 10 + n % 10);
    }
}

/// A digit run bounded on the right ends exactly at its bound.
pub proof fn lemma_digits_end_region(s: Seq<u8>, i: int, e: int)
    requires
        0 <= i <= e <= s.len(),
        forall|k: int| i <= k < e ==> is_digit(s[k]),
        e == s.len() || !is_digit(s[e]),
    ensures
        digits_end(s, i) == e,
    decreases e - i,
{
    if i < e {
        lemma_digits_end_region(s, i + 1, e);
    }
}

/// A number-byte run bounded on the right ends exactly at its bound.
pub proof fn lemma_number_end_region(s: Seq<u8>, i: int, e: int)
    requires
        0 <= i <= e <= s.len(),
        forall|k: int| i <= k < e ==> is_number_byte(s[k]),
        e == s.len() || !is_number_byte(s[e]),
    ensures
        number_end(s, i) == e,
    decreases e - i,
{
    if i < e {
        lemma_number_end_region(s, i + 1, e);
    }
}

/// Every byte of a decimal number token is a number byte.
pub proof fn lemma_number_token_bytes(t: Seq<u8>)
    requires
        is_number_token(t),
    ensures
        forall|k: int| 0 <= k < t.len() ==> is_number_byte(t[k]),
{
    let start: int = if t.len() > 0 && t[0] == 0x2d {
        1
    } else {
        0
    };
    let whole_end = digits_end(t, start);
    lemma_digits_end_props(t, start);
    if whole_end < t.len() {
        lemma_digits_end_props(t, whole_end + 1);
    }
}

/// Parsing an escaped description followed by its closing quote recovers
/// exactly the description.
pub proof fn lemma_parse_string_escaped(s: Seq<u8>, i: int, d: Seq<u8>)
    requires
        0 <= i,
        i + spec_escape(d).len() + 1 <= s.len(),
        s.subrange(i, i + spec_escape(d).len() + 1) == spec_escape(d) + seq![0x22u8],
        forall|k: int| 0 <= k < d.len() ==> d[k] >= 0x20,
    ensures
        spec_parse_string(s, i) == Some((d, i + spec_escape(d).len() + 1)),
    decreases d.len(),
{
    let esc = spec_escape(d);
    let region = s.subrange(i, i + esc.len() + 1);
    if d.len() == 0 {
        assert(region[0] == s[i]);
        assert(region[0] == (esc + seq![0x22u8])[0]);
        assert(s[i] == 0x22);
    } else {
        let b = d[0];
        let rest = d.skip(1);
        let esc_rest = spec_escape(rest);
        assert(esc == escape_byte(b) + esc_rest);
        assert(forall|k: int| 0 <= k < rest.len() ==> rest[k] >= 0x20);
        if b == 0x22 || b == 0x5c {
            assert(escape_byte(b).len() == 2);
            assert(region[0] == s[i] && region[0] == (esc + seq![0x22u8])[0]);
            assert(s[i] == 0x5c);
            assert(region[1] == s[i + 1] && region[1] == (esc + seq![0x22u8])[1]);
            assert(s[i + 1] == b);
            assert forall|m: int|
                0 <= m < esc_rest.len() + 1 implies s.subrange(
                i + 2,
                i + 2 + esc_rest.len() + 1,
            )[m] == (esc_rest + seq![0x22u8])[m] by {
                assert(s.subrange(i + 2, i + 2 + esc_rest.len() + 1)[m] == s[i + 2 + m]);
                assert(region[2 + m] == s[i + (2 + m)]);
                assert(region[2 + m] == (esc + seq![0x22u8])[2 + m]);
                assert((esc + seq![0x22u8])[2 + m] == (esc_rest + seq![0x22u8])[m]);
            }
            assert(s.subrange(i + 2, i + 2 + esc_rest.len() + 1) =~= esc_rest + seq![0x22u8]);
            lemma_parse_string_escaped(s, i + 2, rest);
            assert(seq![s[i + 1]] + rest =~= d);
        } else {
            assert(escape_byte(b).len() == 1);
            assert(region[0] == s[i] && region[0] == (esc + seq![0x22u8])[0]);
            assert(s[i] == b);
            assert(b >= 0x20 && b != 0x22 && b != 0x5c);
            assert forall|m: int|
                0 <= m < esc_rest.len() + 1 implies s.subrange(
                i + 1,
                i + 1 + esc_rest.len() + 1,
            )[m] == (esc_rest + seq![0x22u8])[m] by {
                assert(s.subrange(i + 1, i + 1 + esc_rest.len() + 1)[m] == s[i + 1 + m]);
                assert(region[1 + m] == s[i + (1 + m)]);
                assert(region[1 + m] == (esc + seq![0x22u8])[1 + m]);
                assert((esc + seq![0x22u8])[1 + m] == (esc_rest + seq![0x22u8])[m]);
            }
            assert(s.subrange(i + 1, i + 1 + esc_rest.len() + 1) =~= esc_rest + seq![0x22u8]);
            lemma_parse_string_escaped(s, i + 1, rest);
            assert(seq![s[i]] + rest =~= d);
        }
    }
}

/// A slice of a region of `s` equals the corresponding slice of the bytes
/// the region carries.
proof fn lemma_subrange_piece(s: Seq<u8>, i: int, whole: Seq<u8>, o: int, piece: Seq<u8>)
    requires
        0 <= i,
        i + whole.len() <= s.len(),
        s.subrange(i, i + whole.len()) == whole,
        0 <= o,
        o + piece.len() <= whole.len(),
        whole.subrange(o, o + piece.len()) == piece,
    ensures
        s.subrange(i + o, i + o + piece.len()) == piece,
{
    assert forall|m: int|
        0 <= m < piece.len() implies s.subrange(i + o, i + o + piece.len())[m] == piece[m] by {
        assert(s.subrange(i + o, i + o + piece.len())[m] == s[i + o + m]);
        assert(s.subrange(i, i + whole.len())[o + m] == s[i + (o + m)]);
        assert(whole.subrange(o, o + piece.len())[m] == whole[o + m]);
    }
    assert(s.subrange(i + o, i + o + piece.len()) =~= piece);
}

/// Parsing the encoding of a well-formed record recovers exactly that
/// record.
pub proof fn lemma_parse_record_encoded(s: Seq<u8>, i: int, r: RecordView)
    requires
        wf_record(r),
        0 <= i,
        i + spec_encode_record(r).len() <= s.len(),
        s.subrange(i, i + spec_encode_record(r).len()) == spec_encode_record(r),
    ensures
        spec_parse_record(s, i) == Some((r, i + spec_encode_record(r).len())),
{
    let enc = spec_encode_record(r);
    let digits = spec_encode_u64(r.id);
    let esc = spec_escape(r.description);
    let n1 = key_id().len() as int;
    let n2 = n1 + digits.len();
    let n3 = n2 + key_description().len();
    let n4 = n3 + esc.len() + 1;
    let n5 = n4 + key_temperature().len();
    let n6 = n5 + r.temperature.len();
    let len = n6 + 1;
    assert(enc.len() == len);
    lemma_encode_u64_digits(r.id);
    lemma_number_token_bytes(r.temperature);

    assert(enc.subrange(0, n1) =~= key_id());
    lemma_subrange_piece(s, i, enc, 0, key_id());
    assert(spec_expect(s, i, key_id()) == Some(i + n1));

    assert(enc.subrange(n1, n2) =~= digits);
    lemma_subrange_piece(s, i, enc, n1, digits);
    assert(enc.subrange(n2, n3) =~= key_description());
    lemma_subrange_piece(s, i, enc, n2, key_description());
    assert forall|k: int| i + n1 <= k < i + n2 implies is_digit(s[k]) by {
        assert(s.subrange(i + n1, i + n1 + digits.len())[k - (i + n1)] == s[k]);
    }
    assert(s.subrange(i + n2, i + n2 + key_description().len())[0] == s[i + n2]);
    assert(s[i + n2] == 0x2c);
    lemma_digits_end_region(s, i + n1, i + n2);
    assert(s.subrange(i + n1, i + n2) == digits);
    assert(digits_value(digits) == r.id);
    assert(spec_parse_u64(s, i + n1) == Some((r.id, i + n2)));

    assert(spec_expect(s, i + n2, key_description()) == Some(i + n3));

    assert(enc.subrange(n3, n4) =~= esc + seq![0x22u8]);
    lemma_subrange_piece(s, i, enc, n3, esc + seq![0x22u8]);
    lemma_parse_string_escaped(s, i + n3, r.description);
    assert(spec_parse_string(s, i + n3) == Some((r.description, i + n4)));

    assert(enc.subrange(n4, n5) =~= key_temperature());
    lemma_subrange_piece(s, i, enc, n4, key_temperature());
    assert(spec_expect(s, i + n4, key_temperature()) == Some(i + n5));

    assert(enc.subrange(n5, n6) =~= r.temperature);
    lemma_subrange_piece(s, i, enc, n5, r.temperature);
    assert(enc.subrange(n6, len) =~= seq![0x7du8]);
    lemma_subrange_piece(s, i, enc, n6, seq![0x7du8]);
    assert forall|k: int| i + n5 <= k < i + n6 implies is_number_byte(s[k]) by {
        assert(s.subrange(i + n5, i + n5 + r.temperature.len())[k - (i + n5)] == s[k]);
    }
    assert(s.subrange(i + n6, i + n6 + 1)[0] == s[i + n6]);
    assert(s[i + n6] == 0x7d);
    assert(!is_number_byte(0x7d));
    lemma_number_end_region(s, i + n5, i + n6);
    assert(s.subrange(i + n5, i + n6) == r.temperature);
    assert(spec_parse_record(s, i) == Some(
        (RecordView { id: r.id, description: r.description, temperature: r.temperature }, i + len),
    ));
    assert(RecordView { id: r.id, description: r.description, temperature: r.temperature } == r);
}

/// Parsing the encoding of one or more well-formed records, laid out as a
/// comma-separated list and followed by the closing bracket, recovers
/// exactly those records.
proof fn lemma_parse_list_encoded(s: Seq<u8>, i: int, rs: Seq<RecordView>)
    requires
        rs.len() >= 1,
        wf_records(rs),
        0 <= i,
        i + (spec_encode_record(rs[0]) + spec_encode_tail(rs.skip(1))).len() < s.len(),
        s.subrange(i, i + (spec_encode_record(rs[0]) + spec_encode_tail(rs.skip(1))).len()) == (
        spec_encode_record(rs[0]) + spec_encode_tail(rs.skip(1))),
        s[i + (spec_encode_record(rs[0]) + spec_encode_tail(rs.skip(1))).len()] == 0x5d,
    ensures
        spec_parse_list(s, i) == Some(
            (rs, i + (spec_encode_record(rs[0]) + spec_encode_tail(rs.skip(1))).len()),
        ),
    decreases rs.len(),
{
    let body = spec_encode_record(rs[0]) + spec_encode_tail(rs.skip(1));
    let enc0 = spec_encode_record(rs[0]);
    let tail = spec_encode_tail(rs.skip(1));
    let l0 = enc0.len() as int;
    assert(l0 >= key_id().len());
    assert(body.subrange(0, l0) =~= enc0);
    lemma_subrange_piece(s, i, body, 0, enc0);
    lemma_parse_record_encoded(s, i, rs[0]);
    let j = i + l0;
    if rs.len() == 1 {
        assert(rs.skip(1) =~= Seq::<RecordView>::empty());
        assert(tail == Seq::<u8>::empty());
        assert(body =~= enc0);
        assert(s[j] == 0x5d);
        assert(spec_parse_list(s, i) == Some((seq![rs[0]], j)));
        assert(seq![rs[0]] =~= rs);
    } else {
        let rest = rs.skip(1);
        assert(rest.len() >= 1);
        assert(tail == seq![0x2cu8] + spec_encode_record(rest[0]) + spec_encode_tail(rest.skip(1)));
        assert(rest[0] == rs[1]);
        assert(rest.skip(1) =~= rs.skip(2));
        let body2 = spec_encode_record(rest[0]) + spec_encode_tail(rest.skip(1));
        assert(tail.len() == 1 + body2.len());
        assert(s.subrange(i, i + body.len())[j - i] == s[j]);
        assert(body[l0] == tail[0]);
        assert(tail[0] == 0x2c);
        assert(s[j] == 0x2c);
        assert forall|k: int| 0 <= k < rest.len() implies wf_record(#[trigger] rest[k]) by {
            assert(rest[k] == rs[k + 1]);
        }
        assert forall|m: int|
            0 <= m < body2.len() implies body.subrange(l0 + 1, l0 + 1 + body2.len())[m]
            == body2[m] by {
            assert(body.subrange(l0 + 1, l0 + 1 + body2.len())[m] == body[l0 + 1 + m]);
            assert(body[l0 + 1 + m] == tail[1 + m]);
            assert(tail[1 + m] == body2[m]);
        }
        assert(body.subrange(l0 + 1, l0 + 1 + body2.len()) =~= body2);
        lemma_subrange_piece(s, i, body, l0 + 1, body2);
        assert(s[j + 1 + body2.len() as int] == 0x5d);
        lemma_parse_list_encoded(s, j + 1, rest);
        assert(spec_parse_list(s, j + 1) == Some((rest, j + 1 + body2.len())));
        assert(spec_parse_list(s, i) == Some((seq![rs[0]] + rest, j + 1 + body2.len())));
        assert(seq![rs[0]] + rest =~= rs);
        assert(j + 1 + body2.len() == i + body.len());
    }
}

/// The encoder and the parser agree: parsing the encoding of any sequence
/// of well-formed records yields exactly that sequence.
pub proof fn lemma_parse_inverts_encode(rs: Seq<RecordView>)
    requires
        wf_records(rs),
    ensures
        spec_parse_records(spec_encode_records(rs)) == Some(rs),
{
    let s = spec_encode_records(rs);
    if rs.len() == 0 {
        assert(s == seq![0x5bu8, 0x5du8]);
        assert(s.len() == 2 && s[0] == 0x5b && s[1] == 0x5d);
        assert(spec_parse_records(s) == Some(Seq::<RecordView>::empty()));
        assert(rs =~= Seq::<RecordView>::empty());
    } else {
        let body = spec_encode_record(rs[0]) + spec_encode_tail(rs.skip(1));
        assert(s =~= seq![0x5bu8] + body + seq![0x5du8]);
        assert(s.len() == 2 + body.len());
        assert(body.len() >= key_id().len());
        assert(s[0] == (seq![0x5bu8] + body + seq![0x5du8])[0]);
        assert(s[0] == 0x5b);
        assert forall|m: int| 0 <= m < body.len() implies s.subrange(1, 1 + body.len() as int)[m]
            == body[m] by {
            assert(s.subrange(1, 1 + body.len() as int)[m] == s[1 + m]);
            assert(s[1 + m] == (seq![0x5bu8] + body + seq![0x5du8])[1 + m]);
        }
        assert(s.subrange(1, 1 + body.len() as int) =~= body);
        assert(s[1 + body.len() as int] == (seq![0x5bu8] + body + seq![0x5du8])[1 + body.len() as int]);
        assert(s[1 + body.len() as int] == 0x5d);
        lemma_parse_list_encoded(s, 1, rs);
        assert(spec_parse_list(s, 1) == Some((rs, 1 + body.len() as int)));
        assert(spec_parse_records(s) == Some(rs));
    }
}

} // verus!

