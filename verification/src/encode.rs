use vstd::prelude::*;

use crate::record::RecordView;
use crate::record::WeatherRecord;

verus! {

/// The bytes that open a record and name its identifier field: `{"id":`.
pub open spec fn key_id() -> Seq<u8> {
    seq![0x7bu8, 0x22u8, 0x69u8, 0x64u8, 0x22u8, 0x3au8]
}

/// The bytes between the identifier and the description: `,"description":"`.
pub open spec fn key_description() -> Seq<u8> {
    seq![
        0x2cu8, 0x22u8, 0x64u8, 0x65u8, 0x73u8, 0x63u8, 0x72u8, 0x69u8, 0x70u8, 0x74u8,
        0x69u8, 0x6fu8, 0x6eu8, 0x22u8, 0x3au8, 0x22u8,
    ]
}

/// The bytes between the description's closing quote and the temperature:
/// `,"temperature":`.
pub open spec fn key_temperature() -> Seq<u8> {
    seq![
        0x2cu8, 0x22u8, 0x74u8, 0x65u8, 0x6du8, 0x70u8, 0x65u8, 0x72u8, 0x61u8, 0x74u8,
        0x75u8, 0x72u8, 0x65u8, 0x22u8, 0x3au8,
    ]
}

/// The decimal digits of `n`, most significant first.
pub open spec fn spec_encode_u64(n: u64) -> Seq<u8>
    decreases n,
{
    if n < 10 {
        seq![(0x30 + n) as u8]
    } else {
        spec_encode_u64((n / 10) as u64) + seq![(0x30 + n % 10) as u8]
    }
}

/// How one description byte appears on the wire: quote and backslash are
/// escaped with a backslash, every other byte stands for itself.
pub open spec fn escape_byte(b: u8) -> Seq<u8> {
    if b == 0x22 || b == 0x5c {
        seq![0x5cu8, b]
    } else {
        seq![b]
    }
}

/// The wire form of a description, each byte escaped in turn.
pub open spec fn spec_escape(s: Seq<u8>) -> Seq<u8>
    decreases s.len(),
{
    if s.len() == 0 {
        Seq::empty()
    } else {
        escape_byte(s[0]) + spec_escape(s.skip(1))
    }
}

/// The wire form of one record.
pub open spec fn spec_encode_record(r: RecordView) -> Seq<u8> {
    key_id() + spec_encode_u64(r.id) + key_description() + spec_escape(r.description)
        + seq![0x22u8] + key_temperature() + r.temperature + seq![0x7du8]
}

/// The wire form of every record after the first, each preceded by a comma.
pub open spec fn spec_encode_tail(rs: Seq<RecordView>) -> Seq<u8>
    decreases rs.len(),
{
    if rs.len() == 0 {
        Seq::empty()
    } else {
        seq![0x2cu8] + spec_encode_record(rs[0]) + spec_encode_tail(rs.skip(1))
    }
}

/// The wire form of a whole sequence of records: a bracketed,
/// comma-separated list.
pub open spec fn spec_encode_records(rs: Seq<RecordView>) -> Seq<u8> {
    if rs.len() == 0 {
        seq![0x5bu8, 0x5du8]
    } else {
        seq![0x5bu8] + spec_encode_record(rs[0]) + spec_encode_tail(rs.skip(1)) + seq![0x5du8]
    }
}

/// Appends the bytes of `key_id()` to `out`.
fn push_key_id(out: &mut Vec<u8>)
    ensures
        final(out)@ == old(out)@ + key_id(),
{
    out.push(0x7b);
    out.push(0x22);
    out.push(0x69);
    out.push(0x64);
    out.push(0x22);
    out.push(0x3a);
    assert(out@ =~= old(out)@ + key_id());
}

/// Appends the bytes of `key_description()` to `out`.
fn push_key_description(out: &mut Vec<u8>)
    ensures
        final(out)@ == old(out)@ + key_description(),
{
    out.push(0x2c);
    out.push(0x22);
    out.push(0x64);
    out.push(0x65);
    out.push(0x73);
    out.push(0x63);
    out.push(0x72);
    out.push(0x69);
    out.push(0x70);
    out.push(0x74);
    out.push(0x69);
    out.push(0x6f);
    out.push(0x6e);
    out.push(0x22);
    out.push(0x3a);
    out.push(0x22);
    assert(out@ =~= old(out)@ + key_description());
}

/// Appends the bytes of `key_temperature()` to `out`.
fn push_key_temperature(out: &mut Vec<u8>)
    ensures
        final(out)@ == old(out)@ + key_temperature(),
{
    out.push(0x2c);
    out.push(0x22);
    out.push(0x74);
    out.push(0x65);
    out.push(0x6d);
    out.push(0x70);
    out.push(0x65);
    out.push(0x72);
    out.push(0x61);
    out.push(0x74);
    out.push(0x75);
    out.push(0x72);
    out.push(0x65);
    out.push(0x22);
    out.push(0x3a);
    assert(out@ =~= old(out)@ + key_temperature());
}

/// The bytes of `key_id()` as a vector.
pub(crate) fn key_id_vec() -> (r: Vec<u8>)
    ensures
        r@ == key_id(),
{
    let mut v: Vec<u8> = Vec::new();
    push_key_id(&mut v);
    assert(v@ =~= key_id());
    v
}

/// The bytes of `key_description()` as a vector.
pub(crate) fn key_description_vec() -> (r: Vec<u8>)
    ensures
        r@ == key_description(),
{
    let mut v: Vec<u8> = Vec::new();
    push_key_description(&mut v);
    assert(v@ =~= key_description());
    v
}

/// The bytes of `key_temperature()` as a vector.
pub(crate) fn key_temperature_vec() -> (r: Vec<u8>)
    ensures
        r@ == key_temperature(),
{
    let mut v: Vec<u8> = Vec::new();
    push_key_temperature(&mut v);
    assert(v@ =~= key_temperature());
    v
}

/// Appends the decimal digits of `n` to `out`.
fn push_u64(out: &mut Vec<u8>, n: u64)
    ensures
        final(out)@ == old(out)@ + spec_encode_u64(n),
    decreases n,
{
    if n < 10 {
        out.push(0x30 + n as u8);
        assert(out@ =~= old(out)@ + spec_encode_u64(n));
    } else {
        push_u64(out, n / 10);
        out.push(0x30 + (n % 10) as u8);
        assert(out@ =~= old(out)@ + spec_encode_u64(n));
    }
}

/// Appends the bytes of `s` from position `i` on, escaped, to `out`.
fn push_escaped(out: &mut Vec<u8>, s: &[u8], i: usize)
    requires
        i <= s@.len(),
    ensures
        final(out)@ == old(out)@ + spec_escape(s@.skip(i as int)),
    decreases s@.len() - i,
{
    if i < s.len() {
        let b = s[i];
        if b == 0x22 || b == 0x5c {
            out.push(0x5c);
            out.push(b);
        } else {
            out.push(b);
        }
        push_escaped(out, s, i + 1);
        assert(s@.skip(i as int).skip(1) =~= s@.skip(i + 1));
        assert(out@ =~= old(out)@ + spec_escape(s@.skip(i as int)));
    } else {
        assert(out@ =~= old(out)@ + spec_escape(s@.skip(i as int)));
    }
}

/// Appends the bytes of `s` to `out`.
fn push_all(out: &mut Vec<u8>, s: &[u8])
    ensures
        final(out)@ == old(out)@ + s@,
{
    let mut i: usize = 0;
    while i < s.len()
        invariant
            i <= s@.len(),
            out@ == old(out)@ + s@.take(i as int),
        decreases s@.len() - i,
    {
        out.push(s[i]);
        assert(out@ =~= old(out)@ + s@.take(i + 1));
        i = i + 1;
    }
    assert(out@ =~= old(out)@ + s@);
}

/// Appends the wire form of one record to `out`.
fn push_record(out: &mut Vec<u8>, r: &WeatherRecord)
    ensures
        final(out)@ == old(out)@ + spec_encode_record(r@),
{
    push_key_id(out);
    push_u64(out, r.id);
    push_key_description(out);
    push_escaped(out, r.description.as_slice(), 0);
    assert(r.description@.skip(0) =~= r.description@);
    out.push(0x22);
    push_key_temperature(out);
    push_all(out, r.temperature.as_slice());
    out.push(0x7d);
    assert(out@ =~= old(out)@ + spec_encode_record(r@));
}

/// Appends the wire form of the records from position `i` on, each preceded
/// by a comma, to `out`.
fn push_tail(out: &mut Vec<u8>, records: &Vec<WeatherRecord>, i: usize)
    requires
        i <= records@.len(),
    ensures
        final(out)@ == old(out)@ + spec_encode_tail(records.deep_view().skip(i as int)),
    decreases records@.len() - i,
{
    if i < records.len() {
        out.push(0x2c);
        push_record(out, &records[i]);
        push_tail(out, records, i + 1);
        assert(records.deep_view().skip(i as int).skip(1) =~= records.deep_view().skip(i + 1));
        assert(records.deep_view().skip(i as int)[0] == records[i as int]@);
        assert(out@ =~= old(out)@ + spec_encode_tail(records.deep_view().skip(i as int)));
    } else {
        assert(records.deep_view().skip(i as int) =~= Seq::<RecordView>::empty());
        assert(out@ =~= old(out)@ + spec_encode_tail(records.deep_view().skip(i as int)));
    }
}

/// Encodes a sequence of records in the service's wire format: a bracketed,
/// comma-separated list of records with the fields id, description and
/// temperature.
pub fn encode_records(records: &Vec<WeatherRecord>) -> (r: Vec<u8>)
    ensures
        r@ == spec_encode_records(records.deep_view()),
{
    let mut out: Vec<u8> = Vec::new();
    out.push(0x5b);
    if records.len() == 0 {
        out.push(0x5d);
        assert(out@ =~= spec_encode_records(records.deep_view()));
        out
    } else {
        push_record(&mut out, &records[0]);
        push_tail(&mut out, records, 1);
        out.push(0x5d);
        assert(records.deep_view()[0] == records[0int]@);
        assert(out@ =~= spec_encode_records(records.deep_view()));
        out
    }
}

} // verus!
