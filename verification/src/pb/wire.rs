//! Length-delimited fields: the layer between bytes and messages.
//!
//! A message is a run of fields. Each field starts with a key, a varint that
//! holds the field's number and the wire type of the payload that follows.

use vstd::prelude::*;
use vstd::slice::slice_subrange;
use crate::error::{malformed, HikvError};
use crate::pb::varint::{
    decode_error_text, lemma_parse_varint_bounds, lemma_varint_len, lemma_varint_round_trip,
    parse_varint, read_varint, varint, varint_bytes,
};

verus! {

/// The payload of a field.
pub enum Payload {
    /// A varint.
    Varint(u64),
    /// Eight bytes.
    Fixed64(Seq<u8>),
    /// A length, then that many bytes.
    Bytes(Seq<u8>),
    /// Four bytes.
    Fixed32(Seq<u8>),
}

/// One field of a message.
pub struct Field {
    pub number: u32,
    pub payload: Payload,
}

/// The largest number a field can have.
pub const MAX_FIELD_NUMBER: u32 = 0x1fff_ffff;

impl Payload {
    /// The wire type: the number that stands for this form of payload in a
    /// key.
    pub open spec fn wire_type(self) -> u64 {
        match self {
            Payload::Varint(_) => 0,
            Payload::Fixed64(_) => 1,
            Payload::Bytes(_) => 2,
            Payload::Fixed32(_) => 5,
        }
    }

    /// The bytes that follow the key.
    pub open spec fn encoding(self) -> Seq<u8> {
        match self {
            Payload::Varint(v) => varint(v),
            Payload::Fixed64(b) => b,
            Payload::Bytes(b) => varint(b.len() as u64) + b,
            Payload::Fixed32(b) => b,
        }
    }

    /// Whether the payload can be written: fixed payloads have their width,
    /// and a length fits 64 bits.
    pub open spec fn well_formed(self) -> bool {
        match self {
            Payload::Varint(_) => true,
            Payload::Fixed64(b) => b.len() == 8,
            Payload::Bytes(b) => b.len() <= u64::MAX,
            Payload::Fixed32(b) => b.len() == 4,
        }
    }
}

impl Field {
    pub open spec fn key(self) -> u64 {
        (self.number * 8 + self.payload.wire_type()) as u64
    }

    /// The bytes of the field: its key, then its payload.
    pub open spec fn encoding(self) -> Seq<u8> {
        varint(self.key()) + self.payload.encoding()
    }

    pub open spec fn well_formed(self) -> bool {
        1 <= self.number <= MAX_FIELD_NUMBER && self.payload.well_formed()
    }
}

/// The bytes of a run of fields, one after the other.
pub open spec fn encode_fields(fields: Seq<Field>) -> Seq<u8>
    decreases fields.len(),
{
    if fields.len() == 0 {
        Seq::empty()
    } else {
        encode_fields(fields.drop_last()) + fields.last().encoding()
    }
}

/// Reads the payload of the given wire type from the front of `s`: the
/// payload and its length in bytes. The wire types of groups and those that
/// stand for nothing are refused.
pub open spec fn parse_payload(wire_type: u64, s: Seq<u8>) -> Option<(Payload, nat)> {
    if wire_type == 0 {
        match parse_varint(s) {
            Some((v, n)) => Some((Payload::Varint(v), n)),
            None => None,
        }
    } else if wire_type == 1 {
        if s.len() >= 8 {
            Some((Payload::Fixed64(s.take(8)), 8nat))
        } else {
            None
        }
    } else if wire_type == 2 {
        match parse_varint(s) {
            Some((len, n)) => if len <= s.len() - n {
                Some((Payload::Bytes(s.subrange(n as int, n + len)), (n + len) as nat))
            } else {
                None
            },
            None => None,
        }
    } else if wire_type == 5 {
        if s.len() >= 4 {
            Some((Payload::Fixed32(s.take(4)), 4nat))
        } else {
            None
        }
    } else {
        None
    }
}

/// Reads one field from the front of `s`: the field and its length in bytes.
/// A key above 32 bits or with field number 0 is refused.
pub open spec fn parse_field(s: Seq<u8>) -> Option<(Field, nat)> {
    match parse_varint(s) {
        Some((key, n)) => if key > u32::MAX || key / 8 == 0 {
            None
        } else {
            match parse_payload(key % 8, s.skip(n as int)) {
                Some((payload, m)) => Some((Field { number: (key / 8) as u32, payload }, n + m)),
                None => None,
            }
        },
        None => None,
    }
}

/// A field that was read is well formed, and took at least one byte and no
/// more than there were.
pub proof fn lemma_parse_field_bounds(s: Seq<u8>)
    ensures
        parse_field(s) matches Some((f, n)) ==> 1 <= n <= s.len() && f.well_formed(),
{
    lemma_parse_varint_bounds(s);
    if let Some((key, n)) = parse_varint(s) {
        lemma_parse_varint_bounds(s.skip(n as int));
    }
}

/// Reads `s` as a run of fields: `None` unless fields fill it to its end.
pub open spec fn parse_fields(s: Seq<u8>) -> Option<Seq<Field>>
    decreases s.len(),
{
    if s.len() == 0 {
        Some(Seq::empty())
    } else {
        match parse_field(s) {
            Some((f, n)) => {
                proof {
                    lemma_parse_field_bounds(s);
                }
                match parse_fields(s.skip(n as int)) {
                    Some(rest) => Some(seq![f] + rest),
                    None => None,
                }
            },
            None => None,
        }
    }
}

/// Reading back a field that was written gives the field, whatever follows it.
pub proof fn lemma_field_round_trip(f: Field, rest: Seq<u8>)
    requires
        f.well_formed(),
    ensures
        parse_field(f.encoding() + rest) == Some((f, f.encoding().len())),
{
    let key = f.key();
    let body = f.payload.encoding() + rest;
    let s = f.encoding() + rest;
    assert(s =~= varint(key) + body);
    lemma_varint_round_trip(key, body);
    lemma_varint_len(key);
    let n = varint(key).len();
    assert(s.skip(n as int) =~= body);
    assert(key / 8 == f.number && key % 8 == f.payload.wire_type());
    match f.payload {
        Payload::Varint(v) => {
            lemma_varint_round_trip(v, rest);
        },
        Payload::Fixed64(b) => {
            assert(body.take(8) =~= b);
        },
        Payload::Bytes(b) => {
            let len = b.len() as u64;
            assert(body =~= varint(len) + (b + rest));
            lemma_varint_round_trip(len, b + rest);
            lemma_varint_len(len);
            let m = varint(len).len();
            assert(body.subrange(m as int, m + len) =~= b);
        },
        Payload::Fixed32(b) => {
            assert(body.take(4) =~= b);
        },
    }
}

/// Reading a run of fields that was written, and then more fields, gives the
/// run and then what the rest reads as.
pub proof fn lemma_fields_then(fields: Seq<Field>, tail: Seq<u8>)
    requires
        forall|i: int| 0 <= i < fields.len() ==> (#[trigger] fields[i]).well_formed(),
    ensures
        parse_fields(encode_fields(fields) + tail) == match parse_fields(tail) {
            Some(rest) => Some(fields + rest),
            None => None,
        },
    decreases fields.len(),
{
    if fields.len() == 0 {
        assert(encode_fields(fields) + tail =~= tail);
        if let Some(rest) = parse_fields(tail) {
            assert(fields + rest =~= rest);
        }
    } else {
        let last = fields.last();
        let front = fields.drop_last();
        let joined = last.encoding() + tail;
        assert(encode_fields(fields) + tail =~= encode_fields(front) + joined);
        lemma_field_round_trip(last, tail);
        lemma_varint_len(last.key());
        assert(joined.skip(last.encoding().len() as int) =~= tail);
        lemma_fields_then(front, joined);
        if let Some(rest) = parse_fields(tail) {
            assert(front + (seq![last] + rest) =~= fields + rest);
        }
    }
}

/// Reading back a run of fields that was written gives the run.
pub proof fn lemma_fields_round_trip(fields: Seq<Field>)
    requires
        forall|i: int| 0 <= i < fields.len() ==> (#[trigger] fields[i]).well_formed(),
    ensures
        parse_fields(encode_fields(fields)) == Some(fields),
{
    lemma_fields_then(fields, Seq::empty());
    assert(encode_fields(fields) + Seq::<u8>::empty() =~= encode_fields(fields));
    assert(fields + Seq::<Field>::empty() =~= fields);
}

/// A run of one field is written as that field.
pub proof fn lemma_encode_one(f: Field)
    ensures
        encode_fields(seq![f]) == f.encoding(),
{
    assert(seq![f].drop_last() =~= Seq::<Field>::empty());
    assert(encode_fields(Seq::<Field>::empty()) =~= Seq::<u8>::empty());
    assert(seq![f].last() == f);
    assert(encode_fields(seq![f]) =~= f.encoding());
}

/// Writing two runs one after the other writes their concatenation.
pub proof fn lemma_encode_concat(a: Seq<Field>, b: Seq<Field>)
    ensures
        encode_fields(a + b) == encode_fields(a) + encode_fields(b),
    decreases b.len(),
{
    if b.len() == 0 {
        assert(a + b =~= a);
        assert(encode_fields(a) + encode_fields(b) =~= encode_fields(a));
    } else {
        assert((a + b).drop_last() =~= a + b.drop_last());
        lemma_encode_concat(a, b.drop_last());
        assert(encode_fields(a + b) =~= encode_fields(a) + encode_fields(b));
    }
}

/// Appends `src` to `out`.
pub fn append(out: &mut Vec<u8>, src: &[u8])
    ensures
        final(out)@ == old(out)@ + src@,
{
    let mut i: usize = 0;
    while i < src.len()
        invariant
            i <= src@.len(),
            out@ == old(out)@ + src@.take(i as int),
        decreases src@.len() - i,
    {
        out.push(src[i]);
        i += 1;
        assert(out@ =~= old(out)@ + src@.take(i as int));
    }
    assert(src@.take(i as int) =~= src@);
}

fn put_key(out: &mut Vec<u8>, number: u32, wire_type: u8)
    requires
        1 <= number <= MAX_FIELD_NUMBER,
        wire_type <= 5,
    ensures
        final(out)@ == old(out)@ + varint((number * 8 + wire_type) as u64),
{
    let key: u64 = number as u64 * 8 + wire_type as u64;
    let mut bytes = varint_bytes(key);
    out.append(&mut bytes);
}

/// Appends field `number` with a varint payload.
pub fn put_varint_field(out: &mut Vec<u8>, number: u32, value: u64)
    requires
        1 <= number <= MAX_FIELD_NUMBER,
    ensures
        final(out)@ == old(out)@ + (Field { number, payload: Payload::Varint(value) }).encoding(),
{
    put_key(out, number, 0);
    let mut bytes = varint_bytes(value);
    out.append(&mut bytes);
    assert(out@ =~= old(out)@ + (Field { number, payload: Payload::Varint(value) }).encoding());
}

/// Appends field `number` with the eight bytes `bytes` as its payload.
pub fn put_fixed64_field(out: &mut Vec<u8>, number: u32, bytes: &[u8])
    requires
        1 <= number <= MAX_FIELD_NUMBER,
        bytes@.len() == 8,
    ensures
        final(out)@ == old(out)@ + (Field { number, payload: Payload::Fixed64(bytes@) }).encoding(),
{
    put_key(out, number, 1);
    append(out, bytes);
    assert(out@ =~= old(out)@ + (Field {
        number,
        payload: Payload::Fixed64(bytes@),
    }).encoding());
}

/// Appends field `number` with `bytes`, behind their length, as its payload.
pub fn put_bytes_field(out: &mut Vec<u8>, number: u32, bytes: &[u8])
    requires
        1 <= number <= MAX_FIELD_NUMBER,
    ensures
        final(out)@ == old(out)@ + (Field { number, payload: Payload::Bytes(bytes@) }).encoding(),
{
    put_key(out, number, 2);
    let mut len = varint_bytes(bytes.len() as u64);
    out.append(&mut len);
    append(out, bytes);
    assert(out@ =~= old(out)@ + (Field { number, payload: Payload::Bytes(bytes@) }).encoding());
}

/// Where the payload of a field that was read lies in the input.
pub enum Chunk {
    /// The value of a varint.
    Varint(u64),
    /// Eight bytes, from this index on.
    Fixed64(usize),
    /// The bytes between these two indices.
    Bytes(usize, usize),
    /// Four bytes, from this index on.
    Fixed32(usize),
}

impl Chunk {
    /// The payload, taken out of the input `data`.
    pub open spec fn payload(self, data: Seq<u8>) -> Payload {
        match self {
            Chunk::Varint(v) => Payload::Varint(v),
            Chunk::Fixed64(at) => Payload::Fixed64(data.subrange(at as int, at + 8)),
            Chunk::Bytes(start, end) => Payload::Bytes(data.subrange(start as int, end as int)),
            Chunk::Fixed32(at) => Payload::Fixed32(data.subrange(at as int, at + 4)),
        }
    }

    /// Whether the payload lies between `from` and `to`.
    pub open spec fn within(self, from: int, to: int) -> bool {
        match self {
            Chunk::Varint(_) => true,
            Chunk::Fixed64(at) => from <= at && at + 8 <= to,
            Chunk::Bytes(start, end) => from <= start <= end <= to,
            Chunk::Fixed32(at) => from <= at && at + 4 <= to,
        }
    }
}

/// Reads the varint at `pos`: its value and the index behind it. Where there
/// is none, the error holds what the varint reader says is wrong.
pub fn take_varint(data: &[u8], pos: usize) -> (r: Result<(u64, usize), HikvError>)
    requires
        pos <= data@.len(),
    ensures
        match r {
            Ok((value, next)) => pos < next <= data@.len() && parse_varint(data@.skip(pos as int))
                == Some((value, (next - pos) as nat)),
            Err(e) => e is DecodeError && parse_varint(data@.skip(pos as int)) is None,
        },
{
    let rest = slice_subrange(data, pos, data.len());
    assert(rest@ =~= data@.skip(pos as int));
    proof {
        lemma_parse_varint_bounds(rest@);
    }
    match read_varint(rest) {
        Ok((value, left)) => Ok((value, data.len() - left)),
        Err(e) => Err(HikvError::DecodeError(decode_error_text(&e))),
    }
}

/// Reads the field at `pos`: its number, where its payload lies, and the index
/// behind it.
pub fn read_field(data: &[u8], pos: usize) -> (r: Result<(u32, Chunk, usize), HikvError>)
    requires
        pos <= data@.len(),
    ensures
        match r {
            Ok((number, chunk, next)) => {
                &&& pos < next <= data@.len()
                &&& chunk.within(pos as int, next as int)
                &&& parse_field(data@.skip(pos as int)) == Some(
                    (Field { number, payload: chunk.payload(data@) }, (next - pos) as nat),
                )
            },
            Err(e) => e is DecodeError && parse_field(data@.skip(pos as int)) is None,
        },
{
    let ghost s = data@.skip(pos as int);
    let (key, at) = match take_varint(data, pos) {
        Ok(found) => found,
        Err(e) => { return Err(e); },
    };
    if key > u32::MAX as u64 {
        return Err(malformed("invalid key value"));
    }
    if key / 8 == 0 {
        return Err(malformed("invalid tag value: 0"));
    }
    let number = (key / 8) as u32;
    let wire_type = key % 8;
    let ghost n = (at - pos) as nat;
    let ghost body = s.skip(n as int);
    assert(body =~= data@.skip(at as int));
    if wire_type == 0 {
        match take_varint(data, at) {
            Ok((value, next)) => Ok((number, Chunk::Varint(value), next)),
            Err(e) => Err(e),
        }
    } else if wire_type == 1 {
        if data.len() - at >= 8 {
            assert(body.take(8) =~= data@.subrange(at as int, at + 8));
            Ok((number, Chunk::Fixed64(at), at + 8))
        } else {
            Err(malformed("buffer underflow"))
        }
    } else if wire_type == 2 {
        match take_varint(data, at) {
            Ok((len, start)) => {
                if len <= (data.len() - start) as u64 {
                    let end = start + len as usize;
                    assert(body.subrange(start - at, start - at + len) =~= data@.subrange(
                        start as int,
                        end as int,
                    ));
                    Ok((number, Chunk::Bytes(start, end), end))
                } else {
                    Err(malformed("buffer underflow"))
                }
            },
            Err(e) => Err(e),
        }
    } else if wire_type == 5 {
        if data.len() - at >= 4 {
            assert(body.take(4) =~= data@.subrange(at as int, at + 4));
            Ok((number, Chunk::Fixed32(at), at + 4))
        } else {
            Err(malformed("buffer underflow"))
        }
    } else {
        Err(malformed("invalid wire type value"))
    }
}

} // verus!
