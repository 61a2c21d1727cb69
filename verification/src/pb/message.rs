//! The messages as bytes: which fields each one is written as, and how a run
//! of fields is read back into one.
//!
//! Reading is lenient in the way of the encoding: fields may come in any
//! order, a later field overrides or extends an earlier one, and a field with
//! a number that the message does not know is passed over.

use vstd::prelude::*;
use vstd::bytes::{
    lemma_auto_spec_u64_to_from_le_bytes, spec_u64_from_le_bytes, spec_u64_to_le_bytes,
    u64_from_le_bytes, u64_to_le_bytes,
};
use vstd::slice::{slice_subrange, slice_to_vec};
use vstd::utf8::{decode_utf8, encode_utf8, encode_utf8_decode_utf8, encode_utf8_valid_utf8, valid_utf8};
use crate::error::{malformed, HikvError};
use crate::pb::abi::command_request::{Data, DataView};
use crate::pb::abi::value;
use crate::pb::abi::value::ValueView;
use crate::pb::abi::{
    values_view, CommandRequest, CommandRequestView, CommandResponse, CommandResponseView, Del,
    Exist, Get, KvSet, KvSetView, Value, ValueModel,
};
use crate::pb::wire::{
    encode_fields, lemma_encode_concat, lemma_encode_one, lemma_fields_round_trip, parse_field,
    parse_fields, put_bytes_field, put_fixed64_field, put_varint_field, read_field, Chunk, Field,
    Payload,
};

verus! {

/// A field whose payload is a run of bytes behind its length.
pub open spec fn bytes_field(number: u32, bytes: Seq<u8>) -> Field {
    Field { number, payload: Payload::Bytes(bytes) }
}

/// A field whose payload is a varint.
pub open spec fn varint_field(number: u32, value: u64) -> Field {
    Field { number, payload: Payload::Varint(value) }
}

/// `String::from_utf8`: it succeeds exactly on well-formed UTF-8, and the
/// string is then the text that the bytes spell.
#[verifier::external_body]
fn string_from_utf8(bytes: Vec<u8>) -> (r: Option<String>)
    ensures
        r is Some <==> valid_utf8(bytes@),
        r matches Some(s) ==> s@ == decode_utf8(bytes@),
{
    String::from_utf8(bytes).ok()
}

/// The text in the bytes of `data` between `start` and `end`.
fn read_text(data: &[u8], start: usize, end: usize) -> (r: Option<String>)
    requires
        start <= end <= data@.len(),
    ensures
        r is Some <==> valid_utf8(data@.subrange(start as int, end as int)),
        r matches Some(s) ==> s@ == decode_utf8(data@.subrange(start as int, end as int)),
{
    string_from_utf8(slice_to_vec(slice_subrange(data, start, end)))
}

// ---------------------------------------------------------------- Value

/// The fields that a value is written as: one for the scalar it holds, none
/// if it holds none.
pub open spec fn value_fields(v: ValueModel) -> Seq<Field> {
    match v {
        None => Seq::empty(),
        Some(ValueView::String(s)) => seq![bytes_field(1, encode_utf8(s))],
        Some(ValueView::Binary(b)) => seq![bytes_field(2, b)],
        Some(ValueView::Integer(i)) => seq![varint_field(3, i as u64)],
        Some(ValueView::Float(bits)) => seq![
            Field { number: 4, payload: Payload::Fixed64(spec_u64_to_le_bytes(bits)) },
        ],
        Some(ValueView::Bool(b)) => seq![varint_field(5, if b { 1 } else { 0 })],
    }
}

/// The bytes of a value.
pub open spec fn value_bytes(v: ValueModel) -> Seq<u8> {
    encode_fields(value_fields(v))
}

/// What one field makes of a value: a field of the value's own replaces the
/// scalar, another is passed over, and one of the value's own with a payload
/// of the wrong wire type (or text that is no UTF-8) is an error.
pub open spec fn value_step(cur: ValueModel, f: Field) -> Option<ValueModel> {
    if f.number == 1 {
        match f.payload {
            Payload::Bytes(b) => if valid_utf8(b) {
                Some(Some(ValueView::String(decode_utf8(b))))
            } else {
                None
            },
            _ => None,
        }
    } else if f.number == 2 {
        match f.payload {
            Payload::Bytes(b) => Some(Some(ValueView::Binary(b))),
            _ => None,
        }
    } else if f.number == 3 {
        match f.payload {
            Payload::Varint(v) => Some(Some(ValueView::Integer(v as i64))),
            _ => None,
        }
    } else if f.number == 4 {
        match f.payload {
            Payload::Fixed64(b) => Some(Some(ValueView::Float(spec_u64_from_le_bytes(b)))),
            _ => None,
        }
    } else if f.number == 5 {
        match f.payload {
            Payload::Varint(v) => Some(Some(ValueView::Bool(v != 0))),
            _ => None,
        }
    } else {
        Some(cur)
    }
}

/// What a run of fields, taken in order, makes of a value.
pub open spec fn value_from_fields(cur: ValueModel, fields: Seq<Field>) -> Option<ValueModel>
    decreases fields.len(),
{
    if fields.len() == 0 {
        Some(cur)
    } else {
        match value_step(cur, fields[0]) {
            Some(next) => value_from_fields(next, fields.skip(1)),
            None => None,
        }
    }
}

/// What the bytes `s`, read as fields, make of a value.
pub open spec fn merge_value(cur: ValueModel, s: Seq<u8>) -> Option<ValueModel> {
    match parse_fields(s) {
        Some(fields) => value_from_fields(cur, fields),
        None => None,
    }
}

/// The value that the bytes `s` spell.
pub open spec fn parse_value(s: Seq<u8>) -> Option<ValueModel> {
    merge_value(None, s)
}

/// Reading goes field by field.
pub proof fn lemma_merge_value_step(cur: ValueModel, s: Seq<u8>)
    ensures
        merge_value(cur, s) == if s.len() == 0 {
            Some(cur)
        } else {
            match parse_field(s) {
                Some((f, n)) => match value_step(cur, f) {
                    Some(next) => merge_value(next, s.skip(n as int)),
                    None => None,
                },
                None => None,
            }
        },
{
    if s.len() > 0 {
        if let Some((f, n)) = parse_field(s) {
            if let Some(rest) = parse_fields(s.skip(n as int)) {
                assert((seq![f] + rest).skip(1) =~= rest);
            }
        }
    }
}

/// Whether a value can be written: its text or bytes have a length of 64 bits.
pub open spec fn value_fits(v: ValueModel) -> bool {
    match v {
        Some(ValueView::String(s)) => encode_utf8(s).len() <= u64::MAX,
        Some(ValueView::Binary(b)) => b.len() <= u64::MAX,
        _ => true,
    }
}

/// The fields of a value that fits are well formed.
pub proof fn lemma_value_fields_well_formed(v: ValueModel)
    requires
        value_fits(v),
    ensures
        forall|i: int| 0 <= i < value_fields(v).len() ==> (#[trigger] value_fields(v)[i]).well_formed(),
{
    lemma_auto_spec_u64_to_from_le_bytes();
}

/// A value that was written reads back as itself, whatever stood there before.
pub proof fn lemma_value_round_trip(cur: ValueModel, v: ValueModel)
    requires
        value_fits(v),
        v is Some || cur is None,
    ensures
        merge_value(cur, value_bytes(v)) == Some(v),
{
    lemma_value_fields_well_formed(v);
    lemma_fields_round_trip(value_fields(v));
    let fields = value_fields(v);
    match v {
        None => {},
        Some(scalar) => {
            assert(fields.skip(1) =~= Seq::<Field>::empty());
            assert(value_from_fields(v, fields.skip(1)) == Some(v));
            match scalar {
                ValueView::String(s) => {
                    encode_utf8_valid_utf8(s);
                    encode_utf8_decode_utf8(s);
                },
                ValueView::Binary(b) => {},
                ValueView::Integer(i) => {
                    assert((i as u64) as i64 == i) by (bit_vector);
                },
                ValueView::Float(bits) => {
                    lemma_auto_spec_u64_to_from_le_bytes();
                },
                ValueView::Bool(b) => {},
            }
        },
    }
}

/// Appends the bytes of `v` to `out`.
pub fn write_value(v: &Value, out: &mut Vec<u8>)
    ensures
        final(out)@ == old(out)@ + value_bytes(v@),
        value_fits(v@),
{
    match &v.value {
        None => {
            assert(encode_fields(Seq::<Field>::empty()) =~= Seq::<u8>::empty());
            assert(out@ =~= old(out)@ + value_bytes(v@));
        },
        Some(value::Value::String(s)) => {
            proof {
                lemma_encode_one(bytes_field(1, encode_utf8(s@)));
            }
            let text = s.as_str().as_bytes();
            let len = text.len();
            put_bytes_field(out, 1, text);
        },
        Some(value::Value::Binary(b)) => {
            let len = b.len();
            proof {
                lemma_encode_one(bytes_field(2, b@));
            }
            put_bytes_field(out, 2, b.as_slice());
        },
        Some(value::Value::Integer(i)) => {
            proof {
                lemma_encode_one(varint_field(3, *i as u64));
            }
            put_varint_field(out, 3, *i as u64);
        },
        Some(value::Value::Float(bits)) => {
            proof {
                lemma_encode_one(
                    Field { number: 4, payload: Payload::Fixed64(spec_u64_to_le_bytes(*bits)) },
                );
            }
            let bytes = u64_to_le_bytes(*bits);
            put_fixed64_field(out, 4, bytes.as_slice());
        },
        Some(value::Value::Bool(b)) => {
            proof {
                lemma_encode_one(varint_field(5, if *b { 1 } else { 0 }));
            }
            put_varint_field(out, 5, if *b { 1 } else { 0 });
        },
    }
}

/// The scalar that a field of a value holds.
fn value_field(cur: Value, data: &[u8], number: u32, chunk: Chunk) -> (r: Result<Value, HikvError>)
    requires
        chunk.within(0, data@.len() as int),
    ensures
        match r {
            Ok(v) => value_step(cur@, Field { number, payload: chunk.payload(data@) }) == Some(v@),
            Err(e) => e is DecodeError && value_step(
                cur@,
                Field { number, payload: chunk.payload(data@) },
            ) is None,
        },
{
    if number == 1 {
        match chunk {
            Chunk::Bytes(start, end) => match read_text(data, start, end) {
                Some(s) => Ok(Value { value: Some(value::Value::String(s)) }),
                None => Err(malformed("invalid string value: data is not UTF-8 encoded")),
            },
            _ => Err(malformed("invalid wire type")),
        }
    } else if number == 2 {
        match chunk {
            Chunk::Bytes(start, end) => Ok(
                Value {
                    value: Some(
                        value::Value::Binary(slice_to_vec(slice_subrange(data, start, end))),
                    ),
                },
            ),
            _ => Err(malformed("invalid wire type")),
        }
    } else if number == 3 {
        match chunk {
            Chunk::Varint(v) => Ok(Value { value: Some(value::Value::Integer(v as i64)) }),
            _ => Err(malformed("invalid wire type")),
        }
    } else if number == 4 {
        match chunk {
            Chunk::Fixed64(at) => {
                let total = data.len();
                assert(at + 8 <= total);
                let bits = u64_from_le_bytes(slice_subrange(data, at, at + 8));
                Ok(Value { value: Some(value::Value::Float(bits)) })
            },
            _ => Err(malformed("invalid wire type")),
        }
    } else if number == 5 {
        match chunk {
            Chunk::Varint(v) => Ok(Value { value: Some(value::Value::Bool(v != 0)) }),
            _ => Err(malformed("invalid wire type")),
        }
    } else {
        Ok(cur)
    }
}

/// Reads `data` as fields of a value and lets them change `cur` in turn.
pub fn merge_value_from(cur: Value, data: &[u8]) -> (r: Result<Value, HikvError>)
    ensures
        match r {
            Ok(v) => merge_value(cur@, data@) == Some(v@),
            Err(e) => e is DecodeError && merge_value(cur@, data@) is None,
        },
{
    let mut acc = cur;
    let mut pos: usize = 0;
    assert(data@.skip(0) =~= data@);
    while pos < data.len()
        invariant
            pos <= data@.len(),
            merge_value(cur@, data@) == merge_value(acc@, data@.skip(pos as int)),
        decreases data@.len() - pos,
    {
        proof {
            lemma_merge_value_step(acc@, data@.skip(pos as int));
        }
        let (number, chunk, next) = match read_field(data, pos) {
            Ok(found) => found,
            Err(e) => { return Err(e); },
        };
        acc = match value_field(acc, data, number, chunk) {
            Ok(v) => v,
            Err(e) => { return Err(e); },
        };
        assert(data@.skip(pos as int).skip(next - pos) =~= data@.skip(next as int));
        pos = next;
    }
    proof {
        lemma_merge_value_step(acc@, data@.skip(pos as int));
    }
    Ok(acc)
}

/// The value that `data` spells.
pub fn read_value(data: &[u8]) -> (r: Result<Value, HikvError>)
    ensures
        match r {
            Ok(v) => parse_value(data@) == Some(v@),
            Err(e) => e is DecodeError && parse_value(data@) is None,
        },
{
    merge_value_from(Value { value: None }, data)
}

// ------------------------------------------------- Get, Del, Exist: a key

/// The fields that a command with only a key is written as: the key, unless
/// it is empty.
pub open spec fn key_fields(key: Seq<char>) -> Seq<Field> {
    if key.len() == 0 {
        Seq::empty()
    } else {
        seq![bytes_field(1, encode_utf8(key))]
    }
}

/// The bytes of a command with only a key.
pub open spec fn key_bytes(key: Seq<char>) -> Seq<u8> {
    encode_fields(key_fields(key))
}

/// What one field makes of a key.
pub open spec fn key_step(cur: Seq<char>, f: Field) -> Option<Seq<char>> {
    if f.number == 1 {
        match f.payload {
            Payload::Bytes(b) => if valid_utf8(b) {
                Some(decode_utf8(b))
            } else {
                None
            },
            _ => None,
        }
    } else {
        Some(cur)
    }
}

/// What a run of fields, taken in order, makes of a key.
pub open spec fn key_from_fields(cur: Seq<char>, fields: Seq<Field>) -> Option<Seq<char>>
    decreases fields.len(),
{
    if fields.len() == 0 {
        Some(cur)
    } else {
        match key_step(cur, fields[0]) {
            Some(next) => key_from_fields(next, fields.skip(1)),
            None => None,
        }
    }
}

/// What the bytes `s`, read as fields, make of a key.
pub open spec fn merge_key(cur: Seq<char>, s: Seq<u8>) -> Option<Seq<char>> {
    match parse_fields(s) {
        Some(fields) => key_from_fields(cur, fields),
        None => None,
    }
}

/// The key of the command that the bytes `s` spell.
pub open spec fn parse_key(s: Seq<u8>) -> Option<Seq<char>> {
    merge_key(Seq::empty(), s)
}

/// Reading goes field by field.
pub proof fn lemma_merge_key_step(cur: Seq<char>, s: Seq<u8>)
    ensures
        merge_key(cur, s) == if s.len() == 0 {
            Some(cur)
        } else {
            match parse_field(s) {
                Some((f, n)) => match key_step(cur, f) {
                    Some(next) => merge_key(next, s.skip(n as int)),
                    None => None,
                },
                None => None,
            }
        },
{
    if s.len() > 0 {
        if let Some((f, n)) = parse_field(s) {
            if let Some(rest) = parse_fields(s.skip(n as int)) {
                assert((seq![f] + rest).skip(1) =~= rest);
            }
        }
    }
}

/// Whether a key can be written.
pub open spec fn key_fits(key: Seq<char>) -> bool {
    encode_utf8(key).len() <= u64::MAX
}

/// A key that was written reads back as itself.
pub proof fn lemma_key_round_trip(key: Seq<char>)
    requires
        key_fits(key),
    ensures
        parse_key(key_bytes(key)) == Some(key),
{
    let fields = key_fields(key);
    lemma_fields_round_trip(fields);
    if key.len() > 0 {
        assert(fields.skip(1) =~= Seq::<Field>::empty());
        encode_utf8_valid_utf8(key);
        encode_utf8_decode_utf8(key);
        assert(key_from_fields(key, fields.skip(1)) == Some(key));
    } else {
        assert(key =~= Seq::<char>::empty());
    }
}

/// Appends the bytes of a command that has only the key `key` to `out`.
pub fn write_key(key: &String, out: &mut Vec<u8>)
    ensures
        final(out)@ == old(out)@ + key_bytes(key@),
        key_fits(key@),
{
    let text = key.as_str().as_bytes();
    let len = text.len();
    if key.as_str().is_empty() {
        assert(encode_fields(Seq::<Field>::empty()) =~= Seq::<u8>::empty());
        assert(out@ =~= old(out)@ + key_bytes(key@));
    } else {
        proof {
            lemma_encode_one(bytes_field(1, encode_utf8(key@)));
        }
        put_bytes_field(out, 1, key.as_str().as_bytes());
    }
}

fn key_field(cur: String, data: &[u8], number: u32, chunk: Chunk) -> (r: Result<String, HikvError>)
    requires
        chunk.within(0, data@.len() as int),
    ensures
        match r {
            Ok(k) => key_step(cur@, Field { number, payload: chunk.payload(data@) }) == Some(k@),
            Err(e) => e is DecodeError && key_step(
                cur@,
                Field { number, payload: chunk.payload(data@) },
            ) is None,
        },
{
    if number == 1 {
        match chunk {
            Chunk::Bytes(start, end) => match read_text(data, start, end) {
                Some(s) => Ok(s),
                None => Err(malformed("invalid string value: data is not UTF-8 encoded")),
            },
            _ => Err(malformed("invalid wire type")),
        }
    } else {
        Ok(cur)
    }
}

/// Reads `data` as fields of a command that has only a key and lets them
/// change the key `cur` in turn.
pub fn merge_key_from(cur: String, data: &[u8]) -> (r: Result<String, HikvError>)
    ensures
        match r {
            Ok(k) => merge_key(cur@, data@) == Some(k@),
            Err(e) => e is DecodeError && merge_key(cur@, data@) is None,
        },
{
    let mut acc = cur;
    let mut pos: usize = 0;
    assert(data@.skip(0) =~= data@);
    while pos < data.len()
        invariant
            pos <= data@.len(),
            merge_key(cur@, data@) == merge_key(acc@, data@.skip(pos as int)),
        decreases data@.len() - pos,
    {
        proof {
            lemma_merge_key_step(acc@, data@.skip(pos as int));
        }
        let (number, chunk, next) = match read_field(data, pos) {
            Ok(found) => found,
            Err(e) => { return Err(e); },
        };
        acc = match key_field(acc, data, number, chunk) {
            Ok(k) => k,
            Err(e) => { return Err(e); },
        };
        assert(data@.skip(pos as int).skip(next - pos) =~= data@.skip(next as int));
        pos = next;
    }
    proof {
        lemma_merge_key_step(acc@, data@.skip(pos as int));
    }
    Ok(acc)
}

// ---------------------------------------------------------------- KvSet

/// A set command with an empty key and no value.
pub open spec fn empty_kvset() -> KvSetView {
    KvSetView { key: Seq::empty(), value: None }
}

/// The fields that a set command is written as: the key, unless it is empty,
/// then the value, if there is one.
pub open spec fn kvset_fields(s: KvSetView) -> Seq<Field> {
    key_fields(s.key) + match s.value {
        Some(v) => seq![bytes_field(2, value_bytes(v))],
        None => Seq::empty(),
    }
}

/// The bytes of a set command.
pub open spec fn kvset_bytes(s: KvSetView) -> Seq<u8> {
    encode_fields(kvset_fields(s))
}

/// What one field makes of a set command. A second field for the value is
/// read into the value that the first one left.
pub open spec fn kvset_step(cur: KvSetView, f: Field) -> Option<KvSetView> {
    if f.number == 1 {
        match key_step(cur.key, f) {
            Some(key) => Some(KvSetView { key, value: cur.value }),
            None => None,
        }
    } else if f.number == 2 {
        match f.payload {
            Payload::Bytes(b) => match merge_value(
                match cur.value {
                    Some(v) => v,
                    None => None,
                },
                b,
            ) {
                Some(v) => Some(KvSetView { key: cur.key, value: Some(v) }),
                None => None,
            },
            _ => None,
        }
    } else {
        Some(cur)
    }
}

/// What a run of fields, taken in order, makes of a set command.
pub open spec fn kvset_from_fields(cur: KvSetView, fields: Seq<Field>) -> Option<KvSetView>
    decreases fields.len(),
{
    if fields.len() == 0 {
        Some(cur)
    } else {
        match kvset_step(cur, fields[0]) {
            Some(next) => kvset_from_fields(next, fields.skip(1)),
            None => None,
        }
    }
}

/// What the bytes `s`, read as fields, make of a set command.
pub open spec fn merge_kvset(cur: KvSetView, s: Seq<u8>) -> Option<KvSetView> {
    match parse_fields(s) {
        Some(fields) => kvset_from_fields(cur, fields),
        None => None,
    }
}

/// The set command that the bytes `s` spell.
pub open spec fn parse_kvset(s: Seq<u8>) -> Option<KvSetView> {
    merge_kvset(empty_kvset(), s)
}

/// Reading goes field by field.
pub proof fn lemma_merge_kvset_step(cur: KvSetView, s: Seq<u8>)
    ensures
        merge_kvset(cur, s) == if s.len() == 0 {
            Some(cur)
        } else {
            match parse_field(s) {
                Some((f, n)) => match kvset_step(cur, f) {
                    Some(next) => merge_kvset(next, s.skip(n as int)),
                    None => None,
                },
                None => None,
            }
        },
{
    if s.len() > 0 {
        if let Some((f, n)) = parse_field(s) {
            if let Some(rest) = parse_fields(s.skip(n as int)) {
                assert((seq![f] + rest).skip(1) =~= rest);
            }
        }
    }
}

/// Whether a set command can be written.
pub open spec fn kvset_fits(s: KvSetView) -> bool {
    &&& key_fits(s.key)
    &&& s.value matches Some(v) ==> value_fits(v) && value_bytes(v).len() <= u64::MAX
}

/// A set command that was written reads back as itself.
pub proof fn lemma_kvset_round_trip(s: KvSetView)
    requires
        kvset_fits(s),
    ensures
        parse_kvset(kvset_bytes(s)) == Some(s),
{
    let fields = kvset_fields(s);
    lemma_fields_round_trip(fields);
    let after_key = KvSetView { key: s.key, value: None };
    let tail = if s.key.len() == 0 {
        fields
    } else {
        fields.skip(1)
    };
    if s.key.len() > 0 {
        encode_utf8_valid_utf8(s.key);
        encode_utf8_decode_utf8(s.key);
        assert(kvset_step(empty_kvset(), fields[0]) == Some(after_key));
    } else {
        assert(s.key =~= Seq::<char>::empty());
    }
    assert(kvset_from_fields(empty_kvset(), fields) == kvset_from_fields(after_key, tail));
    match s.value {
        Some(v) => {
            lemma_value_round_trip(None, v);
            assert(tail =~= seq![bytes_field(2, value_bytes(v))]);
            assert(tail.skip(1) =~= Seq::<Field>::empty());
            assert(kvset_step(after_key, tail[0]) == Some(s));
            assert(kvset_from_fields(s, tail.skip(1)) == Some(s));
        },
        None => {
            assert(tail =~= Seq::<Field>::empty());
        },
    }
}

/// The bytes of `v`.
pub fn value_to_bytes(v: &Value) -> (out: Vec<u8>)
    ensures
        out@ == value_bytes(v@),
        value_fits(v@),
{
    let mut out = Vec::new();
    write_value(v, &mut out);
    assert(out@ =~= value_bytes(v@));
    out
}

/// Appends the bytes of `s` to `out`.
pub fn write_kvset(s: &KvSet, out: &mut Vec<u8>)
    ensures
        final(out)@ == old(out)@ + kvset_bytes(s@),
        kvset_fits(s@),
{
    write_key(&s.key, out);
    match &s.value {
        Some(v) => {
            let inner = value_to_bytes(v);
            let len = inner.len();
            put_bytes_field(out, 2, inner.as_slice());
            proof {
                let last = seq![bytes_field(2, value_bytes(v@))];
                lemma_encode_one(last[0]);
                lemma_encode_concat(key_fields(s.key@), last);
                assert(out@ =~= old(out)@ + kvset_bytes(s@));
            }
        },
        None => {
            assert(kvset_fields(s@) =~= key_fields(s.key@));
        },
    }
}

fn kvset_field(cur: KvSet, data: &[u8], number: u32, chunk: Chunk) -> (r: Result<KvSet, HikvError>)
    requires
        chunk.within(0, data@.len() as int),
    ensures
        match r {
            Ok(s) => kvset_step(cur@, Field { number, payload: chunk.payload(data@) }) == Some(s@),
            Err(e) => e is DecodeError && kvset_step(
                cur@,
                Field { number, payload: chunk.payload(data@) },
            ) is None,
        },
{
    if number == 1 {
        match key_field(cur.key, data, number, chunk) {
            Ok(key) => Ok(KvSet { key, value: cur.value }),
            Err(e) => Err(e),
        }
    } else if number == 2 {
        match chunk {
            Chunk::Bytes(start, end) => {
                let before = match cur.value {
                    Some(v) => v,
                    None => Value { value: None },
                };
                match merge_value_from(before, slice_subrange(data, start, end)) {
                    Ok(v) => Ok(KvSet { key: cur.key, value: Some(v) }),
                    Err(e) => Err(e),
                }
            },
            _ => Err(malformed("invalid wire type")),
        }
    } else {
        Ok(cur)
    }
}

/// Reads `data` as fields of a set command and lets them change `cur` in turn.
pub fn merge_kvset_from(cur: KvSet, data: &[u8]) -> (r: Result<KvSet, HikvError>)
    ensures
        match r {
            Ok(s) => merge_kvset(cur@, data@) == Some(s@),
            Err(e) => e is DecodeError && merge_kvset(cur@, data@) is None,
        },
{
    let mut acc = cur;
    let mut pos: usize = 0;
    assert(data@.skip(0) =~= data@);
    while pos < data.len()
        invariant
            pos <= data@.len(),
            merge_kvset(cur@, data@) == merge_kvset(acc@, data@.skip(pos as int)),
        decreases data@.len() - pos,
    {
        proof {
            lemma_merge_kvset_step(acc@, data@.skip(pos as int));
        }
        let (number, chunk, next) = match read_field(data, pos) {
            Ok(found) => found,
            Err(e) => { return Err(e); },
        };
        acc = match kvset_field(acc, data, number, chunk) {
            Ok(s) => s,
            Err(e) => { return Err(e); },
        };
        assert(data@.skip(pos as int).skip(next - pos) =~= data@.skip(next as int));
        pos = next;
    }
    proof {
        lemma_merge_kvset_step(acc@, data@.skip(pos as int));
    }
    Ok(acc)
}

// ------------------------------------------------------- CommandRequest

/// The fields that a request is written as: one for its command, none if it
/// has none.
pub open spec fn request_fields(r: CommandRequestView) -> Seq<Field> {
    match r {
        None => Seq::empty(),
        Some(DataView::KvSet(s)) => seq![bytes_field(1, kvset_bytes(s))],
        Some(DataView::Get(k)) => seq![bytes_field(2, key_bytes(k))],
        Some(DataView::Del(k)) => seq![bytes_field(3, key_bytes(k))],
        Some(DataView::Exist(k)) => seq![bytes_field(4, key_bytes(k))],
    }
}

/// The bytes of a request.
pub open spec fn request_bytes(r: CommandRequestView) -> Seq<u8> {
    encode_fields(request_fields(r))
}

/// What one field makes of a request. A field for a command replaces a
/// different command, and is read into the same command.
pub open spec fn request_step(cur: CommandRequestView, f: Field) -> Option<CommandRequestView> {
    if 1 <= f.number <= 4 {
        match f.payload {
            Payload::Bytes(b) => if f.number == 1 {
                match merge_kvset(
                    match cur {
                        Some(DataView::KvSet(s)) => s,
                        _ => empty_kvset(),
                    },
                    b,
                ) {
                    Some(s) => Some(Some(DataView::KvSet(s))),
                    None => None,
                }
            } else if f.number == 2 {
                match merge_key(
                    match cur {
                        Some(DataView::Get(k)) => k,
                        _ => Seq::empty(),
                    },
                    b,
                ) {
                    Some(k) => Some(Some(DataView::Get(k))),
                    None => None,
                }
            } else if f.number == 3 {
                match merge_key(
                    match cur {
                        Some(DataView::Del(k)) => k,
                        _ => Seq::empty(),
                    },
                    b,
                ) {
                    Some(k) => Some(Some(DataView::Del(k))),
                    None => None,
                }
            } else {
                match merge_key(
                    match cur {
                        Some(DataView::Exist(k)) => k,
                        _ => Seq::empty(),
                    },
                    b,
                ) {
                    Some(k) => Some(Some(DataView::Exist(k))),
                    None => None,
                }
            },
            _ => None,
        }
    } else {
        Some(cur)
    }
}

/// What a run of fields, taken in order, makes of a request.
pub open spec fn request_from_fields(cur: CommandRequestView, fields: Seq<Field>) -> Option<
    CommandRequestView,
>
    decreases fields.len(),
{
    if fields.len() == 0 {
        Some(cur)
    } else {
        match request_step(cur, fields[0]) {
            Some(next) => request_from_fields(next, fields.skip(1)),
            None => None,
        }
    }
}

/// What the bytes `s`, read as fields, make of a request.
pub open spec fn merge_request(cur: CommandRequestView, s: Seq<u8>) -> Option<CommandRequestView> {
    match parse_fields(s) {
        Some(fields) => request_from_fields(cur, fields),
        None => None,
    }
}

/// The request that the bytes `s` spell. Bytes that hold no command, or only
/// fields that a request does not know, spell the request without a command.
pub open spec fn parse_request(s: Seq<u8>) -> Option<CommandRequestView> {
    merge_request(None, s)
}

/// Reading goes field by field.
pub proof fn lemma_merge_request_step(cur: CommandRequestView, s: Seq<u8>)
    ensures
        merge_request(cur, s) == if s.len() == 0 {
            Some(cur)
        } else {
            match parse_field(s) {
                Some((f, n)) => match request_step(cur, f) {
                    Some(next) => merge_request(next, s.skip(n as int)),
                    None => None,
                },
                None => None,
            }
        },
{
    if s.len() > 0 {
        if let Some((f, n)) = parse_field(s) {
            if let Some(rest) = parse_fields(s.skip(n as int)) {
                assert((seq![f] + rest).skip(1) =~= rest);
            }
        }
    }
}

/// Whether a request can be written.
pub open spec fn request_fits(r: CommandRequestView) -> bool {
    match r {
        None => true,
        Some(DataView::KvSet(s)) => kvset_fits(s) && kvset_bytes(s).len() <= u64::MAX,
        Some(DataView::Get(k)) => key_fits(k) && key_bytes(k).len() <= u64::MAX,
        Some(DataView::Del(k)) => key_fits(k) && key_bytes(k).len() <= u64::MAX,
        Some(DataView::Exist(k)) => key_fits(k) && key_bytes(k).len() <= u64::MAX,
    }
}

/// A request that was written reads back as itself.
pub proof fn lemma_request_round_trip(r: CommandRequestView)
    requires
        request_fits(r),
    ensures
        parse_request(request_bytes(r)) == Some(r),
{
    let fields = request_fields(r);
    lemma_fields_round_trip(fields);
    match r {
        None => {},
        Some(data) => {
            assert(fields.skip(1) =~= Seq::<Field>::empty());
            assert(request_from_fields(r, fields.skip(1)) == Some(r));
            match data {
                DataView::KvSet(s) => {
                    lemma_kvset_round_trip(s);
                },
                DataView::Get(k) => {
                    lemma_key_round_trip(k);
                },
                DataView::Del(k) => {
                    lemma_key_round_trip(k);
                },
                DataView::Exist(k) => {
                    lemma_key_round_trip(k);
                },
            }
        },
    }
}

/// Appends the bytes of `req` to `out`.
pub fn write_request(req: &CommandRequest, out: &mut Vec<u8>)
    ensures
        final(out)@ == old(out)@ + request_bytes(req@),
        request_fits(req@),
{
    let mut inner: Vec<u8> = Vec::new();
    match &req.data {
        None => {
            assert(encode_fields(Seq::<Field>::empty()) =~= Seq::<u8>::empty());
            assert(out@ =~= old(out)@ + request_bytes(req@));
        },
        Some(Data::KvSet(s)) => {
            write_kvset(s, &mut inner);
            assert(inner@ =~= kvset_bytes(s@));
            proof {
                lemma_encode_one(bytes_field(1, kvset_bytes(s@)));
            }
            let len = inner.len();
            put_bytes_field(out, 1, inner.as_slice());
        },
        Some(Data::Get(g)) => {
            write_key(&g.key, &mut inner);
            assert(inner@ =~= key_bytes(g.key@));
            proof {
                lemma_encode_one(bytes_field(2, key_bytes(g.key@)));
            }
            let len = inner.len();
            put_bytes_field(out, 2, inner.as_slice());
        },
        Some(Data::Del(d)) => {
            write_key(&d.key, &mut inner);
            assert(inner@ =~= key_bytes(d.key@));
            proof {
                lemma_encode_one(bytes_field(3, key_bytes(d.key@)));
            }
            let len = inner.len();
            put_bytes_field(out, 3, inner.as_slice());
        },
        Some(Data::Exist(e)) => {
            write_key(&e.key, &mut inner);
            assert(inner@ =~= key_bytes(e.key@));
            proof {
                lemma_encode_one(bytes_field(4, key_bytes(e.key@)));
            }
            let len = inner.len();
            put_bytes_field(out, 4, inner.as_slice());
        },
    }
}

fn request_field(cur: CommandRequest, data: &[u8], number: u32, chunk: Chunk) -> (r: Result<
    CommandRequest,
    HikvError,
>)
    requires
        chunk.within(0, data@.len() as int),
    ensures
        match r {
            Ok(q) => request_step(cur@, Field { number, payload: chunk.payload(data@) }) == Some(
                q@,
            ),
            Err(e) => e is DecodeError && request_step(
                cur@,
                Field { number, payload: chunk.payload(data@) },
            ) is None,
        },
{
    if 1 <= number && number <= 4 {
        match chunk {
            Chunk::Bytes(start, end) => {
                let body = slice_subrange(data, start, end);
                if number == 1 {
                    let before = match cur.data {
                        Some(Data::KvSet(s)) => s,
                        _ => KvSet { key: String::new(), value: None },
                    };
                    match merge_kvset_from(before, body) {
                        Ok(s) => Ok(CommandRequest { data: Some(Data::KvSet(s)) }),
                        Err(e) => Err(e),
                    }
                } else if number == 2 {
                    let before = match cur.data {
                        Some(Data::Get(g)) => g.key,
                        _ => String::new(),
                    };
                    match merge_key_from(before, body) {
                        Ok(key) => Ok(CommandRequest { data: Some(Data::Get(Get { key })) }),
                        Err(e) => Err(e),
                    }
                } else if number == 3 {
                    let before = match cur.data {
                        Some(Data::Del(d)) => d.key,
                        _ => String::new(),
                    };
                    match merge_key_from(before, body) {
                        Ok(key) => Ok(CommandRequest { data: Some(Data::Del(Del { key })) }),
                        Err(e) => Err(e),
                    }
                } else {
                    let before = match cur.data {
                        Some(Data::Exist(x)) => x.key,
                        _ => String::new(),
                    };
                    match merge_key_from(before, body) {
                        Ok(key) => Ok(CommandRequest { data: Some(Data::Exist(Exist { key })) }),
                        Err(e) => Err(e),
                    }
                }
            },
            _ => Err(malformed("invalid wire type")),
        }
    } else {
        Ok(cur)
    }
}

/// The request that `data` spells.
pub fn read_request(data: &[u8]) -> (r: Result<CommandRequest, HikvError>)
    ensures
        match r {
            Ok(q) => parse_request(data@) == Some(q@),
            Err(e) => e is DecodeError && parse_request(data@) is None,
        },
{
    let mut acc = CommandRequest { data: None };
    let mut pos: usize = 0;
    assert(data@.skip(0) =~= data@);
    while pos < data.len()
        invariant
            pos <= data@.len(),
            parse_request(data@) == merge_request(acc@, data@.skip(pos as int)),
        decreases data@.len() - pos,
    {
        proof {
            lemma_merge_request_step(acc@, data@.skip(pos as int));
        }
        let (number, chunk, next) = match read_field(data, pos) {
            Ok(found) => found,
            Err(e) => { return Err(e); },
        };
        acc = match request_field(acc, data, number, chunk) {
            Ok(q) => q,
            Err(e) => { return Err(e); },
        };
        assert(data@.skip(pos as int).skip(next - pos) =~= data@.skip(next as int));
        pos = next;
    }
    proof {
        lemma_merge_request_step(acc@, data@.skip(pos as int));
    }
    Ok(acc)
}

// ------------------------------------------------------ CommandResponse

/// A response with status 0, no message and no values.
pub open spec fn empty_response() -> CommandResponseView {
    CommandResponseView { status: 0, message: Seq::empty(), values: Seq::empty() }
}

/// The field for the status, unless it is 0.
pub open spec fn status_fields(status: u32) -> Seq<Field> {
    if status == 0 {
        Seq::empty()
    } else {
        seq![varint_field(1, status as u64)]
    }
}

/// The field for the message, unless it is empty.
pub open spec fn message_fields(message: Seq<char>) -> Seq<Field> {
    if message.len() == 0 {
        Seq::empty()
    } else {
        seq![bytes_field(2, encode_utf8(message))]
    }
}

/// One field for each value, in order.
pub open spec fn values_fields(values: Seq<ValueModel>) -> Seq<Field> {
    Seq::new(values.len(), |i: int| bytes_field(3, value_bytes(values[i])))
}

/// The fields that a response is written as: status, message, values.
pub open spec fn response_fields(r: CommandResponseView) -> Seq<Field> {
    status_fields(r.status) + message_fields(r.message) + values_fields(r.values)
}

/// The bytes of a response.
pub open spec fn response_bytes(r: CommandResponseView) -> Seq<u8> {
    encode_fields(response_fields(r))
}

/// What one field makes of a response: a status keeps its low 32 bits, a
/// message replaces the message, a value is added behind the values.
pub open spec fn response_step(cur: CommandResponseView, f: Field) -> Option<CommandResponseView> {
    if f.number == 1 {
        match f.payload {
            Payload::Varint(v) => Some(
                CommandResponseView {
                    status: (v % 0x1_0000_0000) as u32,
                    message: cur.message,
                    values: cur.values,
                },
            ),
            _ => None,
        }
    } else if f.number == 2 {
        match key_step(cur.message, Field { number: 1, payload: f.payload }) {
            Some(message) => Some(
                CommandResponseView { status: cur.status, message, values: cur.values },
            ),
            None => None,
        }
    } else if f.number == 3 {
        match f.payload {
            Payload::Bytes(b) => match parse_value(b) {
                Some(v) => Some(
                    CommandResponseView {
                        status: cur.status,
                        message: cur.message,
                        values: cur.values.push(v),
                    },
                ),
                None => None,
            },
            _ => None,
        }
    } else {
        Some(cur)
    }
}

/// What a run of fields, taken in order, makes of a response.
pub open spec fn response_from_fields(cur: CommandResponseView, fields: Seq<Field>) -> Option<
    CommandResponseView,
>
    decreases fields.len(),
{
    if fields.len() == 0 {
        Some(cur)
    } else {
        match response_step(cur, fields[0]) {
            Some(next) => response_from_fields(next, fields.skip(1)),
            None => None,
        }
    }
}

/// What the bytes `s`, read as fields, make of a response.
pub open spec fn merge_response(cur: CommandResponseView, s: Seq<u8>) -> Option<
    CommandResponseView,
> {
    match parse_fields(s) {
        Some(fields) => response_from_fields(cur, fields),
        None => None,
    }
}

/// The response that the bytes `s` spell.
pub open spec fn parse_response(s: Seq<u8>) -> Option<CommandResponseView> {
    merge_response(empty_response(), s)
}

/// Reading goes field by field.
pub proof fn lemma_merge_response_step(cur: CommandResponseView, s: Seq<u8>)
    ensures
        merge_response(cur, s) == if s.len() == 0 {
            Some(cur)
        } else {
            match parse_field(s) {
                Some((f, n)) => match response_step(cur, f) {
                    Some(next) => merge_response(next, s.skip(n as int)),
                    None => None,
                },
                None => None,
            }
        },
{
    if s.len() > 0 {
        if let Some((f, n)) = parse_field(s) {
            if let Some(rest) = parse_fields(s.skip(n as int)) {
                assert((seq![f] + rest).skip(1) =~= rest);
            }
        }
    }
}

/// Whether a response can be written.
pub open spec fn response_fits(r: CommandResponseView) -> bool {
    &&& encode_utf8(r.message).len() <= u64::MAX
    &&& forall|i: int|
        0 <= i < r.values.len() ==> value_fits(#[trigger] r.values[i]) && value_bytes(
            r.values[i],
        ).len() <= u64::MAX
}

proof fn lemma_response_from_concat(cur: CommandResponseView, a: Seq<Field>, b: Seq<Field>)
    ensures
        response_from_fields(cur, a + b) == match response_from_fields(cur, a) {
            Some(mid) => response_from_fields(mid, b),
            None => None,
        },
    decreases a.len(),
{
    if a.len() == 0 {
        assert(a + b =~= b);
    } else {
        assert((a + b).skip(1) =~= a.skip(1) + b);
        if let Some(next) = response_step(cur, a[0]) {
            lemma_response_from_concat(next, a.skip(1), b);
        }
    }
}

proof fn lemma_response_from_values(cur: CommandResponseView, values: Seq<ValueModel>)
    requires
        forall|i: int|
            0 <= i < values.len() ==> value_fits(#[trigger] values[i]) && value_bytes(
                values[i],
            ).len() <= u64::MAX,
    ensures
        response_from_fields(cur, values_fields(values)) == Some(
            CommandResponseView {
                status: cur.status,
                message: cur.message,
                values: cur.values + values,
            },
        ),
    decreases values.len(),
{
    let fields = values_fields(values);
    if values.len() == 0 {
        assert(cur.values + values =~= cur.values);
    } else {
        let first = values[0];
        lemma_value_round_trip(None, first);
        let next = CommandResponseView {
            status: cur.status,
            message: cur.message,
            values: cur.values.push(first),
        };
        assert(response_step(cur, fields[0]) == Some(next));
        assert(fields.skip(1) =~= values_fields(values.skip(1)));
        lemma_response_from_values(next, values.skip(1));
        assert(next.values + values.skip(1) =~= cur.values + values);
    }
}

/// The fields of a response that fits are well formed.
proof fn lemma_response_fields_well_formed(r: CommandResponseView)
    requires
        response_fits(r),
    ensures
        forall|i: int|
            0 <= i < response_fields(r).len() ==> (#[trigger] response_fields(r)[i]).well_formed(),
{
    let fields = response_fields(r);
    let head = status_fields(r.status) + message_fields(r.message);
    assert forall|i: int| 0 <= i < fields.len() implies (#[trigger] fields[i]).well_formed() by {
        if i >= head.len() {
            assert(fields[i] == values_fields(r.values)[i - head.len()]);
        }
    }
}

/// A response that was written reads back as itself.
pub proof fn lemma_response_round_trip(r: CommandResponseView)
    requires
        response_fits(r),
    ensures
        parse_response(response_bytes(r)) == Some(r),
{
    lemma_response_fields_well_formed(r);
    lemma_fields_round_trip(response_fields(r));
    let start = empty_response();
    let with_status = CommandResponseView {
        status: r.status,
        message: Seq::empty(),
        values: Seq::empty(),
    };
    let with_message = CommandResponseView {
        status: r.status,
        message: r.message,
        values: Seq::empty(),
    };
    let a = status_fields(r.status);
    let b = message_fields(r.message);
    let c = values_fields(r.values);
    lemma_response_from_concat(start, a + b, c);
    lemma_response_from_concat(start, a, b);
    if r.status != 0 {
        assert(a.skip(1) =~= Seq::<Field>::empty());
        assert((r.status as u64) % 0x1_0000_0000 == r.status);
        assert(response_step(start, a[0]) == Some(with_status));
        assert(response_from_fields(with_status, a.skip(1)) == Some(with_status));
    }
    assert(response_from_fields(start, a) == Some(with_status));
    if r.message.len() != 0 {
        assert(b.skip(1) =~= Seq::<Field>::empty());
        encode_utf8_valid_utf8(r.message);
        encode_utf8_decode_utf8(r.message);
        assert(response_step(with_status, b[0]) == Some(with_message));
        assert(response_from_fields(with_message, b.skip(1)) == Some(with_message));
    } else {
        assert(r.message =~= Seq::<char>::empty());
    }
    assert(response_from_fields(with_status, b) == Some(with_message));
    lemma_response_from_values(with_message, r.values);
    assert(Seq::<ValueModel>::empty() + r.values =~= r.values);
}

/// Appends the bytes of `resp` to `out`.
pub fn write_response(resp: &CommandResponse, out: &mut Vec<u8>)
    ensures
        final(out)@ == old(out)@ + response_bytes(resp@),
        response_fits(resp@),
{
    let text = resp.message.as_str().as_bytes();
    let text_len = text.len();
    let ghost head = status_fields(resp.status) + message_fields(resp.message@);
    proof {
        assert(encode_fields(Seq::<Field>::empty()) =~= Seq::<u8>::empty());
        lemma_encode_concat(status_fields(resp.status), message_fields(resp.message@));
    }
    if resp.status != 0 {
        proof {
            lemma_encode_one(varint_field(1, resp.status as u64));
        }
        put_varint_field(out, 1, resp.status as u64);
    }
    assert(out@ =~= old(out)@ + encode_fields(status_fields(resp.status)));
    if !resp.message.as_str().is_empty() {
        proof {
            lemma_encode_one(bytes_field(2, encode_utf8(resp.message@)));
        }
        put_bytes_field(out, 2, resp.message.as_str().as_bytes());
    }
    assert(out@ =~= old(out)@ + encode_fields(head));
    let ghost values = values_view(resp.values@);
    let mut i: usize = 0;
    assert(values_fields(values.take(0)) =~= Seq::<Field>::empty());
    assert(head + Seq::<Field>::empty() =~= head);
    while i < resp.values.len()
        invariant
            i <= resp.values@.len(),
            values == values_view(resp.values@),
            out@ == old(out)@ + encode_fields(head + values_fields(values.take(i as int))),
            forall|j: int|
                0 <= j < i ==> value_fits(#[trigger] values[j]) && value_bytes(values[j]).len()
                    <= u64::MAX,
        decreases resp.values@.len() - i,
    {
        let inner = value_to_bytes(&resp.values[i]);
        let len = inner.len();
        put_bytes_field(out, 3, inner.as_slice());
        proof {
            let f = bytes_field(3, value_bytes(values[i as int]));
            let before = head + values_fields(values.take(i as int));
            lemma_encode_one(f);
            lemma_encode_concat(before, seq![f]);
            assert(before + seq![f] =~= head + values_fields(values.take(i + 1)));
        }
        i += 1;
    }
    assert(values.take(i as int) =~= values);
}

fn response_field(cur: CommandResponse, data: &[u8], number: u32, chunk: Chunk) -> (r: Result<
    CommandResponse,
    HikvError,
>)
    requires
        chunk.within(0, data@.len() as int),
    ensures
        match r {
            Ok(p) => response_step(cur@, Field { number, payload: chunk.payload(data@) }) == Some(
                p@,
            ),
            Err(e) => e is DecodeError && response_step(
                cur@,
                Field { number, payload: chunk.payload(data@) },
            ) is None,
        },
{
    if number == 1 {
        match chunk {
            Chunk::Varint(v) => Ok(
                CommandResponse {
                    status: (v % 0x1_0000_0000) as u32,
                    message: cur.message,
                    values: cur.values,
                },
            ),
            _ => Err(malformed("invalid wire type")),
        }
    } else if number == 2 {
        match key_field(cur.message, data, 1, chunk) {
            Ok(message) => Ok(CommandResponse { status: cur.status, message, values: cur.values }),
            Err(e) => Err(e),
        }
    } else if number == 3 {
        match chunk {
            Chunk::Bytes(start, end) => match read_value(slice_subrange(data, start, end)) {
                Ok(v) => {
                    let mut values = cur.values;
                    values.push(v);
                    assert(values_view(values@) =~= values_view(cur.values@).push(v@));
                    Ok(CommandResponse { status: cur.status, message: cur.message, values })
                },
                Err(e) => Err(e),
            },
            _ => Err(malformed("invalid wire type")),
        }
    } else {
        Ok(cur)
    }
}

/// The response that `data` spells.
pub fn read_response(data: &[u8]) -> (r: Result<CommandResponse, HikvError>)
    ensures
        match r {
            Ok(p) => parse_response(data@) == Some(p@),
            Err(e) => e is DecodeError && parse_response(data@) is None,
        },
{
    let mut acc = CommandResponse { status: 0, message: String::new(), values: Vec::new() };
    assert(acc@.values =~= Seq::<ValueModel>::empty());
    let mut pos: usize = 0;
    assert(data@.skip(0) =~= data@);
    while pos < data.len()
        invariant
            pos <= data@.len(),
            parse_response(data@) == merge_response(acc@, data@.skip(pos as int)),
        decreases data@.len() - pos,
    {
        proof {
            lemma_merge_response_step(acc@, data@.skip(pos as int));
        }
        let (number, chunk, next) = match read_field(data, pos) {
            Ok(found) => found,
            Err(e) => { return Err(e); },
        };
        acc = match response_field(acc, data, number, chunk) {
            Ok(p) => p,
            Err(e) => { return Err(e); },
        };
        assert(data@.skip(pos as int).skip(next - pos) =~= data@.skip(next as int));
        pos = next;
    }
    proof {
        lemma_merge_response_step(acc@, data@.skip(pos as int));
    }
    Ok(acc)
}

} // verus!
