//! Base-128 variable-length integers, the unit that every key and length of the
//! message encoding is written in.

use vstd::prelude::*;

verus! {

/// The bytes of `v` as a varint: seven bits to a byte, lowest first, the top
/// bit set on every byte but the last.
pub open spec fn varint(v: u64) -> Seq<u8>
    decreases v,
{
    if v < 128 {
        seq![v as u8]
    } else {
        seq![(v % 128 + 128) as u8] + varint(v / 128)
    }
}

/// Reads a varint of at most `room` bytes from the front of `s`: its value and
/// its length. The last of ten bytes may only hold the one bit that is left of
/// the 64.
pub open spec fn parse_varint_within(s: Seq<u8>, room: nat) -> Option<(int, nat)>
    decreases room,
{
    if room == 0 || s.len() == 0 {
        None
    } else if s[0] < 128 {
        if room == 1 && s[0] >= 2 {
            None
        } else {
            Some((s[0] as int, 1nat))
        }
    } else {
        match parse_varint_within(s.skip(1), (room - 1) as nat) {
            Some((high, n)) => Some((s[0] - 128 + 128 * high, n + 1)),
            None => None,
        }
    }
}

/// The varint that `s` starts with, and how many bytes it takes: `None` where
/// `s` ends before the varint does, or where it runs past ten bytes or 64 bits.
pub open spec fn parse_varint(s: Seq<u8>) -> Option<(u64, nat)> {
    match parse_varint_within(s, 10) {
        Some((v, n)) => Some((v as u64, n)),
        None => None,
    }
}

/// One more than the largest value that `room` bytes can end a 64-bit varint
/// with.
pub open spec fn varint_cap(room: nat) -> int
    decreases room,
{
    if room == 0 {
        0
    } else if room == 1 {
        2
    } else {
        128 * varint_cap((room - 1) as nat)
    }
}

pub proof fn lemma_varint_cap_ten()
    ensures
        varint_cap(10) == 0x1_0000_0000_0000_0000,
{
    reveal_with_fuel(varint_cap, 11);
}

/// A varint takes between one and ten bytes.
pub proof fn lemma_varint_len(v: u64)
    ensures
        1 <= varint(v).len() <= 10,
{
    lemma_varint_cap_ten();
    lemma_varint_len_within(v, 10);
}

proof fn lemma_varint_len_within(v: u64, room: nat)
    requires
        room >= 1,
        v < varint_cap(room),
    ensures
        1 <= varint(v).len() <= room,
    decreases v,
{
    if v >= 128 {
        if room == 1 {
            assert(false);
        }
        lemma_varint_len_within(v / 128, (room - 1) as nat);
    }
}

/// What a read yields is in range: the value fits the bytes that were allowed,
/// and the length is at least one and within both the allowance and the input.
pub proof fn lemma_parse_varint_within_bounds(s: Seq<u8>, room: nat)
    ensures
        parse_varint_within(s, room) matches Some((v, n)) ==> 0 <= v < varint_cap(room) && 1 <= n
            <= room && n <= s.len(),
    decreases room,
{
    if room == 0 || s.len() == 0 {
    } else if s[0] < 128 {
        if room >= 2 {
            lemma_varint_cap_at_least(room);
        }
    } else {
        lemma_parse_varint_within_bounds(s.skip(1), (room - 1) as nat);
    }
}

proof fn lemma_varint_cap_at_least(room: nat)
    requires
        room >= 2,
    ensures
        varint_cap(room) >= 256,
    decreases room,
{
    if room > 2 {
        lemma_varint_cap_at_least((room - 1) as nat);
    } else {
        assert(varint_cap(1) == 2);
    }
}

/// A varint that was read has a value of 64 bits and a length between one and
/// ten that stays within the input.
pub proof fn lemma_parse_varint_bounds(s: Seq<u8>)
    ensures
        parse_varint(s) matches Some((v, n)) ==> 1 <= n <= 10 && n <= s.len()
            && parse_varint_within(s, 10) == Some((v as int, n)),
{
    lemma_varint_cap_ten();
    lemma_parse_varint_within_bounds(s, 10);
}

proof fn lemma_varint_round_trip_within(v: u64, rest: Seq<u8>, room: nat)
    requires
        room >= 1,
        v < varint_cap(room),
    ensures
        parse_varint_within(varint(v) + rest, room) == Some((v as int, varint(v).len())),
    decreases v,
{
    let s = varint(v) + rest;
    if v < 128 {
        assert(s[0] == v as u8);
    } else {
        if room == 1 {
            assert(false);
        }
        assert(s[0] == (v % 128 + 128) as u8);
        assert(s.skip(1) =~= varint(v / 128) + rest);
        lemma_varint_round_trip_within(v / 128, rest, (room - 1) as nat);
    }
}

/// Reading back what was written gives the value, whatever follows it.
pub proof fn lemma_varint_round_trip(v: u64, rest: Seq<u8>)
    ensures
        parse_varint(varint(v) + rest) == Some((v, varint(v).len())),
{
    lemma_varint_cap_ten();
    lemma_varint_round_trip_within(v, rest, 10);
}

#[verifier::external_type_specification]
#[verifier::external_body]
pub struct ExDecodeError(prost::DecodeError);

/// `prost::encoding::encode_varint`, on a fresh buffer: the bytes it writes
/// for `value` are `varint(value)`.
#[verifier::external_body]
pub(crate) fn varint_bytes(value: u64) -> (out: Vec<u8>)
    ensures
        out@ == varint(value),
{
    let mut out = Vec::new();
    prost::encoding::encode_varint(value, &mut out);
    out
}

/// `prost::encoding::decode_varint`, on a slice: it succeeds exactly where
/// `parse_varint` finds a varint at the front, and then yields its value and
/// the number of bytes that follow it.
#[verifier::external_body]
pub(crate) fn read_varint(input: &[u8]) -> (r: Result<(u64, usize), prost::DecodeError>)
    ensures
        match r {
            Ok((value, left)) => left <= input@.len() && parse_varint(input@) == Some(
                (value, (input@.len() - left) as nat),
            ),
            Err(_) => parse_varint(input@) is None,
        },
{
    let mut rest = input;
    prost::encoding::decode_varint(&mut rest).map(|value| (value, rest.len()))
}

/// `Display` for `prost::DecodeError`, through `to_string`: the text of the
/// error.
#[verifier::external_body]
pub(crate) fn decode_error_text(e: &prost::DecodeError) -> (text: String) {
    e.to_string()
}

} // verus!
