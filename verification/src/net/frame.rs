//! Frames: a message on the stream is a four-byte header and a payload.
//!
//! The header is a big-endian number. Its top bit says whether the payload is
//! compressed, its other 31 bits are the payload's length in bytes.

use std::io::{Read, Write};
use vstd::prelude::*;
use crate::error::{malformed, HikvError};
use crate::pb::abi::{CommandRequest, CommandResponse};
use crate::pb::message::{
    lemma_request_round_trip, lemma_response_round_trip, parse_request, parse_response,
    read_request, read_response, request_bytes, response_bytes, write_request, write_response,
};

verus! {

/// The length of a frame's header in bytes.
pub const LEN_LEN: usize = 4;

/// The largest message that is framed: 2 MiB.
pub const MAX_FRAME: usize = 2 * 1024 * 1024;

/// A message above this size is compressed: what one MTU of 1500 bytes leaves
/// after the headers of IP and TCP, TCP options and the frame header.
pub const COMPRESSION_LIMIT: usize = 1436;

/// The bit of the header that marks a compressed payload.
pub const COMPRESSION_BIT: usize = 0x8000_0000;

/// The largest payload that a header can announce.
pub const MAX_PAYLOAD: usize = 0x7fff_ffff;

#[verifier::external_type_specification]
#[verifier::external_body]
pub struct ExBytesMut(bytes::BytesMut);

#[verifier::external_type_specification]
#[verifier::external_body]
pub struct ExIoError(std::io::Error);

/// The bytes that a buffer holds, first to last.
pub uninterp spec fn buffered(buf: bytes::BytesMut) -> Seq<u8>;

/// What `flate2`'s gzip encoder, at its default level, makes of `data`.
pub uninterp spec fn gzip(data: Seq<u8>) -> Seq<u8>;

/// What `flate2`'s gzip decoder reads out of `data`: `None` where it fails.
pub uninterp spec fn gunzip(data: Seq<u8>) -> Option<Seq<u8>>;

/// `BytesMut::len`: the number of bytes in the buffer.
#[verifier::external_body]
fn buf_len(buf: &bytes::BytesMut) -> (n: usize)
    ensures
        n == buffered(*buf).len(),
{
    buf.len()
}

/// `BufMut::put_u32` on a `BytesMut`: the four bytes of `n`, highest first,
/// are added behind the buffer's bytes.
#[verifier::external_body]
fn buf_put_u32(buf: &mut bytes::BytesMut, n: u32)
    ensures
        buffered(*final(buf)) == buffered(*old(buf)) + be_u32(n),
{
    bytes::BufMut::put_u32(buf, n)
}

/// `BufMut::put_slice` on a `BytesMut`: the bytes of `src` are added behind
/// the buffer's bytes.
#[verifier::external_body]
fn buf_put_slice(buf: &mut bytes::BytesMut, src: &[u8])
    ensures
        buffered(*final(buf)) == buffered(*old(buf)) + src@,
{
    bytes::BufMut::put_slice(buf, src)
}

/// Indexing a `BytesMut` by a range up to `len`, copied out: the first `len`
/// bytes. It panics past the end, which `requires` leaves out.
#[verifier::external_body]
fn buf_prefix(buf: &bytes::BytesMut, len: usize) -> (out: Vec<u8>)
    requires
        len <= buffered(*buf).len(),
    ensures
        out@ == buffered(*buf).take(len as int),
{
    buf[..len].to_vec()
}

/// `Buf::advance` on a `BytesMut`: the first `cnt` bytes leave the buffer. It
/// panics past the end, which `requires` leaves out.
#[verifier::external_body]
fn buf_advance(buf: &mut bytes::BytesMut, cnt: usize)
    requires
        cnt <= buffered(*old(buf)).len(),
    ensures
        buffered(*final(buf)) == buffered(*old(buf)).skip(cnt as int),
{
    bytes::Buf::advance(buf, cnt)
}

/// `flate2::write::GzEncoder` at the default level, writing into memory: it
/// succeeds, since the encoder only hands on the errors of what it writes
/// into and a vector has none; what comes out is `gzip` of the input, and the
/// decoder reads the input back out of it.
#[verifier::external_body]
fn compress(data: &[u8]) -> (r: Result<Vec<u8>, std::io::Error>)
    ensures
        r is Ok,
        r matches Ok(out) ==> out@ == gzip(data@) && gunzip(out@) == Some(data@),
{
    let mut encoder = flate2::write::GzEncoder::new(Vec::new(), flate2::Compression::default());
    encoder.write_all(data)?;
    encoder.finish()
}

/// `flate2::read::GzDecoder`, read to its end: what comes out is `gunzip` of
/// the input.
#[verifier::external_body]
fn decompress(data: &[u8]) -> (r: Result<Vec<u8>, std::io::Error>)
    ensures
        match r {
            Ok(out) => gunzip(data@) == Some(out@),
            Err(_) => gunzip(data@) is None,
        },
{
    let mut out = Vec::new();
    flate2::read::GzDecoder::new(data).read_to_end(&mut out)?;
    Ok(out)
}

/// `Display` for `std::io::Error`, through `to_string`: the text of the
/// error.
#[verifier::external_body]
fn io_error_text(e: &std::io::Error) -> (text: String) {
    e.to_string()
}

/// The four bytes of `n`, highest first.
pub open spec fn be_u32(n: u32) -> Seq<u8> {
    seq![
        (n / 0x100_0000) as u8,
        (n / 0x1_0000 % 0x100) as u8,
        (n / 0x100 % 0x100) as u8,
        (n % 0x100) as u8,
    ]
}

/// The number that four bytes spell, highest first.
pub open spec fn from_be_u32(b: Seq<u8>) -> u32 {
    (b[0] * 0x100_0000 + b[1] * 0x1_0000 + b[2] * 0x100 + b[3]) as u32
}

/// The header of a frame whose payload has `len` bytes.
pub open spec fn header_of(len: nat, compressed: bool) -> u32
    recommends
        len <= MAX_PAYLOAD,
{
    if compressed {
        (len + COMPRESSION_BIT) as u32
    } else {
        len as u32
    }
}

/// The frame that carries `payload`.
pub open spec fn frame(payload: Seq<u8>, compressed: bool) -> Seq<u8>
    recommends
        payload.len() <= MAX_PAYLOAD,
{
    be_u32(header_of(payload.len(), compressed)) + payload
}

/// The frame that carries a message whose bytes are `message`: as they are
/// up to the compression limit, compressed above it.
pub open spec fn message_frame(message: Seq<u8>) -> Seq<u8> {
    if message.len() <= COMPRESSION_LIMIT {
        frame(message, false)
    } else {
        frame(gzip(message), true)
    }
}

/// The payload length that a header announces.
pub open spec fn header_len(header: u32) -> nat {
    (header % 0x8000_0000) as nat
}

/// Whether a header announces a compressed payload.
pub open spec fn header_compressed(header: u32) -> bool {
    header >= 0x8000_0000
}

/// Whether `buf` starts with a whole frame: a header, and as many bytes
/// behind it as the header announces.
pub open spec fn starts_with_frame(buf: Seq<u8>) -> bool {
    buf.len() >= 4 && buf.len() - 4 >= header_len(from_be_u32(buf.take(4)))
}

/// The length of the frame that `buf` starts with, header included.
pub open spec fn first_frame_len(buf: Seq<u8>) -> nat
    recommends
        starts_with_frame(buf),
{
    4 + header_len(from_be_u32(buf.take(4)))
}

/// The payload of the frame that `buf` starts with, as it stands on the
/// stream.
pub open spec fn first_frame_payload(buf: Seq<u8>) -> Seq<u8>
    recommends
        starts_with_frame(buf),
{
    buf.subrange(4, first_frame_len(buf) as int)
}

/// What the front of a buffer holds.
pub enum FirstFrame {
    /// No whole frame yet.
    Incomplete,
    /// A frame whose payload is marked as compressed and does not decompress.
    Corrupt,
    /// A frame that carries these message bytes: its payload, or what
    /// decompression makes of it.
    Message(Seq<u8>),
}

/// What the front of `buf` holds.
pub open spec fn first_frame(buf: Seq<u8>) -> FirstFrame {
    if !starts_with_frame(buf) {
        FirstFrame::Incomplete
    } else if header_compressed(from_be_u32(buf.take(4))) {
        match gunzip(first_frame_payload(buf)) {
            Some(message) => FirstFrame::Message(message),
            None => FirstFrame::Corrupt,
        }
    } else {
        FirstFrame::Message(first_frame_payload(buf))
    }
}

/// A header that was written reads back as itself.
pub proof fn lemma_be_u32_round_trip(n: u32)
    ensures
        be_u32(n).len() == 4,
        from_be_u32(be_u32(n)) == n,
{
}

/// A frame starts with its header: the length and the flag read back, the
/// top bit of the first byte is the flag, and the payload follows.
pub proof fn lemma_frame_parts(payload: Seq<u8>, compressed: bool, rest: Seq<u8>)
    requires
        payload.len() <= MAX_PAYLOAD,
    ensures
        starts_with_frame(frame(payload, compressed) + rest),
        first_frame_len(frame(payload, compressed) + rest) == 4 + payload.len(),
        first_frame_payload(frame(payload, compressed) + rest) == payload,
        header_compressed(from_be_u32((frame(payload, compressed) + rest).take(4))) == compressed,
        (frame(payload, compressed)[0] >= 0x80) == compressed,
        (frame(payload, compressed) + rest).skip(4 + payload.len() as int) == rest,
{
    let header = header_of(payload.len(), compressed);
    let whole = frame(payload, compressed) + rest;
    lemma_be_u32_round_trip(header);
    assert(whole.take(4) =~= be_u32(header));
    assert(whole.subrange(4, 4 + payload.len() as int) =~= payload);
    assert(whole.skip(4 + payload.len() as int) =~= rest);
}

/// Splits a frame header into the payload length and the compression flag.
pub fn decode_header(header: usize) -> (r: (usize, bool))
    ensures
        r.0 == header - COMPRESSION_BIT * (header / COMPRESSION_BIT % 2),
        r.1 == (header / COMPRESSION_BIT % 2 == 1),
        header <= u32::MAX ==> r.0 == header_len(header as u32) && r.1 == header_compressed(
            header as u32,
        ),
{
    let len = header & !COMPRESSION_BIT;
    let compressed = header & COMPRESSION_BIT == COMPRESSION_BIT;
    assert(header & !0x8000_0000usize == header - 0x8000_0000 * (header / 0x8000_0000 % 2))
        by (bit_vector);
    assert((header & 0x8000_0000usize == 0x8000_0000usize) == (header / 0x8000_0000 % 2 == 1))
        by (bit_vector);
    (len, compressed)
}

/// Adds the frame that carries `payload` behind the bytes of `buf`. A
/// payload too long for the header's 31 bits is refused, and nothing is
/// written.
pub fn write_frame(buf: &mut bytes::BytesMut, payload: &[u8], compressed: bool) -> (r: Result<
    (),
    HikvError,
>)
    ensures
        payload@.len() <= MAX_PAYLOAD ==> r is Ok && buffered(*final(buf)) == buffered(*old(buf))
            + frame(payload@, compressed),
        payload@.len() > MAX_PAYLOAD ==> (r matches Err(HikvError::FrameError)) && buffered(
            *final(buf),
        ) == buffered(*old(buf)),
{
    let len = payload.len();
    if len > MAX_PAYLOAD {
        return Err(HikvError::FrameError);
    }
    let header: u32 = if compressed {
        (len + COMPRESSION_BIT) as u32
    } else {
        len as u32
    };
    buf_put_u32(buf, header);
    buf_put_slice(buf, payload);
    assert(buffered(*buf) =~= buffered(*old(buf)) + frame(payload@, compressed));
    Ok(())
}

/// Takes the frame that `buf` starts with off it: its payload as it stands,
/// and whether the header marks it as compressed. Where `buf` does not hold
/// a whole frame yet, it is left as it is.
pub fn take_frame(buf: &mut bytes::BytesMut) -> (r: Result<(Vec<u8>, bool), HikvError>)
    ensures
        match r {
            Ok((payload, compressed)) => {
                &&& starts_with_frame(buffered(*old(buf)))
                &&& payload@ == first_frame_payload(buffered(*old(buf)))
                &&& compressed == header_compressed(from_be_u32(buffered(*old(buf)).take(4)))
                &&& buffered(*final(buf)) == buffered(*old(buf)).skip(
                    first_frame_len(buffered(*old(buf))) as int,
                )
            },
            Err(e) => {
                &&& e is DecodeError
                &&& !starts_with_frame(buffered(*old(buf)))
                &&& buffered(*final(buf)) == buffered(*old(buf))
            },
        },
{
    let ghost all = buffered(*buf);
    let have = buf_len(buf);
    if have < LEN_LEN {
        return Err(malformed("the header of the frame is not complete"));
    }
    let head = buf_prefix(buf, LEN_LEN);
    let header: u32 = head[0] as u32 * 0x100_0000 + head[1] as u32 * 0x1_0000 + head[2] as u32
        * 0x100 + head[3] as u32;
    let (len, compressed) = decode_header(header as usize);
    if have - LEN_LEN < len {
        return Err(malformed("the payload of the frame is not complete"));
    }
    buf_advance(buf, LEN_LEN);
    let payload = buf_prefix(buf, len);
    buf_advance(buf, len);
    assert(payload@ =~= all.subrange(4, 4 + len));
    assert(buffered(*buf) =~= all.skip(4 + len));
    Ok((payload, compressed))
}

/// Whether `buf` holds no bytes.
pub fn holds_nothing(buf: &bytes::BytesMut) -> (r: bool)
    ensures
        r == (buffered(*buf).len() == 0),
{
    buf_len(buf) == 0
}

/// Whether `buf` starts with a whole frame.
pub fn holds_frame(buf: &bytes::BytesMut) -> (r: bool)
    ensures
        r == starts_with_frame(buffered(*buf)),
{
    let have = buf_len(buf);
    if have < LEN_LEN {
        return false;
    }
    let head = buf_prefix(buf, LEN_LEN);
    let header: u32 = head[0] as u32 * 0x100_0000 + head[1] as u32 * 0x1_0000 + head[2] as u32
        * 0x100 + head[3] as u32;
    let (len, _) = decode_header(header as usize);
    have - LEN_LEN >= len
}

/// What is left of `buf` once the frame it starts with is taken off: all of
/// it where it does not start with a whole frame.
pub open spec fn after_first_frame(buf: Seq<u8>) -> Seq<u8> {
    if starts_with_frame(buf) {
        buf.skip(first_frame_len(buf) as int)
    } else {
        buf
    }
}

/// Whether `written` is one frame that carries the message bytes `message`:
/// whatever follows it in a buffer, it is the frame that the buffer starts
/// with, what it holds is `message`, and taking it off leaves what follows.
/// The top bit of its first byte is set exactly if `message` is above the
/// compression limit.
pub open spec fn reads_back_as(written: Seq<u8>, message: Seq<u8>) -> bool {
    &&& written.len() >= 4
    &&& (written[0] >= 0x80) == (message.len() > COMPRESSION_LIMIT)
    &&& forall|rest: Seq<u8>|
        #![trigger written + rest]
        first_frame(written + rest) == FirstFrame::Message(message) && after_first_frame(
            written + rest,
        ) == rest
}

/// The frame of a message reads back as the message, if compression gave
/// something that fits a frame and that decompresses to the message.
pub proof fn lemma_message_frame_reads_back(message: Seq<u8>)
    requires
        message.len() > COMPRESSION_LIMIT ==> gzip(message).len() <= MAX_PAYLOAD && gunzip(
            gzip(message),
        ) == Some(message),
    ensures
        reads_back_as(message_frame(message), message),
{
    let written = message_frame(message);
    assert forall|rest: Seq<u8>|
        #![trigger written + rest]
        first_frame(written + rest) == FirstFrame::Message(message) && after_first_frame(
            written + rest,
        ) == rest by {
        if message.len() <= COMPRESSION_LIMIT {
            lemma_frame_parts(message, false, rest);
        } else {
            lemma_frame_parts(gzip(message), true, rest);
        }
    }
    if message.len() <= COMPRESSION_LIMIT {
        lemma_frame_parts(message, false, Seq::empty());
    } else {
        lemma_frame_parts(gzip(message), true, Seq::empty());
    }
}

/// Whether a message with the bytes `message` can be framed: it is at most
/// [`MAX_FRAME`] long, and where it is compressed, what compression gives is
/// no more than a header can announce.
pub open spec fn frameable(message: Seq<u8>) -> bool {
    &&& message.len() <= MAX_FRAME
    &&& message.len() > COMPRESSION_LIMIT ==> gzip(message).len() <= MAX_PAYLOAD
}

/// Adds the frame for a message whose bytes are `message` behind the bytes of
/// `buf`.
///
/// A message up to [`COMPRESSION_LIMIT`] is framed as it is, a longer one is
/// compressed first. The message is framed exactly if it is [`frameable`];
/// else it is refused with `FrameError` and nothing is written.
pub fn frame_message(message: &[u8], buf: &mut bytes::BytesMut) -> (r: Result<(), HikvError>)
    ensures
        r is Ok <==> frameable(message@),
        match r {
            Ok(()) => {
                &&& buffered(*final(buf)) == buffered(*old(buf)) + message_frame(message@)
                &&& reads_back_as(message_frame(message@), message@)
            },
            Err(e) => {
                &&& buffered(*final(buf)) == buffered(*old(buf))
                &&& e is FrameError
            },
        },
{
    let size = message.len();
    if size > MAX_FRAME {
        return Err(HikvError::FrameError);
    }
    if size <= COMPRESSION_LIMIT {
        proof {
            lemma_message_frame_reads_back(message@);
        }
        return write_frame(buf, message, false);
    }
    let payload = compress(message).unwrap();
    let r = write_frame(buf, payload.as_slice(), true);
    proof {
        if payload@.len() <= MAX_PAYLOAD {
            lemma_message_frame_reads_back(message@);
        }
    }
    r
}

/// Takes the frame that `buf` starts with off it and returns the message
/// bytes that it carries.
///
/// Where `buf` does not hold a whole frame yet, it is left as it is and the
/// error is `DecodeError`. Otherwise the frame leaves the buffer, and the
/// error is `IoError`, with what the decoder says is wrong, where its payload
/// does not decompress.
pub fn unframe_message(buf: &mut bytes::BytesMut) -> (r: Result<Vec<u8>, HikvError>)
    ensures
        buffered(*final(buf)) == after_first_frame(buffered(*old(buf))),
        match first_frame(buffered(*old(buf))) {
            FirstFrame::Message(message) => r matches Ok(got) && got@ == message,
            FirstFrame::Incomplete => r matches Err(HikvError::DecodeError(_)),
            FirstFrame::Corrupt => r matches Err(HikvError::IoError(_)),
        },
{
    let (payload, compressed) = match take_frame(buf) {
        Ok(found) => found,
        Err(e) => { return Err(e); },
    };
    if compressed {
        match decompress(payload.as_slice()) {
            Ok(message) => Ok(message),
            Err(e) => Err(HikvError::IoError(io_error_text(&e))),
        }
    } else {
        Ok(payload)
    }
}

/// A message that travels in frames.
pub trait FrameCodec: View + Sized {
    /// The bytes of a message.
    spec fn wire(v: Self::V) -> Seq<u8>;

    /// The message that bytes spell.
    spec fn parse(bytes: Seq<u8>) -> Option<Self::V>;

    /// The bytes of this message. They read back as the message.
    fn to_wire(&self) -> (out: Vec<u8>)
        ensures
            out@ == Self::wire(self@),
            Self::parse(out@) == Some(self@),
    ;

    /// The message that `data` spells.
    fn from_wire(data: &[u8]) -> (r: Result<Self, HikvError>)
        ensures
            match r {
                Ok(m) => Self::parse(data@) == Some(m@),
                Err(e) => e is DecodeError && Self::parse(data@) is None,
            },
    ;

    /// Adds the frame of this message behind the bytes of `buf`.
    ///
    /// It succeeds exactly if the bytes of the message are [`frameable`]:
    /// always up to [`COMPRESSION_LIMIT`], never above [`MAX_FRAME`]. On
    /// success the frame that was added reads back as the bytes of this
    /// message, which spell this message; the top bit of its first byte
    /// tells whether it is compressed, which it is exactly if the message is
    /// above [`COMPRESSION_LIMIT`]. On failure the error is `FrameError` and
    /// nothing was added.
    fn encode_frame(&self, buf: &mut bytes::BytesMut) -> (r: Result<(), HikvError>)
        ensures
            r is Ok <==> frameable(Self::wire(self@)),
            match r {
                Ok(()) => {
                    &&& buffered(*final(buf)) == buffered(*old(buf)) + message_frame(
                        Self::wire(self@),
                    )
                    &&& reads_back_as(message_frame(Self::wire(self@)), Self::wire(self@))
                    &&& Self::parse(Self::wire(self@)) == Some(self@)
                },
                Err(e) => {
                    &&& buffered(*final(buf)) == buffered(*old(buf))
                    &&& e is FrameError
                },
            },
    {
        let message = self.to_wire();
        frame_message(message.as_slice(), buf)
    }

    /// Takes the frame that `buf` starts with off it and returns the message
    /// in it.
    ///
    /// Where `buf` does not hold a whole frame yet, it is left as it is and
    /// the error is `DecodeError`. Otherwise the frame leaves the buffer; the
    /// error is `IoError` where its payload does not decompress, and
    /// `DecodeError` where the bytes in it spell no message.
    fn decode_frame(buf: &mut bytes::BytesMut) -> (r: Result<Self, HikvError>)
        ensures
            buffered(*final(buf)) == after_first_frame(buffered(*old(buf))),
            match first_frame(buffered(*old(buf))) {
                FirstFrame::Message(message) => match Self::parse(message) {
                    Some(m) => r matches Ok(got) && got@ == m,
                    None => r matches Err(HikvError::DecodeError(_)),
                },
                FirstFrame::Incomplete => r matches Err(HikvError::DecodeError(_)),
                FirstFrame::Corrupt => r matches Err(HikvError::IoError(_)),
            },
    {
        match unframe_message(buf) {
            Ok(message) => Self::from_wire(message.as_slice()),
            Err(e) => Err(e),
        }
    }
}

impl FrameCodec for CommandRequest {
    open spec fn wire(v: Self::V) -> Seq<u8> {
        request_bytes(v)
    }

    open spec fn parse(bytes: Seq<u8>) -> Option<Self::V> {
        parse_request(bytes)
    }

    fn to_wire(&self) -> (out: Vec<u8>) {
        let mut out = Vec::new();
        write_request(self, &mut out);
        assert(out@ =~= request_bytes(self@));
        proof {
            lemma_request_round_trip(self@);
        }
        out
    }

    fn from_wire(data: &[u8]) -> (r: Result<Self, HikvError>) {
        read_request(data)
    }
}

impl FrameCodec for CommandResponse {
    open spec fn wire(v: Self::V) -> Seq<u8> {
        response_bytes(v)
    }

    open spec fn parse(bytes: Seq<u8>) -> Option<Self::V> {
        parse_response(bytes)
    }

    fn to_wire(&self) -> (out: Vec<u8>) {
        let mut out = Vec::new();
        write_response(self, &mut out);
        assert(out@ =~= response_bytes(self@));
        proof {
            lemma_response_round_trip(self@);
        }
        out
    }

    fn from_wire(data: &[u8]) -> (r: Result<Self, HikvError>) {
        read_response(data)
    }
}

/// What reading the frame at the front of a buffer as a message gives.
pub enum Framed<V> {
    /// The buffer does not hold a whole frame yet.
    Incomplete,
    /// The frame's payload is marked as compressed and does not decompress.
    Corrupt,
    /// The bytes in the frame spell no message.
    Malformed,
    /// The message in the frame.
    Message(V),
}

/// What reading the frame at the front of `buf` as a message of type `M`
/// gives. This is what [`FrameCodec::decode_frame`] returns, error for
/// error.
pub open spec fn first_message<M: FrameCodec>(buf: Seq<u8>) -> Framed<M::V> {
    match first_frame(buf) {
        FirstFrame::Incomplete => Framed::Incomplete,
        FirstFrame::Corrupt => Framed::Corrupt,
        FirstFrame::Message(bytes) => match M::parse(bytes) {
            None => Framed::Malformed,
            Some(m) => Framed::Message(m),
        },
    }
}

/// Whether `written` is one frame that carries the message `m`: whatever
/// follows it in a buffer, reading the buffer's first frame gives `m` and
/// leaves what follows.
pub open spec fn carries<M: FrameCodec>(written: Seq<u8>, m: M::V) -> bool {
    forall|rest: Seq<u8>|
        #![trigger written + rest]
        first_message::<M>(written + rest) == Framed::Message(m) && after_first_frame(
            written + rest,
        ) == rest
}

/// What [`FrameCodec::encode_frame`] writes is what [`FrameCodec::decode_frame`]
/// reads: a frame that reads back as the bytes of a message, which spell the
/// message, carries the message, compressed or not.
pub proof fn lemma_encoded_frame_carries<M: FrameCodec>(written: Seq<u8>, m: M::V)
    ensures
        reads_back_as(written, M::wire(m)) && M::parse(M::wire(m)) == Some(m) ==> {
            &&& carries::<M>(written, m)
            &&& first_message::<M>(written) == Framed::Message(m)
            &&& after_first_frame(written) == Seq::<u8>::empty()
        },
{
    assert(written + Seq::<u8>::empty() =~= written);
}

} // verus!
