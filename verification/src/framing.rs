use asynchronous_codec::{BytesMut, Decoder, Encoder};
use std::io::{Cursor, ErrorKind};
use unsigned_varint::codec::UviBytes;
use vstd::prelude::*;

use crate::error::{ConnResult, ConnectionError, IoErrorKind};
use crate::seq_ops::first_index;

verus! {

/// The default maximum size for a varint length-delimited packet.
pub const DEFAULT_MAX_PACKET_SIZE: usize = 16 * 1024;

/// A number in groups of seven bits, the lowest first, in as few bytes as it takes; all bytes but
/// the last have their highest bit set.
pub open spec fn varint(n: nat) -> Seq<u8>
    decreases n,
{
    if n < 128 {
        seq![n as u8]
    } else {
        seq![(n % 128 + 128) as u8] + varint(n / 128)
    }
}

/// The number whose groups of seven bits are in `bytes`.
pub open spec fn varint_value(bytes: Seq<u8>) -> nat
    decreases bytes.len(),
{
    if bytes.len() == 0 {
        0
    } else {
        (bytes[0] % 128) as nat + 128 * varint_value(bytes.drop_first())
    }
}

/// The packet that carries `payload`.
pub open spec fn packet(payload: Seq<u8>) -> Seq<u8> {
    varint(payload.len()) + payload
}

/// What stands at the beginning of received bytes, where the length of a packet is expected.
pub enum Header {
    /// The bytes end before the length does.
    Incomplete,
    /// The length takes more bytes than a `usize` has groups of seven bits.
    TooLong,
    /// The length could be written with fewer bytes.
    NotMinimal,
    /// The length `value`, in `size` bytes. Bits that a `usize` has no room for are lost.
    Length { value: nat, size: nat },
}

/// How many groups of seven bits make a `usize`.
pub open spec fn max_header_size() -> nat {
    ((usize::BITS + 6) / 7) as nat
}

/// The header with which `buf` begins.
pub open spec fn header(buf: Seq<u8>) -> Header {
    let stop = first_index(buf, |b: u8| b < 128);
    if stop < buf.len() && stop < max_header_size() {
        if stop > 0 && buf[stop as int] == 0 {
            Header::NotMinimal
        } else {
            Header::Length {
                value: varint_value(buf.take(stop as int + 1)) % (usize::MAX + 1) as nat,
                size: stop + 1,
            }
        }
    } else if buf.len() >= max_header_size() {
        Header::TooLong
    } else {
        Header::Incomplete
    }
}

/// What received bytes begin with.
pub enum Unframed {
    /// Not yet a whole packet.
    Incomplete,
    /// Something that is no packet.
    Malformed { reason: Seq<char> },
    /// A packet that is longer than what is permitted.
    Oversized,
    /// A packet, after which come the bytes `rest`.
    Packet { payload: Seq<u8>, rest: Seq<u8> },
}

/// What `buf` begins with, where packets carry up to `max` bytes.
pub open spec fn unframed(buf: Seq<u8>, max: nat) -> Unframed {
    match header(buf) {
        Header::Incomplete => Unframed::Incomplete,
        Header::TooLong => Unframed::Malformed { reason: "input bytes exceed maximum"@ },
        Header::NotMinimal => Unframed::Malformed { reason: "encoding is not minimal"@ },
        Header::Length { value, size } => if value > max {
            Unframed::Oversized
        } else if size + value <= buf.len() {
            Unframed::Packet {
                payload: buf.subrange(size as int, (size + value) as int),
                rest: buf.skip((size + value) as int),
            }
        } else {
            Unframed::Incomplete
        },
    }
}

/// `UviBytes::encode` of the crate `unsigned_varint`, limited to `max` bytes by
/// `UviBytes::set_max_len`: it refuses what is longer, and else writes the length and the bytes.
#[verifier::external_body]
fn uvi_encode(max: usize, payload: Vec<u8>) -> (frame: Result<Vec<u8>, IoErrorKind>)
    ensures
        match frame {
            Ok(bytes) => payload@.len() <= max && bytes@ == packet(payload@),
            Err(kind) => payload@.len() > max && kind == IoErrorKind::PermissionDenied,
        },
{
    let mut codec: UviBytes<Cursor<Vec<u8>>> = UviBytes::default();
    codec.set_max_len(max);
    let mut dst = BytesMut::new();
    match codec.encode(Cursor::new(payload), &mut dst) {
        Ok(()) => Ok(dst.to_vec()),
        Err(err) => Err(match err.kind() {
            ErrorKind::PermissionDenied => IoErrorKind::PermissionDenied,
            _ => IoErrorKind::Other(Some(err.to_string())),
        }),
    }
}

/// `UviBytes::decode` of the crate `unsigned_varint`, limited to `max` bytes by
/// `UviBytes::set_max_len`, on bytes at whose beginning a length is expected: it reads the length
/// and takes that many bytes, once they are all there. The limit keeps the memory that it sets
/// aside for bytes to come small.
#[verifier::external_body]
fn uvi_decode(max: usize, buf: &Vec<u8>) -> (frame: Result<
    Option<(Vec<u8>, Vec<u8>)>,
    IoErrorKind,
>)
    requires
        max <= DEFAULT_MAX_PACKET_SIZE,
    ensures
        match frame {
            Ok(None) => unframed(buf@, max as nat) is Incomplete,
            Ok(Some((payload, rest))) => unframed(buf@, max as nat) == (Unframed::Packet {
                payload: payload@,
                rest: rest@,
            }),
            Err(IoErrorKind::PermissionDenied) => unframed(buf@, max as nat) is Oversized,
            Err(IoErrorKind::Other(Some(reason))) => unframed(buf@, max as nat) == (
            Unframed::Malformed { reason: reason@ }),
            Err(_) => false,
        },
{
    let mut codec: UviBytes<Cursor<Vec<u8>>> = UviBytes::default();
    codec.set_max_len(max);
    let mut src = BytesMut::from(buf.as_slice());
    match codec.decode(&mut src) {
        Ok(packet) => Ok(packet.map(|bytes| (bytes.to_vec(), src.to_vec()))),
        Err(err) => Err(match err.kind() {
            ErrorKind::PermissionDenied => IoErrorKind::PermissionDenied,
            _ => IoErrorKind::Other(Some(err.to_string())),
        }),
    }
}

/// The packet that carries `payload`, which is refused where it is too long.
pub fn encode_frame(payload: Vec<u8>) -> (frame: ConnResult<Vec<u8>>)
    ensures
        match frame {
            Ok(bytes) => payload@.len() <= DEFAULT_MAX_PACKET_SIZE && bytes@ == packet(payload@),
            Err(error) => payload@.len() > DEFAULT_MAX_PACKET_SIZE && error
                == ConnectionError::IOError(Some(IoErrorKind::PermissionDenied)),
        },
{
    match uvi_encode(DEFAULT_MAX_PACKET_SIZE, payload) {
        Ok(bytes) => Ok(bytes),
        Err(kind) => Err(ConnectionError::IOError(Some(kind))),
    }
}

/// Takes a packet from the beginning of received bytes: gives its payload and the bytes that come
/// after it, or nothing while it is not complete.
pub fn decode_frame(buf: &Vec<u8>) -> (frame: ConnResult<Option<(Vec<u8>, Vec<u8>)>>)
    ensures
        match unframed(buf@, DEFAULT_MAX_PACKET_SIZE as nat) {
            Unframed::Incomplete => frame == ConnResult::<Option<(Vec<u8>, Vec<u8>)>>::Ok(None),
            Unframed::Packet { payload, rest } => frame matches Ok(Some((p, r))) && p@ == payload
                && r@ == rest,
            Unframed::Oversized => frame == ConnResult::<Option<(Vec<u8>, Vec<u8>)>>::Err(
                ConnectionError::IOError(Some(IoErrorKind::PermissionDenied)),
            ),
            Unframed::Malformed { reason } => frame matches Err(
                ConnectionError::IOError(Some(IoErrorKind::Other(Some(text)))),
            ) && text@ == reason,
        },
{
    match uvi_decode(DEFAULT_MAX_PACKET_SIZE, buf) {
        Ok(found) => Ok(found),
        Err(kind) => Err(ConnectionError::IOError(Some(kind))),
    }
}

} // verus!
