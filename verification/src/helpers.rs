//! What the two codecs share: the byte buffer that frames are read from, the
//! search for the end of a field, and the eight bytes of a length.

use crate::types::NEWLINE;
use byteorder::{BigEndian, ByteOrder};
use tokio_core::io::EasyBuf;
use vstd::prelude::*;
use vstd::utf8::{decode_utf8, encode_utf8, encode_utf8_decode_utf8, valid_utf8};

verus! {

/// A buffer of received bytes that frames are taken from. It holds the
/// reference-counted `EasyBuf` of `tokio_core`, which splits without copying;
/// nothing inside it is visible to the verifier.
#[verifier::external_body]
pub struct FrameBuf {
    buf: EasyBuf,
}

/// The bytes that a buffer holds, from the first to the last.
pub uninterp spec fn buf_bytes(buf: FrameBuf) -> Seq<u8>;

/// `EasyBuf::from`: a buffer that holds the given bytes.
#[verifier::external_body]
#[allow(deprecated)]
pub(crate) fn buf_from_vec(bytes: Vec<u8>) -> (buf: FrameBuf)
    ensures
        buf_bytes(buf) == bytes@,
{
    FrameBuf { buf: EasyBuf::from(bytes) }
}

/// `EasyBuf::as_slice`: the bytes of the buffer as a slice.
#[verifier::external_body]
#[allow(deprecated)]
pub(crate) fn buf_as_slice(buf: &FrameBuf) -> (bytes: &[u8])
    ensures
        bytes@ == buf_bytes(*buf),
{
    buf.buf.as_slice()
}

/// `EasyBuf::clone`: a second buffer over the same bytes. The two share their
/// storage, and what is drained from one stays in the other.
#[verifier::external_body]
#[allow(deprecated)]
pub(crate) fn buf_clone(buf: &FrameBuf) -> (copy: FrameBuf)
    ensures
        buf_bytes(copy) == buf_bytes(*buf),
{
    FrameBuf { buf: buf.buf.clone() }
}

/// `EasyBuf::drain_to`: splits the buffer at `at`. The first `at` bytes are
/// returned and the buffer keeps the rest. The outside function panics where
/// `at` is beyond the end, so that is ruled out.
#[verifier::external_body]
#[allow(deprecated)]
pub(crate) fn buf_drain_to(buf: &mut FrameBuf, at: usize) -> (front: FrameBuf)
    requires
        at <= buf_bytes(*old(buf)).len(),
    ensures
        buf_bytes(front) == buf_bytes(*old(buf)).subrange(0, at as int),
        buf_bytes(*final(buf)) == buf_bytes(*old(buf)).subrange(
            at as int,
            buf_bytes(*old(buf)).len() as int,
        ),
{
    FrameBuf { buf: buf.buf.drain_to(at) }
}

impl View for FrameBuf {
    type V = Seq<u8>;

    /// The bytes that the buffer holds, from the first to the last.
    open spec fn view(&self) -> Seq<u8> {
        buf_bytes(*self)
    }
}

impl FrameBuf {
    /// A buffer that holds `bytes`.
    pub fn new(bytes: Vec<u8>) -> (buf: Self)
        ensures
            buf@ == bytes@,
    {
        buf_from_vec(bytes)
    }

    /// The bytes of the buffer.
    pub fn as_slice(&self) -> (bytes: &[u8])
        ensures
            bytes@ == self@,
    {
        buf_as_slice(self)
    }

    /// The number of bytes in the buffer.
    pub fn len(&self) -> (n: usize)
        ensures
            n == self@.len(),
    {
        buf_as_slice(self).len()
    }
}

/// `byteorder::BigEndian::read_u64`: the number that the first eight bytes
/// spell, most significant byte first. The outside function panics on fewer
/// than eight bytes, so that is ruled out.
#[verifier::external_body]
fn read_u64_be(bytes: &[u8]) -> (n: u64)
    requires
        bytes@.len() >= 8,
    ensures
        n == u64_from_be(bytes@.subrange(0, 8)),
{
    BigEndian::read_u64(bytes)
}

/// `byteorder::BigEndian::write_u64`: overwrites the first eight bytes with
/// `n`, most significant byte first, and leaves the rest alone. The outside
/// function panics on fewer than eight bytes, so that is ruled out.
#[verifier::external_body]
fn write_u64_be(buf: &mut Vec<u8>, n: u64)
    requires
        old(buf)@.len() >= 8,
    ensures
        final(buf)@ == u64_to_be(n) + old(buf)@.subrange(8, old(buf)@.len() as int),
{
    BigEndian::write_u64(buf.as_mut_slice(), n)
}

/// `std::str::from_utf8`: the string that the bytes spell in UTF-8, or nothing
/// where they are not UTF-8.
#[verifier::external_body]
pub(crate) fn str_from_utf8(bytes: &[u8]) -> (r: Option<&str>)
    ensures
        r is Some <==> valid_utf8(bytes@),
        r matches Some(s) ==> encode_utf8(s@) == bytes@,
{
    std::str::from_utf8(bytes).ok()
}

/// The eight bytes that spell `n`, most significant byte first.
pub open spec fn u64_to_be(n: u64) -> Seq<u8> {
    seq![
        (n >> 56) as u8,
        ((n >> 48) & 0xff) as u8,
        ((n >> 40) & 0xff) as u8,
        ((n >> 32) & 0xff) as u8,
        ((n >> 24) & 0xff) as u8,
        ((n >> 16) & 0xff) as u8,
        ((n >> 8) & 0xff) as u8,
        (n & 0xff) as u8,
    ]
}

/// The number that eight bytes spell, most significant byte first.
pub open spec fn u64_from_be(bytes: Seq<u8>) -> u64 {
    (bytes[0] as u64) << 56 | (bytes[1] as u64) << 48 | (bytes[2] as u64) << 40 | (bytes[3] as u64)
        << 32 | (bytes[4] as u64) << 24 | (bytes[5] as u64) << 16 | (bytes[6] as u64) << 8 | (
    bytes[7] as u64)
}

/// Reading the eight bytes of a number gives the number back.
pub proof fn lemma_u64_be_roundtrip(n: u64)
    ensures
        u64_to_be(n).len() == 8,
        u64_from_be(u64_to_be(n)) == n,
{
    assert(((((n >> 56) as u8) as u64) << 56 | ((((n >> 48) & 0xff) as u8) as u64) << 48 | ((((n
        >> 40) & 0xff) as u8) as u64) << 40 | ((((n >> 32) & 0xff) as u8) as u64) << 32 | ((((n
        >> 24) & 0xff) as u8) as u64) << 24 | ((((n >> 16) & 0xff) as u8) as u64) << 16 | ((((n
        >> 8) & 0xff) as u8) as u64) << 8 | (((n & 0xff) as u8) as u64)) == n) by (bit_vector);
}

/// The eight bytes that spell `i`, most significant byte first.
pub fn encode_int(i: u64) -> (bytes: Vec<u8>)
    ensures
        bytes@ == u64_to_be(i),
{
    let mut length: Vec<u8> = vec![0u8; 8];
    write_u64_be(&mut length, i);
    length
}

/// The number that a length field spells: the field must be exactly eight
/// bytes long.
pub fn decode_int(bytes: &[u8]) -> (r: Option<u64>)
    ensures
        r == (if bytes@.len() == 8 {
            Some(u64_from_be(bytes@))
        } else {
            None
        }),
{
    if bytes.len() == 8 {
        Some(read_u64_be(bytes))
    } else {
        None
    }
}

/// Where the first newline of `bytes` stands, if there is one.
pub open spec fn first_newline(bytes: Seq<u8>) -> Option<int>
    decreases bytes.len(),
{
    if bytes.len() == 0 {
        None
    } else if bytes[0] == NEWLINE {
        Some(0)
    } else {
        match first_newline(bytes.drop_first()) {
            Some(i) => Some(i + 1),
            None => None,
        }
    }
}

/// The first newline is a newline, and no newline comes before it; where
/// there is none, no byte is a newline.
pub proof fn lemma_first_newline(bytes: Seq<u8>)
    ensures
        match first_newline(bytes) {
            Some(i) => 0 <= i < bytes.len() && bytes[i] == NEWLINE && forall|j: int|
                0 <= j < i ==> bytes[j] != NEWLINE,
            None => forall|j: int| 0 <= j < bytes.len() ==> bytes[j] != NEWLINE,
        },
    decreases bytes.len(),
{
    if bytes.len() > 0 && bytes[0] != NEWLINE {
        let rest = bytes.drop_first();
        lemma_first_newline(rest);
        match first_newline(rest) {
            Some(i) => {
                assert forall|j: int| 0 <= j < i + 1 implies bytes[j] != NEWLINE by {
                    if j > 0 {
                        assert(bytes[j] == rest[j - 1]);
                    }
                }
            },
            None => {
                assert forall|j: int| 0 <= j < bytes.len() implies bytes[j] != NEWLINE by {
                    if j > 0 {
                        assert(bytes[j] == rest[j - 1]);
                    }
                }
            },
        }
    }
}

/// A newline that no newline comes before is the first one.
pub proof fn lemma_first_newline_is(bytes: Seq<u8>, i: int)
    requires
        0 <= i < bytes.len(),
        bytes[i] == NEWLINE,
        forall|j: int| 0 <= j < i ==> bytes[j] != NEWLINE,
    ensures
        first_newline(bytes) == Some(i),
{
    lemma_first_newline(bytes);
}

/// Finds the first newline of `bytes`.
pub fn find_newline(bytes: &[u8]) -> (r: Option<usize>)
    ensures
        match r {
            Some(i) => first_newline(bytes@) == Some(i as int),
            None => first_newline(bytes@) is None,
        },
{
    let mut i: usize = 0;
    while i < bytes.len()
        invariant
            i <= bytes@.len(),
            forall|j: int| 0 <= j < i ==> bytes@[j] != NEWLINE,
        decreases bytes@.len() - i,
    {
        if bytes[i] == NEWLINE {
            proof {
                lemma_first_newline_is(bytes@, i as int);
            }
            return Some(i);
        }
        i = i + 1;
    }
    proof {
        lemma_first_newline(bytes@);
    }
    None
}

/// Takes the next field off the buffer: the bytes before the first newline
/// are handed to `convert`, and they and the newline leave the buffer. A
/// buffer without a newline stays as it is and gives nothing.
pub fn parse_bytes<F, T>(buf: &mut FrameBuf, convert: F) -> (r: Option<T>) where
    F: Fn(&[u8]) -> Option<T>,

    requires
        forall|field: &[u8]| call_requires(convert, (field,)),
    ensures
        match first_newline(old(buf)@) {
            Some(idx) => final(buf)@ == old(buf)@.subrange(idx + 1, old(buf)@.len() as int)
                && exists|field: &[u8]|
                field@ == old(buf)@.subrange(0, idx) && #[trigger] call_ensures(
                    convert,
                    (field,),
                    r,
                ),
            None => r is None && final(buf)@ == old(buf)@,
        },
{
    match find_newline(buf_as_slice(buf)) {
        Some(idx) => {
            proof {
                lemma_first_newline(buf@);
            }
            let bytes = buf_drain_to(buf, idx);
            let _ = buf_drain_to(buf, 1);
            convert(buf_as_slice(&bytes))
        },
        None => None,
    }
}

/// The key that a field spells, if the field is UTF-8.
pub fn key_from_bytes(bytes: &[u8]) -> (r: Option<String>)
    ensures
        r is Some <==> valid_utf8(bytes@),
        r matches Some(key) ==> key@ == decode_utf8(bytes@),
{
    match str_from_utf8(bytes) {
        Some(s) => {
            proof {
                encode_utf8_decode_utf8(s@);
            }
            Some(s.to_owned())
        },
        None => None,
    }
}

} // verus!
