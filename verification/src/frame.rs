//! The wire format. A request is the command word, the key and the eight
//! bytes of the value's length, each ended by a newline, and then the value.
//! A response is the result word and the eight bytes of a length, each ended
//! by a newline, and then the data.

use crate::helpers::{
    buf_as_slice, buf_clone, buf_drain_to, decode_int, encode_int, find_newline, first_newline,
    lemma_first_newline, lemma_first_newline_is, lemma_u64_be_roundtrip, parse_bytes, u64_from_be,
    u64_to_be, FrameBuf,
};
use crate::types::{
    CacheCommand, CacheResponse, Command, CommandResult, CommandView, ResponseView, NEWLINE,
};
use vstd::prelude::*;
use vstd::slice::slice_to_vec;
use vstd::utf8::{
    decode_utf8, encode_utf8, encode_utf8_decode_utf8, encode_utf8_valid_utf8, valid_utf8,
};

verus! {

/// Why a frame cannot be read, however many bytes follow.
#[derive(PartialEq, Eq, Structural, Debug, Clone, Copy)]
pub enum FrameError {
    /// The first field is not a word of the protocol.
    UnknownWord,
    /// The key is not UTF-8.
    InvalidKey,
    /// The length field is not eight bytes long.
    InvalidLength,
}

/// What the bytes received so far amount to.
pub enum Parsed<M> {
    /// The bytes may be the start of a frame; more are needed.
    Incomplete,
    /// The bytes are not the start of any frame.
    Malformed(FrameError),
    /// The bytes start with a whole frame; `rest` is what follows it.
    Frame { message: M, rest: Seq<u8> },
}

/// The next field of `bytes` and what follows its newline, if `bytes` holds
/// a newline.
pub open spec fn split_field(bytes: Seq<u8>) -> Option<(Seq<u8>, Seq<u8>)> {
    match first_newline(bytes) {
        Some(i) => Some((bytes.subrange(0, i), bytes.subrange(i + 1, bytes.len() as int))),
        None => None,
    }
}

/// The bytes of a request on the wire.
pub open spec fn request_frame(m: CommandView) -> Seq<u8> {
    m.command.word() + seq![NEWLINE] + encode_utf8(m.key) + seq![NEWLINE] + u64_to_be(m.length)
        + seq![NEWLINE] + m.value
}

/// The bytes of a response on the wire.
pub open spec fn response_frame(m: ResponseView) -> Seq<u8> {
    m.response_type.word() + seq![NEWLINE] + u64_to_be(m.length) + seq![NEWLINE] + m.data
}

/// The length field and the payload that it announces: `bytes` must hold a
/// field of exactly eight bytes and then as many bytes as the field says.
pub open spec fn parse_payload(bytes: Seq<u8>) -> Parsed<(u64, Seq<u8>)> {
    match split_field(bytes) {
        None => Parsed::Incomplete,
        Some((field, rest)) => if field.len() != 8 {
            Parsed::Malformed(FrameError::InvalidLength)
        } else if rest.len() < u64_from_be(field) {
            Parsed::Incomplete
        } else {
            Parsed::Frame {
                message: (u64_from_be(field), rest.subrange(0, u64_from_be(field) as int)),
                rest: rest.subrange(u64_from_be(field) as int, rest.len() as int),
            }
        },
    }
}

/// How a server reads the bytes of a connection. The fields are read in
/// their order, each up to the next newline. A field whose newline has not
/// come yet leaves the frame incomplete; a word that is no command, a key
/// that is not UTF-8 and a length field that is not eight bytes long make it
/// malformed.
pub open spec fn parse_request(bytes: Seq<u8>) -> Parsed<CommandView> {
    match split_field(bytes) {
        None => Parsed::Incomplete,
        Some((word, after_word)) => match Command::parse(word) {
            None => Parsed::Malformed(FrameError::UnknownWord),
            Some(command) => match split_field(after_word) {
                None => Parsed::Incomplete,
                Some((key, after_key)) => if !valid_utf8(key) {
                    Parsed::Malformed(FrameError::InvalidKey)
                } else {
                    match parse_payload(after_key) {
                        Parsed::Incomplete => Parsed::Incomplete,
                        Parsed::Malformed(e) => Parsed::Malformed(e),
                        Parsed::Frame { message, rest } => Parsed::Frame {
                            message: CommandView {
                                command: command,
                                key: decode_utf8(key),
                                length: message.0,
                                value: message.1,
                            },
                            rest: rest,
                        },
                    }
                },
            },
        },
    }
}

/// How a client reads the bytes of a connection: as a server does, but a
/// response has a result word and no key.
pub open spec fn parse_response(bytes: Seq<u8>) -> Parsed<ResponseView> {
    match split_field(bytes) {
        None => Parsed::Incomplete,
        Some((word, after_word)) => match CommandResult::parse(word) {
            None => Parsed::Malformed(FrameError::UnknownWord),
            Some(result) => match parse_payload(after_word) {
                Parsed::Incomplete => Parsed::Incomplete,
                Parsed::Malformed(e) => Parsed::Malformed(e),
                Parsed::Frame { message, rest } => Parsed::Frame {
                    message: ResponseView {
                        response_type: result,
                        length: message.0,
                        data: message.1,
                    },
                    rest: rest,
                },
            },
        },
    }
}

/// Reads the length field and the payload off the buffer. They leave the
/// buffer only when both are there in full; otherwise the buffer stays as it
/// is.
pub fn read_payload(buf: &mut FrameBuf) -> (r: Result<Option<(u64, Vec<u8>)>, FrameError>)
    ensures
        match parse_payload(old(buf)@) {
            Parsed::Incomplete => r matches Ok(None) && final(buf)@ == old(buf)@,
            Parsed::Malformed(e) => r matches Err(err) && err == e && final(buf)@ == old(buf)@,
            Parsed::Frame { message, rest } => r matches Ok(Some(payload)) && payload.0
                == message.0 && payload.1@ == message.1 && final(buf)@ == rest,
        },
{
    let mut rest = buf_clone(buf);
    if find_newline(buf_as_slice(&rest)).is_none() {
        return Ok(None);
    }
    let length = match parse_bytes(&mut rest, decode_int) {
        Some(n) => n,
        None => {
            return Err(FrameError::InvalidLength);
        },
    };
    let available = buf_as_slice(&rest).len();
    if (available as u64) < length {
        return Ok(None);
    }
    let front = buf_drain_to(&mut rest, length as usize);
    let value = slice_to_vec(buf_as_slice(&front));
    *buf = rest;
    Ok(Some((length, value)))
}

/// A request that is read back as it was written: the key holds no newline,
/// the length is that of the value, and none of the eight bytes that spell
/// the length is a newline.
pub open spec fn readable_request(m: CommandView) -> bool {
    &&& !encode_utf8(m.key).contains(NEWLINE)
    &&& m.length == m.value.len()
    &&& !u64_to_be(m.length).contains(NEWLINE)
}

/// A response that is read back as it was written: the length is that of
/// the data, and none of the eight bytes that spell it is a newline.
pub open spec fn readable_response(m: ResponseView) -> bool {
    &&& m.length == m.data.len()
    &&& !u64_to_be(m.length).contains(NEWLINE)
}

/// A field without a newline, its newline and whatever follows split into
/// the field and what follows.
pub proof fn lemma_split_field(field: Seq<u8>, tail: Seq<u8>)
    requires
        !field.contains(NEWLINE),
    ensures
        split_field(field + seq![NEWLINE] + tail) == Some((field, tail)),
{
    let bytes = field + seq![NEWLINE] + tail;
    let i = field.len() as int;
    lemma_first_newline_is(bytes, i);
}

/// A length whose bytes hold no newline, and a payload of that length, are
/// read back whatever follows them.
pub proof fn lemma_payload_round_trip(length: u64, data: Seq<u8>, residue: Seq<u8>)
    requires
        length == data.len(),
        !u64_to_be(length).contains(NEWLINE),
    ensures
        parse_payload(u64_to_be(length) + seq![NEWLINE] + data + residue) == (Parsed::Frame {
            message: (length, data),
            rest: residue,
        }),
{
    let field = u64_to_be(length);
    let tail = data + residue;
    assert(field + seq![NEWLINE] + data + residue =~= field + seq![NEWLINE] + tail);
    lemma_split_field(field, tail);
    lemma_u64_be_roundtrip(length);
    assert(tail.subrange(0, length as int) =~= data);
    assert(tail.subrange(length as int, tail.len() as int) =~= residue);
}

/// A readable request is read back as it was written, and what follows it on
/// the wire is left over untouched.
pub proof fn lemma_request_round_trip(m: CommandView, residue: Seq<u8>)
    requires
        readable_request(m),
    ensures
        parse_request(request_frame(m) + residue) == (Parsed::Frame { message: m, rest: residue }),
{
    let key = encode_utf8(m.key);
    let payload = u64_to_be(m.length) + seq![NEWLINE] + m.value + residue;
    let after_word = key + seq![NEWLINE] + payload;
    assert(request_frame(m) + residue =~= m.command.word() + seq![NEWLINE] + after_word);
    lemma_split_field(m.command.word(), after_word);
    lemma_split_field(key, payload);
    encode_utf8_valid_utf8(m.key);
    encode_utf8_decode_utf8(m.key);
    lemma_payload_round_trip(m.length, m.value, residue);
}

/// A readable response is read back as it was written, and what follows it
/// on the wire is left over untouched.
pub proof fn lemma_response_round_trip(m: ResponseView, residue: Seq<u8>)
    requires
        readable_response(m),
    ensures
        parse_response(response_frame(m) + residue) == (Parsed::Frame {
            message: m,
            rest: residue,
        }),
{
    let payload = u64_to_be(m.length) + seq![NEWLINE] + m.data + residue;
    assert(response_frame(m) + residue =~= m.response_type.word() + seq![NEWLINE] + payload);
    lemma_split_field(m.response_type.word(), payload);
    lemma_payload_round_trip(m.length, m.data, residue);
}

/// Whether `bytes` holds a newline.
pub fn has_newline(bytes: &[u8]) -> (r: bool)
    ensures
        r == bytes@.contains(NEWLINE),
{
    proof {
        lemma_first_newline(bytes@);
    }
    find_newline(bytes).is_some()
}

/// Whether a server will read the request back as it is written.
pub fn request_is_readable(msg: &CacheCommand) -> (r: bool)
    ensures
        r == readable_request(msg@),
{
    let length = encode_int(msg.length);
    !has_newline(msg.key.as_str().as_bytes()) && msg.length == msg.value.len() as u64
        && !has_newline(length.as_slice())
}

/// Whether a client will read the response back as it is written.
pub fn response_is_readable(msg: &CacheResponse) -> (r: bool)
    ensures
        r == readable_response(msg@),
{
    let length = encode_int(msg.length);
    msg.length == msg.data.len() as u64 && !has_newline(length.as_slice())
}

} // verus!
