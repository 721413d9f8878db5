//! The client's side of the wire: requests are written, responses are read.

use crate::frame::{parse_response, read_payload, request_frame, FrameError, Parsed};
use crate::helpers::{buf_as_slice, buf_clone, encode_int, find_newline, parse_bytes, FrameBuf};
use crate::types::{CacheCommand, CacheResponse, CommandResult, NEWLINE};
use vstd::prelude::*;
use vstd::slice::slice_to_vec;

verus! {

/// Writes requests to the bytes of a connection and reads responses from
/// it.
pub struct CacheClientCodec {}

impl CacheClientCodec {
    /// Takes the next response off the buffer. Bytes that are only the start
    /// of a response stay where they are until the rest has come. Bytes that
    /// cannot start a response are an error and stay where they are, too.
    pub fn decode(&mut self, buf: &mut FrameBuf) -> (r: Result<Option<CacheResponse>, FrameError>)
        ensures
            match parse_response(old(buf)@) {
                Parsed::Incomplete => r matches Ok(None) && final(buf)@ == old(buf)@,
                Parsed::Malformed(e) => r matches Err(err) && err == e && final(buf)@ == old(
                    buf)@,
                Parsed::Frame { message, rest } => r matches Ok(Some(response)) && response@
                    == message && final(buf)@ == rest,
            },
    {
        let mut rest = buf_clone(buf);
        if find_newline(buf_as_slice(&rest)).is_none() {
            return Ok(None);
        }
        let response_type = match parse_bytes(&mut rest, CommandResult::from_bytes) {
            Some(response_type) => response_type,
            None => {
                return Err(FrameError::UnknownWord);
            },
        };
        match read_payload(&mut rest) {
            Err(e) => Err(e),
            Ok(None) => Ok(None),
            Ok(Some((length, data))) => {
                *buf = rest;
                Ok(Some(CacheResponse { response_type: response_type, length: length, data: data }))
            },
        }
    }

    /// Writes a request behind what the buffer holds. Every request can be
    /// written; whether a server can read it again is another matter.
    pub fn encode(&mut self, msg: CacheCommand, buf: &mut Vec<u8>) -> (r: Result<(), FrameError>)
        ensures
            r is Ok,
            final(buf)@ == old(buf)@ + request_frame(msg@),
    {
        let ghost frame = request_frame(msg@);
        let mut msg = msg;
        let mut word = msg.command.as_bytes();
        buf.append(&mut word);
        buf.push(NEWLINE);
        let mut key = slice_to_vec(msg.key.as_str().as_bytes());
        buf.append(&mut key);
        buf.push(NEWLINE);
        let mut length = encode_int(msg.length);
        buf.append(&mut length);
        buf.push(NEWLINE);
        buf.append(&mut msg.value);
        Ok(())
    }
}

} // verus!
