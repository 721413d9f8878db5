//! The server's side of the wire: requests are read, responses are written.

use crate::frame::{parse_request, read_payload, response_frame, FrameError, Parsed};
use crate::helpers::{
    buf_as_slice, buf_clone, encode_int, find_newline, key_from_bytes, parse_bytes, FrameBuf,
};
use crate::types::{CacheCommand, CacheResponse, Command, NEWLINE};
use vstd::prelude::*;

verus! {

/// Reads requests from the bytes of a connection and writes responses to
/// it.
pub struct CacheServerCodec {}

/// The name under which the server's own modules know the codec.
pub type CacheCommandCodec = CacheServerCodec;

impl CacheServerCodec {
    /// Takes the next request off the buffer. Bytes that are only the start
    /// of a request stay where they are until the rest has come, so the call
    /// can be made again after every read. Bytes that cannot start a request
    /// are an error and stay where they are, too.
    pub fn decode(&mut self, buf: &mut FrameBuf) -> (r: Result<Option<CacheCommand>, FrameError>)
        ensures
            match parse_request(old(buf)@) {
                Parsed::Incomplete => r matches Ok(None) && final(buf)@ == old(buf)@,
                Parsed::Malformed(e) => r matches Err(err) && err == e && final(buf)@ == old(
                    buf)@,
                Parsed::Frame { message, rest } => r matches Ok(Some(request)) && request@
                    == message && final(buf)@ == rest,
            },
    {
        let mut rest = buf_clone(buf);
        if find_newline(buf_as_slice(&rest)).is_none() {
            return Ok(None);
        }
        let command = match parse_bytes(&mut rest, Command::from_bytes) {
            Some(command) => command,
            None => {
                return Err(FrameError::UnknownWord);
            },
        };
        if find_newline(buf_as_slice(&rest)).is_none() {
            return Ok(None);
        }
        let key = match parse_bytes(&mut rest, key_from_bytes) {
            Some(key) => key,
            None => {
                return Err(FrameError::InvalidKey);
            },
        };
        match read_payload(&mut rest) {
            Err(e) => Err(e),
            Ok(None) => Ok(None),
            Ok(Some((length, value))) => {
                *buf = rest;
                Ok(Some(CacheCommand { command: command, key: key, length: length, value: value }))
            },
        }
    }

    /// Writes a response behind what the buffer holds. Every response can be
    /// written.
    pub fn encode(&mut self, msg: CacheResponse, buf: &mut Vec<u8>) -> (r: Result<(), FrameError>)
        ensures
            r is Ok,
            final(buf)@ == old(buf)@ + response_frame(msg@),
    {
        let ghost frame = response_frame(msg@);
        let mut msg = msg;
        let mut word = msg.response_type.as_bytes();
        buf.append(&mut word);
        buf.push(NEWLINE);
        let mut length = encode_int(msg.length);
        buf.append(&mut length);
        buf.push(NEWLINE);
        buf.append(&mut msg.data);
        Ok(())
    }
}

} // verus!
