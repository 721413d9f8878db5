//! What a server does with a request once it has been read: it hands it to
//! the cache and says in a response how that went.

use crate::cache::{after_get, after_put, lookup, LruCache};
use crate::types::{CacheCommand, CacheResponse, Command, CommandResult, ResponseView};
use vstd::prelude::*;
use vstd::slice::slice_to_vec;

verus! {

/// The bytes that answer a get of a key that is not there: `Not Found`, in
/// ASCII.
pub open spec fn not_found() -> Seq<u8> {
    seq![0x4eu8, 0x6fu8, 0x74u8, 0x20u8, 0x46u8, 0x6fu8, 0x75u8, 0x6eu8, 0x64u8]
}

/// The response that is owed to a request when the cache held `entries`
/// before it. A put succeeds without data, also where the value was too
/// large to be stored. A get succeeds with the value, or fails with
/// `Not Found`.
pub open spec fn response_to(
    entries: Seq<(Seq<char>, Seq<u8>)>,
    command: Command,
    key: Seq<char>,
) -> ResponseView {
    match command {
        Command::PUT => ResponseView {
            response_type: CommandResult::SUCCESS,
            length: 0,
            data: Seq::empty(),
        },
        Command::GET => match lookup(entries, key) {
            Some(value) => ResponseView {
                response_type: CommandResult::SUCCESS,
                length: value.len() as u64,
                data: value,
            },
            None => ResponseView {
                response_type: CommandResult::FAILURE,
                length: 9,
                data: not_found(),
            },
        },
    }
}

/// The service: the one cache that all requests are made on.
pub struct CacheSrv {
    pub cache: LruCache,
}

impl CacheSrv {
    /// Carries out one request on the cache and gives the response to it.
    /// Every request gets exactly one response.
    pub fn call(&mut self, req: CacheCommand) -> (response: CacheResponse)
        requires
            old(self).cache.wf(),
        ensures
            final(self).cache.wf(),
            final(self).cache.budget() == old(self).cache.budget(),
            final(self).cache@ == (match req.command {
                Command::PUT => after_put(
                    old(self).cache@,
                    old(self).cache.budget(),
                    req.key@,
                    req.value@,
                ),
                Command::GET => after_get(old(self).cache@, req.key@),
            }),
            response@ == response_to(old(self).cache@, req.command, req.key@),
    {
        match req.command {
            Command::PUT => {
                self.cache.put(req.key, req.value);
                CacheResponse { response_type: CommandResult::SUCCESS, length: 0, data: Vec::new() }
            },
            Command::GET => {
                match self.cache.get(&req.key) {
                    Some(data) => {
                        let copy = slice_to_vec(data.as_slice());
                        CacheResponse {
                            response_type: CommandResult::SUCCESS,
                            length: copy.len() as u64,
                            data: copy,
                        }
                    },
                    None => {
                        let msg: Vec<u8> = vec![
                            0x4eu8,
                            0x6fu8,
                            0x74u8,
                            0x20u8,
                            0x46u8,
                            0x6fu8,
                            0x75u8,
                            0x6eu8,
                            0x64u8,
                        ];
                        CacheResponse {
                            response_type: CommandResult::FAILURE,
                            length: msg.len() as u64,
                            data: msg,
                        }
                    },
                }
            },
        }
    }
}

} // verus!
