//! The messages of the protocol: commands sent by a client and the responses
//! a server gives.

use vstd::prelude::*;

verus! {

/// The byte that ends a newline-terminated field of a frame.
pub const NEWLINE: u8 = 0x0a;

/// What a client asks of the cache.
#[derive(PartialEq, Eq, Structural, Debug, Clone, Copy)]
pub enum Command {
    PUT,
    GET,
}

impl Command {
    /// The word that stands for this command on the wire: `put` or `get`, in
    /// ASCII.
    pub open spec fn word(self) -> Seq<u8> {
        match self {
            Command::PUT => seq![0x70u8, 0x75u8, 0x74u8],
            Command::GET => seq![0x67u8, 0x65u8, 0x74u8],
        }
    }

    /// The command that a word names, if it names one.
    pub open spec fn parse(word: Seq<u8>) -> Option<Command> {
        if word == Command::PUT.word() {
            Some(Command::PUT)
        } else if word == Command::GET.word() {
            Some(Command::GET)
        } else {
            None
        }
    }

    /// Reads a command word: `put` or `get` and nothing else.
    pub fn from_bytes(bytes: &[u8]) -> (r: Option<Command>)
        ensures
            r == Command::parse(bytes@),
    {
        let put = Command::PUT.as_bytes();
        let get = Command::GET.as_bytes();
        if same_bytes(bytes, put.as_slice()) {
            Some(Command::PUT)
        } else if same_bytes(bytes, get.as_slice()) {
            Some(Command::GET)
        } else {
            None
        }
    }

    /// The word that stands for this command on the wire.
    pub fn as_bytes(&self) -> (r: Vec<u8>)
        ensures
            r@ == self.word(),
    {
        match self {
            Command::PUT => vec![0x70u8, 0x75u8, 0x74u8],
            Command::GET => vec![0x67u8, 0x65u8, 0x74u8],
        }
    }
}

/// How a request ended.
#[derive(PartialEq, Eq, Structural, Debug, Clone, Copy)]
pub enum CommandResult {
    SUCCESS,
    FAILURE,
}

impl CommandResult {
    /// The word that stands for this result on the wire: `success` or
    /// `failure`, in ASCII.
    pub open spec fn word(self) -> Seq<u8> {
        match self {
            CommandResult::SUCCESS => seq![0x73u8, 0x75u8, 0x63u8, 0x63u8, 0x65u8, 0x73u8, 0x73u8],
            CommandResult::FAILURE => seq![0x66u8, 0x61u8, 0x69u8, 0x6cu8, 0x75u8, 0x72u8, 0x65u8],
        }
    }

    /// The result that a word names, if it names one.
    pub open spec fn parse(word: Seq<u8>) -> Option<CommandResult> {
        if word == CommandResult::SUCCESS.word() {
            Some(CommandResult::SUCCESS)
        } else if word == CommandResult::FAILURE.word() {
            Some(CommandResult::FAILURE)
        } else {
            None
        }
    }

    /// The word that stands for this result on the wire.
    pub fn as_bytes(&self) -> (r: Vec<u8>)
        ensures
            r@ == self.word(),
    {
        match self {
            CommandResult::SUCCESS => vec![0x73u8, 0x75u8, 0x63u8, 0x63u8, 0x65u8, 0x73u8, 0x73u8],
            CommandResult::FAILURE => vec![0x66u8, 0x61u8, 0x69u8, 0x6cu8, 0x75u8, 0x72u8, 0x65u8],
        }
    }

    /// Reads a result word: `success` or `failure` and nothing else.
    pub fn from_bytes(bytes: &[u8]) -> (r: Option<CommandResult>)
        ensures
            r == CommandResult::parse(bytes@),
    {
        let success = CommandResult::SUCCESS.as_bytes();
        let failure = CommandResult::FAILURE.as_bytes();
        if same_bytes(bytes, success.as_slice()) {
            Some(CommandResult::SUCCESS)
        } else if same_bytes(bytes, failure.as_slice()) {
            Some(CommandResult::FAILURE)
        } else {
            None
        }
    }
}

/// Whether two slices hold the same bytes.
pub fn same_bytes(a: &[u8], b: &[u8]) -> (r: bool)
    ensures
        r == (a@ == b@),
{
    if a.len() != b.len() {
        return false;
    }
    let mut i: usize = 0;
    while i < a.len()
        invariant
            a@.len() == b@.len(),
            i <= a@.len(),
            forall|j: int| 0 <= j < i ==> a@[j] == b@[j],
        decreases a@.len() - i,
    {
        if a[i] != b[i] {
            return false;
        }
        i = i + 1;
    }
    assert(a@ =~= b@);
    true
}

/// A request: the command, the key it is about, and for a put the value with
/// its length in bytes.
#[derive(Debug)]
pub struct CacheCommand {
    pub command: Command,
    pub key: String,
    pub length: u64,
    pub value: Vec<u8>,
}

impl CacheCommand {
    /// The request for the value under `key`.
    pub fn get(key: String) -> (cmd: CacheCommand)
        ensures
            cmd.command == Command::GET,
            cmd.key == key,
            cmd.length == 0,
            cmd.value@ == Seq::<u8>::empty(),
    {
        CacheCommand { command: Command::GET, key: key, value: Vec::new(), length: 0 }
    }

    /// The request to store `value` under `key`; the length is that of the
    /// value.
    pub fn put(key: String, value: Vec<u8>) -> (cmd: CacheCommand)
        ensures
            cmd.command == Command::PUT,
            cmd.key == key,
            cmd.length == value@.len(),
            cmd.value == value,
    {
        let length = value.len() as u64;
        CacheCommand { command: Command::PUT, key: key, value: value, length: length }
    }
}

/// A request as plain values.
pub struct CommandView {
    pub command: Command,
    pub key: Seq<char>,
    pub length: u64,
    pub value: Seq<u8>,
}

impl View for CacheCommand {
    type V = CommandView;

    open spec fn view(&self) -> CommandView {
        CommandView {
            command: self.command,
            key: self.key@,
            length: self.length,
            value: self.value@,
        }
    }
}

/// A response: how the request ended, and the bytes that come with it with
/// their length.
#[derive(Debug)]
pub struct CacheResponse {
    pub response_type: CommandResult,
    pub length: u64,
    pub data: Vec<u8>,
}

/// A response as plain values.
pub struct ResponseView {
    pub response_type: CommandResult,
    pub length: u64,
    pub data: Seq<u8>,
}

impl View for CacheResponse {
    type V = ResponseView;

    open spec fn view(&self) -> ResponseView {
        ResponseView { response_type: self.response_type, length: self.length, data: self.data@ }
    }
}

} // verus!
