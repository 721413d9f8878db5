//! What a client computes before it sends anything: the request that stands
//! for an item, and the request that a line of typed input asks for.

use crate::types::{CacheCommand, Command};
use vstd::prelude::*;
use vstd::utf8::encode_utf8;

verus! {

/// Something that can be kept in the cache: it names its key, gives its
/// value as bytes, and is made again from bytes that came back.
pub trait Cacheable: Sync + Send + Sized {
    fn key(&self) -> String;

    fn value(&self) -> Vec<u8>;

    fn value_from_bytes(&self, val: Vec<u8>) -> Self;
}

/// The request for the value under the key of `item`.
pub fn get_request<T: Cacheable>(item: &T) -> (cmd: CacheCommand)
    ensures
        cmd.command == Command::GET,
        cmd.length == 0,
        cmd.value@ == Seq::<u8>::empty(),
        call_ensures(T::key, (item,), cmd.key),
{
    CacheCommand::get(item.key())
}

/// The request to store the value of `item` under its key.
pub fn put_request<T: Cacheable>(item: &T) -> (cmd: CacheCommand)
    ensures
        cmd.command == Command::PUT,
        cmd.length == cmd.value@.len(),
        call_ensures(T::value, (item,), cmd.value),
        call_ensures(T::key, (item,), cmd.key),
{
    let value = item.value();
    CacheCommand::put(item.key(), value)
}

/// What a line of typed input asks for.
#[derive(Debug)]
pub enum LineRequest {
    /// `get <key>`
    Get { key: String },
    /// `put <key> <value>`
    Put { key: String, value: String },
    /// Anything else.
    Invalid,
}

/// What a line asks for, as plain values.
pub enum LineRequestView {
    Get { key: Seq<char> },
    Put { key: Seq<char>, value: Seq<char> },
    Invalid,
}

impl View for LineRequest {
    type V = LineRequestView;

    open spec fn view(&self) -> LineRequestView {
        match self {
            LineRequest::Get { key } => LineRequestView::Get { key: key@ },
            LineRequest::Put { key, value } => LineRequestView::Put { key: key@, value: value@ },
            LineRequest::Invalid => LineRequestView::Invalid,
        }
    }
}

/// The words of a line: the parts that whitespace separates, as
/// `str::split_whitespace` finds them.
pub uninterp spec fn words_of(line: Seq<char>) -> Seq<Seq<char>>;

/// `str::split_whitespace`: the words of the line, each as a string of its
/// own.
#[verifier::external_body]
fn split_words(line: &str) -> (words: Vec<String>)
    ensures
        words.deep_view() == words_of(line@),
{
    line.split_whitespace().map(|word| word.to_string()).collect()
}

/// What the words of a line ask for. The first word is the command, `get`
/// with a key or `put` with a key and a value; further words do not count.
/// Any other first word, and a command without what it needs, is invalid.
pub open spec fn request_of(words: Seq<Seq<char>>) -> LineRequestView {
    if words.len() >= 2 && encode_utf8(words[0]) == Command::GET.word() {
        LineRequestView::Get { key: words[1] }
    } else if words.len() >= 3 && encode_utf8(words[0]) == Command::PUT.word() {
        LineRequestView::Put { key: words[1], value: words[2] }
    } else {
        LineRequestView::Invalid
    }
}

/// Tells what the words of a line ask for.
pub fn interpret(words: &Vec<String>) -> (request: LineRequest)
    ensures
        request@ == request_of(words.deep_view()),
{
    if words.len() < 2 {
        return LineRequest::Invalid;
    }
    match Command::from_bytes(words[0].as_str().as_bytes()) {
        Some(Command::GET) => LineRequest::Get { key: words[1].clone() },
        Some(Command::PUT) => {
            if words.len() >= 3 {
                LineRequest::Put { key: words[1].clone(), value: words[2].clone() }
            } else {
                LineRequest::Invalid
            }
        },
        None => LineRequest::Invalid,
    }
}

/// Tells what a line of typed input asks for.
pub fn process_line(line: &str) -> (request: LineRequest)
    ensures
        request@ == request_of(words_of(line@)),
{
    let words = split_words(line);
    interpret(&words)
}

} // verus!
