use vstd::prelude::*;
use vstd::utf8::encode_utf8;

verus! {

/// A protocol value: what a request is made of and what a node replies.
#[derive(Debug, PartialEq, Eq)]
pub enum Resp {
    Nil,
    Array(Vec<Resp>),
    BulkString(Vec<u8>),
    Error(String),
    Integer(i64),
    SimpleString(String),
}

/// A reply that does not have the shape a command expects.
#[derive(Debug, PartialEq, Eq)]
pub struct InvalidResponse {
    pub message: String,
    pub value: Resp,
}

/// The bytes of a bulk string (empty for any other value).
pub open spec fn bulk_bytes(r: Resp) -> Seq<u8> {
    match r {
        Resp::BulkString(b) => b@,
        _ => Seq::empty(),
    }
}

/// `r` is an array of bulk strings whose bytes are `w`.
pub open spec fn is_command_of(r: Resp, w: Seq<Seq<u8>>) -> bool {
    match r {
        Resp::Array(v) => v@.len() == w.len() && forall|i: int|
            0 <= i < w.len() ==> (#[trigger] v@[i] is BulkString && bulk_bytes(v@[i]) == w[i]),
        _ => false,
    }
}

/// The key of a request: its second element, when that is a bulk string.
pub open spec fn request_key(r: Resp) -> Option<Seq<u8>> {
    match r {
        Resp::Array(v) => if v@.len() >= 2 && v@[1] is BulkString {
            Some(bulk_bytes(v@[1]))
        } else {
            None
        },
        _ => None,
    }
}

/// The text of an error reply, if `r` is one.
pub open spec fn error_text(r: Resp) -> Option<Seq<char>> {
    match r {
        Resp::Error(e) => Some(e@),
        _ => None,
    }
}

/// The UTF-8 encoding of `s` as a bulk string.
pub fn bulk_of(s: &str) -> (r: Resp)
    ensures
        r is BulkString,
        bulk_bytes(r) == encode_utf8(s@),
{
    Resp::BulkString(s.as_bytes_vec())
}

/// The key of a request, see `request_key`.
pub fn key_of(r: &Resp) -> (k: Option<&[u8]>)
    ensures
        match request_key(*r) {
            Some(b) => k is Some && k->0@ == b,
            None => k is None,
        },
{
    match r {
        Resp::Array(v) => {
            if v.len() >= 2 {
                match &v[1] {
                    Resp::BulkString(b) => Some(b.as_slice()),
                    _ => None,
                }
            } else {
                None
            }
        },
        _ => None,
    }
}

/// A reply of the wrong shape for the command named in `message`.
pub fn invalid(message: &str, value: Resp) -> (e: InvalidResponse)
    ensures
        e.message@ == message@,
        e.value == value,
{
    InvalidResponse { message: message.to_owned(), value }
}

} // verus!
