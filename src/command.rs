use vstd::prelude::*;
use vstd::utf8::encode_utf8;
use crate::resp::{Resp, InvalidResponse, bulk_bytes, is_command_of, bulk_of, invalid};

verus! {

/// Reads the value of a key.
#[derive(Debug)]
pub struct Get {
    pub key: String,
}

/// How long a value written by `SetValue` lives.
#[derive(Debug)]
pub enum Expiration {
    Infinite,
    Ex(String),
    Px(String),
}

/// Writes the value of a key.
#[derive(Debug)]
pub struct SetValue {
    pub key: String,
    pub value: String,
    pub expiration: Expiration,
}

/// Sets a key's time to live, in seconds.
#[derive(Debug)]
pub struct Expire {
    pub key: String,
    pub seconds: String,
}

/// Removes keys.
#[derive(Debug)]
pub struct Del {
    pub keys: Vec<String>,
}

/// The request words of `SetValue`.
pub open spec fn set_words(s: SetValue) -> Seq<Seq<u8>> {
    let head = seq![encode_utf8("SET"@), encode_utf8(s.key@), encode_utf8(s.value@)];
    match s.expiration {
        Expiration::Infinite => head,
        Expiration::Ex(t) => head + seq![encode_utf8("EX"@), encode_utf8(t@)],
        Expiration::Px(t) => head + seq![encode_utf8("PX"@), encode_utf8(t@)],
    }
}

/// The request words of `Del`.
pub open spec fn del_words(d: Del) -> Seq<Seq<u8>> {
    seq![encode_utf8("DEL"@)] + d.keys@.map_values(|k: String| encode_utf8(k@))
}

impl Get {
    pub fn into_request(self) -> (r: Resp)
        ensures
            is_command_of(r, seq![encode_utf8("GET"@), encode_utf8(self.key@)]),
    {
        let v = vec![bulk_of("GET"), bulk_of(self.key.as_str())];
        Resp::Array(v)
    }

    /// The value read, `None` when the key does not exist.
    pub fn from_response(res: Resp) -> (r: Result<Option<Vec<u8>>, InvalidResponse>)
        ensures
            match res {
                Resp::BulkString(b) => r == Ok::<Option<Vec<u8>>, InvalidResponse>(Some(b)),
                Resp::Nil => r == Ok::<Option<Vec<u8>>, InvalidResponse>(None),
                _ => r is Err && r->Err_0.message@ == "invalid response for GET"@
                    && r->Err_0.value == res,
            },
    {
        match res {
            Resp::BulkString(s) => Ok(Some(s)),
            Resp::Nil => Ok(None),
            _ => Err(invalid("invalid response for GET", res)),
        }
    }
}

impl SetValue {
    pub fn into_request(self) -> (r: Resp)
        ensures
            is_command_of(r, set_words(self)),
    {
        let mut v = vec![bulk_of("SET"), bulk_of(self.key.as_str()), bulk_of(self.value.as_str())];
        match &self.expiration {
            Expiration::Infinite => {},
            Expiration::Ex(t) => {
                v.push(bulk_of("EX"));
                v.push(bulk_of(t.as_str()));
            },
            Expiration::Px(t) => {
                v.push(bulk_of("PX"));
                v.push(bulk_of(t.as_str()));
            },
        }
        let r = Resp::Array(v);
        assert(is_command_of(r, set_words(self)));
        r
    }

    /// Succeeds exactly on the simple string `OK`.
    pub fn from_response(res: Resp) -> (r: Result<(), InvalidResponse>)
        ensures
            r is Ok <==> (res is SimpleString && res->SimpleString_0@ == "OK"@),
            r is Err ==> r->Err_0.message@ == "invalid response for SET"@ && r->Err_0.value == res,
    {
        let ok = String::from_str("OK");
        let good = match &res {
            Resp::SimpleString(s) => *s == ok,
            _ => false,
        };
        if good {
            Ok(())
        } else {
            Err(invalid("invalid response for SET", res))
        }
    }
}

impl Expire {
    pub fn into_request(self) -> (r: Resp)
        ensures
            is_command_of(
                r,
                seq![encode_utf8("EXPIRE"@), encode_utf8(self.key@), encode_utf8(self.seconds@)],
            ),
    {
        let v = vec![bulk_of("EXPIRE"), bulk_of(self.key.as_str()), bulk_of(self.seconds.as_str())];
        Resp::Array(v)
    }

    /// `true` when the timeout was set, `false` when the key does not exist.
    pub fn from_response(res: Resp) -> (r: Result<bool, InvalidResponse>)
        ensures
            res == Resp::Integer(1) ==> r == Ok::<bool, InvalidResponse>(true),
            res == Resp::Integer(0) ==> r == Ok::<bool, InvalidResponse>(false),
            res != Resp::Integer(1) && res != Resp::Integer(0) ==> r is Err
                && r->Err_0.message@ == "invalid response for EXPIRE"@ && r->Err_0.value == res,
    {
        match res {
            Resp::Integer(1) => Ok(true),
            Resp::Integer(0) => Ok(false),
            _ => Err(invalid("invalid response for EXPIRE", res)),
        }
    }
}

impl Del {
    pub fn into_request(self) -> (r: Resp)
        ensures
            is_command_of(r, del_words(self)),
    {
        let mut v = vec![bulk_of("DEL")];
        let mut i: usize = 0;
        while i < self.keys.len()
            invariant
                i <= self.keys@.len(),
                v@.len() == i + 1,
                forall|j: int|
                    0 <= j < v@.len() ==> (#[trigger] v@[j] is BulkString && bulk_bytes(v@[j])
                        == del_words(self)[j]),
            decreases self.keys@.len() - i,
        {
            v.push(bulk_of(self.keys[i].as_str()));
            i = i + 1;
        }
        Resp::Array(v)
    }

    /// The number of keys removed.
    pub fn from_response(res: Resp) -> (r: Result<i64, InvalidResponse>)
        ensures
            match res {
                Resp::Integer(n) => r == Ok::<i64, InvalidResponse>(n),
                _ => r is Err && r->Err_0.message@ == "invalid response for DEL"@
                    && r->Err_0.value == res,
            },
    {
        match res {
            Resp::Integer(n) => Ok(n),
            _ => Err(invalid("invalid response for DEL", res)),
        }
    }
}

} // verus!
