//! The metadata value types: an authorization token and a user identity.
use vstd::prelude::*;
use vstd::string::*;
use crate::wire::{Wire, WireV};
use crate::codec::{Codec, MetaField, DecodeError, ErrV};

verus! {

/// An authorization token, carried on the wire as a string in the field
/// `token`.
#[derive(Debug, PartialEq, Eq)]
pub struct Token {
    value: String,
}

/// A resolved user identity, carried on the wire as a string in the field
/// `id`.
#[derive(Debug, PartialEq, Eq)]
pub struct UserId {
    value: String,
}

impl View for Token {
    type V = Seq<char>;

    closed spec fn view(&self) -> Seq<char> {
        self.value@
    }
}

impl View for UserId {
    type V = Seq<char>;

    closed spec fn view(&self) -> Seq<char> {
        self.value@
    }
}

impl Token {
    pub fn new(s: &str) -> (r: Token)
        ensures
            r@ == s@,
    {
        Token { value: String::from_str(s) }
    }

    pub fn as_str(&self) -> (r: &str)
        ensures
            r@ == self@,
    {
        self.value.as_str()
    }
}

impl UserId {
    pub fn new(s: &str) -> (r: UserId)
        ensures
            r@ == s@,
    {
        UserId { value: String::from_str(s) }
    }

    pub fn as_str(&self) -> (r: &str)
        ensures
            r@ == self@,
    {
        self.value.as_str()
    }
}

impl Codec for Token {
    open spec fn to_wire(v: Seq<char>) -> WireV {
        WireV::Str(v)
    }

    open spec fn from_wire(w: WireV) -> Result<Seq<char>, ErrV> {
        match w {
            WireV::Str(s) => Ok(s),
            _ => Err(ErrV::NotAString),
        }
    }

    open spec fn schema_ok() -> bool {
        true
    }

    fn encode(&self) -> (r: Wire) {
        self.value.encode()
    }

    fn decode(w: &Wire) -> (r: Result<Token, DecodeError>) {
        match String::decode(w) {
            Ok(value) => Ok(Token { value }),
            Err(e) => Err(e),
        }
    }

    proof fn lemma_round_trip(v: Seq<char>) {
    }
}

impl Codec for UserId {
    open spec fn to_wire(v: Seq<char>) -> WireV {
        WireV::Str(v)
    }

    open spec fn from_wire(w: WireV) -> Result<Seq<char>, ErrV> {
        match w {
            WireV::Str(s) => Ok(s),
            _ => Err(ErrV::NotAString),
        }
    }

    open spec fn schema_ok() -> bool {
        true
    }

    fn encode(&self) -> (r: Wire) {
        self.value.encode()
    }

    fn decode(w: &Wire) -> (r: Result<UserId, DecodeError>) {
        match String::decode(w) {
            Ok(value) => Ok(UserId { value }),
            Err(e) => Err(e),
        }
    }

    proof fn lemma_round_trip(v: Seq<char>) {
    }
}

impl MetaField for Token {
    open spec fn name_spec() -> Seq<char> {
        "token"@
    }

    fn field_name() -> (r: String) {
        String::from_str("token")
    }
}

impl MetaField for UserId {
    open spec fn name_spec() -> Seq<char> {
        "id"@
    }

    fn field_name() -> (r: String) {
        String::from_str("id")
    }
}

} // verus!
