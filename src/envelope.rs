//! The tagged envelope shape: `{"type": <variant token>, "payload": <payload>}`.
use vstd::prelude::*;
use vstd::string::*;
use crate::wire::{Wire, WireV, lookup, fields_of, lemma_lookup_push};
use crate::codec::{Codec, DecodeError, ErrV, read_field, decode_field};

verus! {

pub open spec fn type_key() -> Seq<char> {
    "type"@
}

pub open spec fn payload_key() -> Seq<char> {
    "payload"@
}

/// The envelope of a variant: the discriminator, then the payload.
pub open spec fn envelope_wire(tag: Seq<char>, payload: WireV) -> WireV {
    WireV::Obj(Seq::empty().push((type_key(), WireV::Str(tag))).push((payload_key(), payload)))
}

/// The discriminator of an envelope.
pub open spec fn tag_of(w: WireV) -> Result<Seq<char>, ErrV> {
    match w {
        WireV::Str(_) | WireV::Null | WireV::Bool(_) | WireV::Num(_) | WireV::Arr(_) => Err(ErrV::NotAnObject),
        WireV::Obj(_) => read_field::<String>(w, type_key()),
    }
}

/// The required payload of the variant `tag`.
pub open spec fn payload_of<T: Codec>(w: WireV, tag: Seq<char>) -> Result<T::V, ErrV> {
    match lookup(fields_of(w), payload_key()) {
        None => Err(ErrV::MissingField(payload_key())),
        Some(p) => match T::from_wire(p) {
            Ok(v) => Ok(v),
            Err(_) => Err(ErrV::PayloadShape(tag)),
        },
    }
}

/// The payload of the variant `tag`, where an absent or null payload is
/// `None`.
pub open spec fn optional_payload_of<T: Codec>(w: WireV, tag: Seq<char>) -> Result<
    Option<T::V>,
    ErrV,
> {
    match lookup(fields_of(w), payload_key()) {
        None => Ok(None),
        Some(WireV::Null) => Ok(None),
        Some(p) => match T::from_wire(p) {
            Ok(v) => Ok(Some(v)),
            Err(_) => Err(ErrV::PayloadShape(tag)),
        },
    }
}

/// Builds the envelope of a variant.
pub fn make_envelope(tag: &str, payload: Wire) -> (r: Wire)
    ensures
        r@ == envelope_wire(tag@, payload@),
{
    let mut w = Wire::empty_object();
    w.push_field(String::from_str("type"), Wire::from_string(String::from_str(tag)));
    w.push_field(String::from_str("payload"), payload);
    w
}

/// Reads the discriminator of an envelope.
pub fn decode_tag(w: &Wire) -> (r: Result<String, DecodeError>)
    ensures
        match r {
            Ok(t) => tag_of(w@) == Ok::<Seq<char>, ErrV>(t@),
            Err(e) => tag_of(w@) == Err::<Seq<char>, ErrV>(e@),
        },
{
    if !w.is_object() {
        return Err(DecodeError::NotAnObject);
    }
    decode_field::<String>(w, "type")
}

/// Reads the required payload of the variant `tag`.
pub fn decode_payload<T: Codec>(w: &Wire, tag: &String) -> (r: Result<T, DecodeError>)
    ensures
        match r {
            Ok(v) => payload_of::<T>(w@, tag@) == Ok::<T::V, ErrV>(v@),
            Err(e) => payload_of::<T>(w@, tag@) == Err::<T::V, ErrV>(e@),
        },
{
    match w.get(&String::from_str("payload")) {
        None => Err(DecodeError::MissingField(String::from_str("payload"))),
        Some(p) => match T::decode(p) {
            Ok(v) => Ok(v),
            Err(_) => Err(DecodeError::PayloadShape(tag.clone())),
        },
    }
}

/// Reads the payload of the variant `tag`, where an absent or null payload is
/// `None`.
pub fn decode_optional_payload<T: Codec>(w: &Wire, tag: &String) -> (r: Result<
    Option<T>,
    DecodeError,
>)
    ensures
        match r {
            Ok(None) => optional_payload_of::<T>(w@, tag@) == Ok::<Option<T::V>, ErrV>(None),
            Ok(Some(v)) => optional_payload_of::<T>(w@, tag@) == Ok::<Option<T::V>, ErrV>(
                Some(v@),
            ),
            Err(e) => optional_payload_of::<T>(w@, tag@) == Err::<Option<T::V>, ErrV>(e@),
        },
{
    match w.get(&String::from_str("payload")) {
        None => Ok(None),
        Some(Wire::Null) => Ok(None),
        Some(p) => match T::decode(p) {
            Ok(v) => Ok(Some(v)),
            Err(_) => Err(DecodeError::PayloadShape(tag.clone())),
        },
    }
}

/// An envelope gives back its discriminator and its payload.
pub proof fn lemma_envelope_reads(tag: Seq<char>, payload: WireV)
    ensures
        tag_of(envelope_wire(tag, payload)) == Ok::<Seq<char>, ErrV>(tag),
        lookup(fields_of(envelope_wire(tag, payload)), payload_key()) == Some(payload),
{
    reveal_strlit("type");
    reveal_strlit("payload");
    let e0 = (type_key(), WireV::Str(tag));
    let e1 = (payload_key(), payload);
    assert(type_key() != payload_key()) by {
        assert(type_key()[0] != payload_key()[0]);
    }
    lemma_lookup_push(Seq::empty(), type_key(), e0);
    lemma_lookup_push(Seq::empty().push(e0), type_key(), e1);
    lemma_lookup_push(Seq::empty().push(e0), payload_key(), e1);
}

} // verus!
