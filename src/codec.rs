//! Decoding errors and the contract every wire-encodable type meets.
use vstd::prelude::*;
use vstd::string::*;
use crate::wire::{Wire, WireV, lookup, fields_of};

verus! {

/// Why a wire value could not be decoded.
#[derive(Debug, PartialEq, Eq)]
pub enum DecodeError {
    /// A string was expected and an object was found.
    NotAString,
    /// An object was expected and a string was found.
    NotAnObject,
    /// A required field is absent.
    MissingField(String),
    /// A field, or an envelope variant's payload, has the wrong shape; carries
    /// the field or variant name.
    PayloadShape(String),
    /// An envelope's discriminator names no known variant; carries it.
    UnknownDiscriminator(String),
    /// A string does not hold a value of the expected form.
    InvalidValue,
}

/// The logical content of a [`DecodeError`].
pub enum ErrV {
    NotAString,
    NotAnObject,
    MissingField(Seq<char>),
    PayloadShape(Seq<char>),
    UnknownDiscriminator(Seq<char>),
    InvalidValue,
}

impl View for DecodeError {
    type V = ErrV;

    open spec fn view(&self) -> ErrV {
        match self {
            DecodeError::NotAString => ErrV::NotAString,
            DecodeError::NotAnObject => ErrV::NotAnObject,
            DecodeError::MissingField(s) => ErrV::MissingField(s@),
            DecodeError::PayloadShape(s) => ErrV::PayloadShape(s@),
            DecodeError::UnknownDiscriminator(s) => ErrV::UnknownDiscriminator(s@),
            DecodeError::InvalidValue => ErrV::InvalidValue,
        }
    }
}

/// A type with a wire encoding.
///
/// `to_wire` and `from_wire` state the encoding over logical values; `encode`
/// and `decode` compute it. Unknown fields of an object are ignored on decode,
/// uniformly across the schema layer.
pub trait Codec: Sized + View {
    /// The wire form of a logical value.
    spec fn to_wire(v: Self::V) -> WireV;

    /// The logical value a wire value decodes to, or the error.
    spec fn from_wire(w: WireV) -> Result<Self::V, ErrV>;

    /// Whether the type's field names are free of collisions (always true for
    /// types without a metadata wrapper).
    spec fn schema_ok() -> bool;

    fn encode(&self) -> (r: Wire)
        ensures
            r@ == Self::to_wire(self@),
    ;

    fn decode(w: &Wire) -> (r: Result<Self, DecodeError>)
        ensures
            match r {
                Ok(v) => Self::from_wire(w@) == Ok::<Self::V, ErrV>(v@),
                Err(e) => Self::from_wire(w@) == Err::<Self::V, ErrV>(e@),
            },
    ;

    /// Decoding the encoding of a value gives the value back.
    proof fn lemma_round_trip(v: Self::V)
        requires
            Self::schema_ok(),
        ensures
            Self::from_wire(Self::to_wire(v)) == Ok::<Self::V, ErrV>(v),
    ;
}

/// A type encoded as an object whose decoder reads only the fields it owns.
pub trait ObjectCodec: Codec {
    /// Whether the type reads a top-level field of this name.
    spec fn owns(k: Seq<char>) -> bool;

    proof fn lemma_is_object(v: Self::V)
        ensures
            Self::to_wire(v) is Obj,
    ;

    /// Decoding an object depends only on the fields the type owns: objects
    /// that agree on those decode alike, wherever other fields stand.
    proof fn lemma_reads_owned(fs1: Seq<(Seq<char>, WireV)>, fs2: Seq<(Seq<char>, WireV)>)
        requires
            forall|k: Seq<char>| Self::owns(k) ==> #[trigger] lookup(fs1, k) == lookup(fs2, k),
        ensures
            Self::from_wire(WireV::Obj(fs1)) == Self::from_wire(WireV::Obj(fs2)),
    ;
}

/// A metadata value, held in one field of its own on the wire.
pub trait MetaField: Codec {
    spec fn name_spec() -> Seq<char>;

    fn field_name() -> (r: String)
        ensures
            r@ == Self::name_spec(),
    ;
}

/// A string is encoded as itself.
impl Codec for String {
    open spec fn to_wire(v: Seq<char>) -> WireV {
        WireV::Str(v)
    }

    open spec fn from_wire(w: WireV) -> Result<Seq<char>, ErrV> {
        match w {
            WireV::Str(s) => Ok(s),
            _ => Err(ErrV::NotAString),
        }
    }

    open spec fn schema_ok() -> bool {
        true
    }

    fn encode(&self) -> (r: Wire) {
        Wire::from_string(self.clone())
    }

    fn decode(w: &Wire) -> (r: Result<String, DecodeError>) {
        match w {
            Wire::Str(s) => Ok(s.clone()),
            _ => Err(DecodeError::NotAString),
        }
    }

    proof fn lemma_round_trip(v: Seq<char>) {
    }
}

/// Reads the required field `k` of an object as a `T`.
pub open spec fn read_field<T: Codec>(w: WireV, k: Seq<char>) -> Result<T::V, ErrV> {
    match lookup(fields_of(w), k) {
        None => Err(ErrV::MissingField(k)),
        Some(x) => match T::from_wire(x) {
            Ok(v) => Ok(v),
            Err(_) => Err(ErrV::PayloadShape(k)),
        },
    }
}

/// Decodes the required field `k` of an object: `MissingField(k)` where it is
/// absent, `PayloadShape(k)` where its value does not decode.
pub fn decode_field<T: Codec>(w: &Wire, k: &str) -> (r: Result<T, DecodeError>)
    ensures
        match r {
            Ok(v) => read_field::<T>(w@, k@) == Ok::<T::V, ErrV>(v@),
            Err(e) => read_field::<T>(w@, k@) == Err::<T::V, ErrV>(e@),
        },
{
    let key = String::from_str(k);
    match w.get(&key) {
        None => Err(DecodeError::MissingField(key)),
        Some(x) => match T::decode(x) {
            Ok(v) => Ok(v),
            Err(_) => Err(DecodeError::PayloadShape(key)),
        },
    }
}

} // verus!
