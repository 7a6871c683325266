//! Template payloads: the empty payload markers and the metadata wrapper.
use vstd::prelude::*;
use crate::wire::{Wire, WireV, lookup, lemma_lookup_push};
use crate::codec::{Codec, ObjectCodec, MetaField, DecodeError, ErrV, read_field, decode_field};
use crate::valid::{Token, UserId};

verus! {

/// A payload which must be present, but empty.
///
/// It is encoded as `{}`; where it stands as a required field, an absent field
/// is an error. Fields of the object are ignored, as everywhere in this layer.
#[derive(Debug, PartialEq, Eq, Structural)]
pub struct EmptyPayloadStrict {}

/// A payload which can either be present and empty or not present: both wire
/// forms decode to the same logical "no payload".
pub type EmptyPayload = Option<EmptyPayloadStrict>;

impl View for EmptyPayloadStrict {
    type V = ();

    open spec fn view(&self) -> () {
        ()
    }
}

impl Codec for EmptyPayloadStrict {
    open spec fn to_wire(v: ()) -> WireV {
        WireV::Obj(Seq::empty())
    }

    open spec fn from_wire(w: WireV) -> Result<(), ErrV> {
        match w {
            WireV::Obj(_) => Ok(()),
            WireV::Str(_) | WireV::Null | WireV::Bool(_) | WireV::Num(_) | WireV::Arr(_) => Err(ErrV::NotAnObject),
        }
    }

    open spec fn schema_ok() -> bool {
        true
    }

    fn encode(&self) -> (r: Wire) {
        Wire::empty_object()
    }

    fn decode(w: &Wire) -> (r: Result<EmptyPayloadStrict, DecodeError>) {
        match w {
            Wire::Obj(_) => Ok(EmptyPayloadStrict {  }),
            _ => Err(DecodeError::NotAnObject),
        }
    }

    proof fn lemma_round_trip(v: ()) {
    }
}

impl ObjectCodec for EmptyPayloadStrict {
    open spec fn owns(k: Seq<char>) -> bool {
        false
    }

    proof fn lemma_is_object(v: ()) {
    }

    proof fn lemma_reads_owned(fs1: Seq<(Seq<char>, WireV)>, fs2: Seq<(Seq<char>, WireV)>) {
    }
}

/// A payload wrapped together with one metadata value.
///
/// On the wire the metadata takes one field, named by `M`, beside the fields of
/// the inner payload, in one flat object. The inner type must not own a field
/// of that name: see [`Codec::schema_ok`].
#[derive(Debug, PartialEq, Eq)]
pub struct MetaPayload<Inner, M> {
    meta: M,
    inner: Inner,
}

impl<Inner: View, M: View> View for MetaPayload<Inner, M> {
    type V = (Inner::V, M::V);

    open spec fn view(&self) -> (Inner::V, M::V) {
        (self.inner_spec()@, self.meta_spec()@)
    }
}

impl<Inner, M> MetaPayload<Inner, M> {
    pub closed spec fn inner_spec(&self) -> Inner {
        self.inner
    }

    pub closed spec fn meta_spec(&self) -> M {
        self.meta
    }

    /// Joins an inner payload and a metadata value.
    pub fn combine(inner: Inner, meta: M) -> (r: Self)
        ensures
            r.inner_spec() == inner,
            r.meta_spec() == meta,
    {
        MetaPayload { meta, inner }
    }

    /// The metadata value.
    pub fn metadata(&self) -> (r: &M)
        ensures
            *r == self.meta_spec(),
    {
        &self.meta
    }

    /// Puts `meta` in place of the metadata value and returns the one before.
    pub fn replace_metadata(&mut self, meta: M) -> (r: M)
        ensures
            r == old(self).meta_spec(),
            final(self).meta_spec() == meta,
            final(self).inner_spec() == old(self).inner_spec(),
    {
        let mut previous = meta;
        core::mem::swap(&mut self.meta, &mut previous);
        previous
    }

    /// Separates the inner payload from the metadata value.
    pub fn split(self) -> (r: (Inner, M))
        ensures
            r.0 == self.inner_spec(),
            r.1 == self.meta_spec(),
    {
        (self.inner, self.meta)
    }

    /// The inner payload, for reading its fields through the wrapper.
    pub fn inner(&self) -> (r: &Inner)
        ensures
            *r == self.inner_spec(),
    {
        &self.inner
    }

    /// The inner payload, for changing its fields through the wrapper.
    pub fn inner_mut(&mut self) -> (r: &mut Inner)
        ensures
            *r == old(self).inner_spec(),
            final(self).inner_spec() == *final(r),
            final(self).meta_spec() == old(self).meta_spec(),
    {
        &mut self.inner
    }
}

/// Fields and methods of the inner payload are reachable through the wrapper.
impl<Inner, M> core::ops::Deref for MetaPayload<Inner, M> {
    type Target = Inner;

    fn deref(&self) -> (r: &Inner)
        ensures
            *r == self.inner_spec(),
    {
        &self.inner
    }
}

impl<Inner, M> core::ops::DerefMut for MetaPayload<Inner, M> {
    fn deref_mut(&mut self) -> (r: &mut Inner)
        ensures
            *r == old(self).inner_spec(),
            final(self).inner_spec() == *final(r),
            final(self).meta_spec() == old(self).meta_spec(),
    {
        &mut self.inner
    }
}

impl<Inner: ObjectCodec, M: MetaField> Codec for MetaPayload<Inner, M> {
    /// The inner payload's fields, followed by the metadata field.
    open spec fn to_wire(v: (Inner::V, M::V)) -> WireV {
        match Inner::to_wire(v.0) {
            WireV::Obj(fs) => WireV::Obj(fs.push((M::name_spec(), M::to_wire(v.1)))),
            other => other,
        }
    }

    /// The metadata is read from its own field; the inner payload from the
    /// whole object, whose metadata field it ignores.
    open spec fn from_wire(w: WireV) -> Result<(Inner::V, M::V), ErrV> {
        match w {
            WireV::Str(_) | WireV::Null | WireV::Bool(_) | WireV::Num(_) | WireV::Arr(_) => Err(ErrV::NotAnObject),
            WireV::Obj(_) => match read_field::<M>(w, M::name_spec()) {
                Err(e) => Err(e),
                Ok(m) => match Inner::from_wire(w) {
                    Err(e) => Err(e),
                    Ok(i) => Ok((i, m)),
                },
            },
        }
    }

    open spec fn schema_ok() -> bool {
        &&& Inner::schema_ok()
        &&& M::schema_ok()
        &&& !Inner::owns(M::name_spec())
    }

    fn encode(&self) -> (r: Wire) {
        let mut w = self.inner.encode();
        w.push_field(M::field_name(), self.meta.encode());
        w
    }

    fn decode(w: &Wire) -> (r: Result<Self, DecodeError>) {
        if !w.is_object() {
            return Err(DecodeError::NotAnObject);
        }
        let name = M::field_name();
        let meta = match decode_field::<M>(w, name.as_str()) {
            Ok(m) => m,
            Err(e) => return Err(e),
        };
        match Inner::decode(w) {
            Ok(inner) => Ok(MetaPayload { meta, inner }),
            Err(e) => Err(e),
        }
    }

    proof fn lemma_round_trip(v: (Inner::V, M::V)) {
        Inner::lemma_is_object(v.0);
        let fs = crate::wire::fields_of(Inner::to_wire(v.0));
        let mw = M::to_wire(v.1);
        lemma_lookup_push(fs, M::name_spec(), (M::name_spec(), mw));
        M::lemma_round_trip(v.1);
        assert forall|k: Seq<char>| Inner::owns(k) implies #[trigger] lookup(
            fs.push((M::name_spec(), mw)),
            k,
        ) == lookup(fs, k) by {
            lemma_lookup_push(fs, k, (M::name_spec(), mw));
        }
        Inner::lemma_reads_owned(fs.push((M::name_spec(), mw)), fs);
        Inner::lemma_round_trip(v.0);
    }
}

impl<Inner: ObjectCodec, M: MetaField> ObjectCodec for MetaPayload<Inner, M> {
    open spec fn owns(k: Seq<char>) -> bool {
        k == M::name_spec() || Inner::owns(k)
    }

    proof fn lemma_is_object(v: (Inner::V, M::V)) {
        Inner::lemma_is_object(v.0);
    }

    proof fn lemma_reads_owned(fs1: Seq<(Seq<char>, WireV)>, fs2: Seq<(Seq<char>, WireV)>) {
        assert(lookup(fs1, M::name_spec()) == lookup(fs2, M::name_spec()));
        assert forall|k: Seq<char>| Inner::owns(k) implies #[trigger] lookup(fs1, k) == lookup(
            fs2,
            k,
        ) by {
            assert(Self::owns(k));
        }
        Inner::lemma_reads_owned(fs1, fs2);
    }
}

/// A payload that also carries an authorization token, in the field `token`.
/// The inner type must not have a field named `token`.
pub type TokenPayload<Inner> = MetaPayload<Inner, Token>;

/// A payload that also carries a user id, in the field `id`. The inner type
/// must not have a field named `id`.
pub type UserIdPayload<Inner> = MetaPayload<Inner, UserId>;

impl<Inner> TokenPayload<Inner> {
    pub fn new(i: Inner, t: Token) -> (r: TokenPayload<Inner>)
        ensures
            r.inner_spec() == i,
            r.meta_spec() == t,
    {
        MetaPayload::combine(i, t)
    }

    /// The token of the payload.
    pub fn token(&self) -> (r: &Token)
        ensures
            *r == self.meta_spec(),
    {
        self.metadata()
    }

    /// Sets the token of the payload and returns the previous one.
    pub fn set_token(&mut self, t: Token) -> (r: Token)
        ensures
            r == old(self).meta_spec(),
            final(self).meta_spec() == t,
            final(self).inner_spec() == old(self).inner_spec(),
    {
        self.replace_metadata(t)
    }

    /// Turns the payload into its inner value and its token.
    pub fn into_inner(self) -> (r: (Inner, Token))
        ensures
            r.0 == self.inner_spec(),
            r.1 == self.meta_spec(),
    {
        self.split()
    }
}

impl<Inner> UserIdPayload<Inner> {
    pub fn new(i: Inner, id: UserId) -> (r: UserIdPayload<Inner>)
        ensures
            r.inner_spec() == i,
            r.meta_spec() == id,
    {
        MetaPayload::combine(i, id)
    }

    /// The user id of the payload.
    pub fn id(&self) -> (r: &UserId)
        ensures
            *r == self.meta_spec(),
    {
        self.metadata()
    }

    /// Sets the user id of the payload and returns the previous one.
    pub fn set_id(&mut self, id: UserId) -> (r: UserId)
        ensures
            r == old(self).meta_spec(),
            final(self).meta_spec() == id,
            final(self).inner_spec() == old(self).inner_spec(),
    {
        self.replace_metadata(id)
    }

    /// Turns the payload into its inner value and its user id.
    pub fn into_inner(self) -> (r: (Inner, UserId))
        ensures
            r.0 == self.inner_spec(),
            r.1 == self.meta_spec(),
    {
        self.split()
    }
}

} // verus!
