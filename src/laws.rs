//! Laws of the schema layer, stated over the logical encodings that `encode`
//! and `decode` are proved to compute.
use vstd::prelude::*;
use crate::wire::{WireV, lookup, fields_of, lemma_lookup_push};
use crate::codec::{Codec, ObjectCodec, MetaField, ErrV, read_field};
use crate::envelope::{type_key, payload_key, payload_of};
use crate::payloads::{EmptyPayloadStrict, MetaPayload};
use crate::admin::{AdminRequest, AdminRequestV, TokenAdminRequest};
use crate::valid::Token;
use crate::auth::{
    AuthRequest, AuthRequestV, authenticate_tag, deauthenticate_tag, register_user_tag,
    lemma_names_distinct,
};

verus! {

/// Every authentication request decodes from its own encoding.
pub proof fn law_auth_request_round_trip(v: AuthRequestV)
    ensures
        AuthRequest::from_wire(AuthRequest::to_wire(v)) == Ok::<AuthRequestV, ErrV>(v),
{
    AuthRequest::lemma_round_trip(v);
}

/// Every administrator request decodes from its own encoding.
pub proof fn law_admin_request_round_trip(v: AdminRequestV)
    ensures
        AdminRequest::from_wire(AdminRequest::to_wire(v)) == Ok::<AdminRequestV, ErrV>(v),
{
    AdminRequest::lemma_round_trip(v);
}

/// An administrator request with its token decodes from its own encoding: the
/// token field does not collide with the envelope's fields.
pub proof fn law_token_admin_request_round_trip(v: (AdminRequestV, Seq<char>))
    ensures
        TokenAdminRequest::from_wire(TokenAdminRequest::to_wire(v)) == Ok::<
            (AdminRequestV, Seq<char>),
            ErrV,
        >(v),
{
    reveal_strlit("token");
    reveal_strlit("type");
    reveal_strlit("payload");
    assert(Token::name_spec()[1] != type_key()[1]);
    assert(Token::name_spec()[0] != payload_key()[0]);
    TokenAdminRequest::lemma_round_trip(v);
}

/// Where the inner type owns no field of the metadata's name, the merged
/// object of a wrapped payload decodes to the same inner value and metadata.
pub proof fn law_wrapper_round_trip<Inner: ObjectCodec, M: MetaField>(i: Inner::V, m: M::V)
    requires
        Inner::schema_ok(),
        M::schema_ok(),
        !Inner::owns(M::name_spec()),
    ensures
        MetaPayload::<Inner, M>::from_wire(MetaPayload::<Inner, M>::to_wire((i, m))) == Ok::<
            (Inner::V, M::V),
            ErrV,
        >((i, m)),
{
    MetaPayload::<Inner, M>::lemma_round_trip((i, m));
}

/// The metadata never reaches the inner payload: a wrapped payload decodes its
/// inner part as the inner type decodes any object that differs from it only
/// in the metadata field, for instance the same object with that field taken
/// out, or with another metadata value, wherever the field stands.
pub proof fn law_wrapper_inner_ignores_metadata<Inner: ObjectCodec, M: MetaField>(
    fs1: Seq<(Seq<char>, WireV)>,
    fs2: Seq<(Seq<char>, WireV)>,
)
    requires
        !Inner::owns(M::name_spec()),
        forall|k: Seq<char>| k != M::name_spec() ==> #[trigger] lookup(fs1, k) == lookup(fs2, k),
    ensures
        MetaPayload::<Inner, M>::from_wire(WireV::Obj(fs1)) == match read_field::<M>(
            WireV::Obj(fs1),
            M::name_spec(),
        ) {
            Err(e) => Err(e),
            Ok(m) => match Inner::from_wire(WireV::Obj(fs2)) {
                Err(e) => Err(e),
                Ok(i) => Ok((i, m)),
            },
        },
{
    assert forall|k: Seq<char>| Inner::owns(k) implies #[trigger] lookup(fs1, k) == lookup(
        fs2,
        k,
    ) by {
        assert(lookup(fs1, k) == lookup(fs2, k));
    }
    Inner::lemma_reads_owned(fs1, fs2);
}

/// A `DEAUTHENTICATE` request decodes to the same value whether its payload
/// field is absent, null or an object, and encodes to one fixed form.
pub proof fn law_optional_empty_payload(fs: Seq<(Seq<char>, WireV)>, gs: Seq<(Seq<char>, WireV)>)
    requires
        lookup(fs, type_key()) == Some(WireV::Str(deauthenticate_tag())),
        lookup(fs, payload_key()) is None,
    ensures
        AuthRequest::from_wire(WireV::Obj(fs)) == Ok::<AuthRequestV, ErrV>(
            AuthRequestV::Deauthenticate,
        ),
        AuthRequest::from_wire(WireV::Obj(fs.push((payload_key(), WireV::Obj(gs)))))
            == Ok::<AuthRequestV, ErrV>(AuthRequestV::Deauthenticate),
        AuthRequest::from_wire(WireV::Obj(fs.push((payload_key(), WireV::Null))))
            == Ok::<AuthRequestV, ErrV>(AuthRequestV::Deauthenticate),
        AuthRequest::to_wire(AuthRequestV::Deauthenticate) == crate::envelope::envelope_wire(
            deauthenticate_tag(),
            WireV::Obj(Seq::empty()),
        ),
{
    reveal_strlit("type");
    reveal_strlit("payload");
    assert(type_key()[0] != payload_key()[0]);
    lemma_names_distinct();
    lemma_lookup_push(fs, type_key(), (payload_key(), WireV::Obj(gs)));
    lemma_lookup_push(fs, payload_key(), (payload_key(), WireV::Obj(gs)));
    lemma_lookup_push(fs, type_key(), (payload_key(), WireV::Null));
    lemma_lookup_push(fs, payload_key(), (payload_key(), WireV::Null));
}

/// A strict empty payload whose field is absent is a missing field.
pub proof fn law_strict_empty_payload_absent(w: WireV, k: Seq<char>, tag: Seq<char>)
    requires
        lookup(fields_of(w), k) is None,
    ensures
        read_field::<EmptyPayloadStrict>(w, k) == Err::<(), ErrV>(ErrV::MissingField(k)),
        k == payload_key() ==> payload_of::<EmptyPayloadStrict>(w, tag) == Err::<(), ErrV>(
            ErrV::MissingField(payload_key()),
        ),
{
}

/// A discriminator that names no variant is rejected as unknown, whatever the
/// payload field holds: the payload is not looked at.
pub proof fn law_unknown_discriminator(fs: Seq<(Seq<char>, WireV)>, t: Seq<char>, x: WireV)
    requires
        lookup(fs, type_key()) == Some(WireV::Str(t)),
        t != authenticate_tag(),
        t != deauthenticate_tag(),
        t != register_user_tag(),
    ensures
        AuthRequest::from_wire(WireV::Obj(fs)) == Err::<AuthRequestV, ErrV>(
            ErrV::UnknownDiscriminator(t),
        ),
        AuthRequest::from_wire(WireV::Obj(fs.push((payload_key(), x)))) == Err::<
            AuthRequestV,
            ErrV,
        >(ErrV::UnknownDiscriminator(t)),
{
    reveal_strlit("type");
    reveal_strlit("payload");
    assert(type_key()[0] != payload_key()[0]);
    lemma_lookup_push(fs, type_key(), (payload_key(), x));
}

} // verus!
