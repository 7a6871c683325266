//! The requests a user can send to the authentication service.
use vstd::prelude::*;
use vstd::string::*;
use crate::wire::{Wire, WireV, lookup, lemma_lookup_push};
use crate::codec::{Codec, ObjectCodec, DecodeError, ErrV, read_field, decode_field};
use crate::envelope::{
    envelope_wire, tag_of, payload_of, optional_payload_of, make_envelope, decode_tag,
    decode_payload, decode_optional_payload, lemma_envelope_reads,
    type_key, payload_key,
};
use crate::payloads::{EmptyPayload, EmptyPayloadStrict};

verus! {

/// Credentials: `{"username": .., "password": ..}`.
#[derive(Debug, PartialEq, Eq)]
pub struct AuthReqPayload {
    pub raw_username: String,
    pub raw_password: String,
}

/// Credentials and a contact address:
/// `{"username": .., "password": .., "email": ..}`.
#[derive(Debug, PartialEq, Eq)]
pub struct RegisterPayload {
    pub raw_username: String,
    pub raw_password: String,
    pub raw_email: String,
}

/// A request to the authentication service, tagged `AUTHENTICATE`,
/// `DEAUTHENTICATE` or `REGISTER_USER`.
#[derive(Debug, PartialEq, Eq)]
pub enum AuthRequest {
    Authenticate(AuthReqPayload),
    Deauthenticate(EmptyPayload),
    RegisterUser(RegisterPayload),
}

/// The logical content of an [`AuthRequest`]. Both forms of the optional empty
/// payload of `Deauthenticate` are the same value.
pub enum AuthRequestV {
    Authenticate((Seq<char>, Seq<char>)),
    Deauthenticate,
    RegisterUser((Seq<char>, Seq<char>, Seq<char>)),
}

pub open spec fn username_key() -> Seq<char> {
    "username"@
}

pub open spec fn password_key() -> Seq<char> {
    "password"@
}

pub open spec fn email_key() -> Seq<char> {
    "email"@
}

pub open spec fn authenticate_tag() -> Seq<char> {
    "AUTHENTICATE"@
}

pub open spec fn deauthenticate_tag() -> Seq<char> {
    "DEAUTHENTICATE"@
}

pub open spec fn register_user_tag() -> Seq<char> {
    "REGISTER_USER"@
}

/// The field names and the variant tokens are pairwise distinct.
pub proof fn lemma_names_distinct()
    ensures
        username_key() != password_key(),
        username_key() != email_key(),
        password_key() != email_key(),
        authenticate_tag() != deauthenticate_tag(),
        authenticate_tag() != register_user_tag(),
        deauthenticate_tag() != register_user_tag(),
{
    reveal_strlit("username");
    reveal_strlit("password");
    reveal_strlit("email");
    reveal_strlit("AUTHENTICATE");
    reveal_strlit("DEAUTHENTICATE");
    reveal_strlit("REGISTER_USER");
    assert(username_key()[0] != password_key()[0]);
    assert(username_key()[0] != email_key()[0]);
    assert(password_key()[0] != email_key()[0]);
    assert(authenticate_tag()[0] != deauthenticate_tag()[0]);
    assert(authenticate_tag()[0] != register_user_tag()[0]);
    assert(deauthenticate_tag()[0] != register_user_tag()[0]);
}

impl View for AuthReqPayload {
    type V = (Seq<char>, Seq<char>);

    open spec fn view(&self) -> (Seq<char>, Seq<char>) {
        (self.raw_username@, self.raw_password@)
    }
}

impl View for RegisterPayload {
    type V = (Seq<char>, Seq<char>, Seq<char>);

    open spec fn view(&self) -> (Seq<char>, Seq<char>, Seq<char>) {
        (self.raw_username@, self.raw_password@, self.raw_email@)
    }
}

impl View for AuthRequest {
    type V = AuthRequestV;

    open spec fn view(&self) -> AuthRequestV {
        match self {
            AuthRequest::Authenticate(p) => AuthRequestV::Authenticate(p@),
            AuthRequest::Deauthenticate(_) => AuthRequestV::Deauthenticate,
            AuthRequest::RegisterUser(p) => AuthRequestV::RegisterUser(p@),
        }
    }
}

impl Codec for AuthReqPayload {
    open spec fn to_wire(v: (Seq<char>, Seq<char>)) -> WireV {
        WireV::Obj(
            Seq::empty().push((username_key(), WireV::Str(v.0))).push(
                (password_key(), WireV::Str(v.1)),
            ),
        )
    }

    open spec fn from_wire(w: WireV) -> Result<(Seq<char>, Seq<char>), ErrV> {
        match w {
            WireV::Str(_) | WireV::Null | WireV::Bool(_) | WireV::Num(_) | WireV::Arr(_) => Err(ErrV::NotAnObject),
            WireV::Obj(_) => match read_field::<String>(w, username_key()) {
                Err(e) => Err(e),
                Ok(u) => match read_field::<String>(w, password_key()) {
                    Err(e) => Err(e),
                    Ok(p) => Ok((u, p)),
                },
            },
        }
    }

    open spec fn schema_ok() -> bool {
        true
    }

    fn encode(&self) -> (r: Wire) {
        let mut w = Wire::empty_object();
        w.push_field(String::from_str("username"), self.raw_username.encode());
        w.push_field(String::from_str("password"), self.raw_password.encode());
        w
    }

    fn decode(w: &Wire) -> (r: Result<AuthReqPayload, DecodeError>) {
        if !w.is_object() {
            return Err(DecodeError::NotAnObject);
        }
        let raw_username = match decode_field::<String>(w, "username") {
            Ok(s) => s,
            Err(e) => return Err(e),
        };
        let raw_password = match decode_field::<String>(w, "password") {
            Ok(s) => s,
            Err(e) => return Err(e),
        };
        Ok(AuthReqPayload { raw_username, raw_password })
    }

    proof fn lemma_round_trip(v: (Seq<char>, Seq<char>)) {
        lemma_names_distinct();
        let e0 = (username_key(), WireV::Str(v.0));
        let e1 = (password_key(), WireV::Str(v.1));
        lemma_lookup_push(Seq::empty(), username_key(), e0);
        lemma_lookup_push(Seq::empty().push(e0), username_key(), e1);
        lemma_lookup_push(Seq::empty().push(e0), password_key(), e1);
    }
}

impl ObjectCodec for AuthReqPayload {
    open spec fn owns(k: Seq<char>) -> bool {
        k == username_key() || k == password_key()
    }

    proof fn lemma_is_object(v: (Seq<char>, Seq<char>)) {
    }

    proof fn lemma_reads_owned(fs1: Seq<(Seq<char>, WireV)>, fs2: Seq<(Seq<char>, WireV)>) {
        assert(lookup(fs1, username_key()) == lookup(fs2, username_key()));
        assert(lookup(fs1, password_key()) == lookup(fs2, password_key()));
    }
}

impl Codec for RegisterPayload {
    open spec fn to_wire(v: (Seq<char>, Seq<char>, Seq<char>)) -> WireV {
        WireV::Obj(
            Seq::empty().push((username_key(), WireV::Str(v.0))).push(
                (password_key(), WireV::Str(v.1)),
            ).push((email_key(), WireV::Str(v.2))),
        )
    }

    open spec fn from_wire(w: WireV) -> Result<(Seq<char>, Seq<char>, Seq<char>), ErrV> {
        match w {
            WireV::Str(_) | WireV::Null | WireV::Bool(_) | WireV::Num(_) | WireV::Arr(_) => Err(ErrV::NotAnObject),
            WireV::Obj(_) => match read_field::<String>(w, username_key()) {
                Err(e) => Err(e),
                Ok(u) => match read_field::<String>(w, password_key()) {
                    Err(e) => Err(e),
                    Ok(p) => match read_field::<String>(w, email_key()) {
                        Err(e) => Err(e),
                        Ok(m) => Ok((u, p, m)),
                    },
                },
            },
        }
    }

    open spec fn schema_ok() -> bool {
        true
    }

    fn encode(&self) -> (r: Wire) {
        let mut w = Wire::empty_object();
        w.push_field(String::from_str("username"), self.raw_username.encode());
        w.push_field(String::from_str("password"), self.raw_password.encode());
        w.push_field(String::from_str("email"), self.raw_email.encode());
        w
    }

    fn decode(w: &Wire) -> (r: Result<RegisterPayload, DecodeError>) {
        if !w.is_object() {
            return Err(DecodeError::NotAnObject);
        }
        let raw_username = match decode_field::<String>(w, "username") {
            Ok(s) => s,
            Err(e) => return Err(e),
        };
        let raw_password = match decode_field::<String>(w, "password") {
            Ok(s) => s,
            Err(e) => return Err(e),
        };
        let raw_email = match decode_field::<String>(w, "email") {
            Ok(s) => s,
            Err(e) => return Err(e),
        };
        Ok(RegisterPayload { raw_username, raw_password, raw_email })
    }

    proof fn lemma_round_trip(v: (Seq<char>, Seq<char>, Seq<char>)) {
        lemma_names_distinct();
        let e0 = (username_key(), WireV::Str(v.0));
        let e1 = (password_key(), WireV::Str(v.1));
        let e2 = (email_key(), WireV::Str(v.2));
        let s1 = Seq::empty().push(e0);
        let s2 = s1.push(e1);
        lemma_lookup_push(Seq::empty(), username_key(), e0);
        lemma_lookup_push(s1, username_key(), e1);
        lemma_lookup_push(s1, password_key(), e1);
        lemma_lookup_push(s2, username_key(), e2);
        lemma_lookup_push(s2, password_key(), e2);
        lemma_lookup_push(s2, email_key(), e2);
    }
}

impl ObjectCodec for RegisterPayload {
    open spec fn owns(k: Seq<char>) -> bool {
        k == username_key() || k == password_key() || k == email_key()
    }

    proof fn lemma_is_object(v: (Seq<char>, Seq<char>, Seq<char>)) {
    }

    proof fn lemma_reads_owned(fs1: Seq<(Seq<char>, WireV)>, fs2: Seq<(Seq<char>, WireV)>) {
        assert(lookup(fs1, username_key()) == lookup(fs2, username_key()));
        assert(lookup(fs1, password_key()) == lookup(fs2, password_key()));
        assert(lookup(fs1, email_key()) == lookup(fs2, email_key()));
    }
}

impl Codec for AuthRequest {
    /// `Deauthenticate` always carries the present, empty payload `{}`.
    open spec fn to_wire(v: AuthRequestV) -> WireV {
        match v {
            AuthRequestV::Authenticate(p) => envelope_wire(
                authenticate_tag(),
                AuthReqPayload::to_wire(p),
            ),
            AuthRequestV::Deauthenticate => envelope_wire(
                deauthenticate_tag(),
                EmptyPayloadStrict::to_wire(()),
            ),
            AuthRequestV::RegisterUser(p) => envelope_wire(
                register_user_tag(),
                RegisterPayload::to_wire(p),
            ),
        }
    }

    /// The discriminator is read first; a payload is read only for a known one.
    open spec fn from_wire(w: WireV) -> Result<AuthRequestV, ErrV> {
        match tag_of(w) {
            Err(e) => Err(e),
            Ok(t) => if t == authenticate_tag() {
                match payload_of::<AuthReqPayload>(w, t) {
                    Ok(p) => Ok(AuthRequestV::Authenticate(p)),
                    Err(e) => Err(e),
                }
            } else if t == deauthenticate_tag() {
                match optional_payload_of::<EmptyPayloadStrict>(w, t) {
                    Ok(_) => Ok(AuthRequestV::Deauthenticate),
                    Err(e) => Err(e),
                }
            } else if t == register_user_tag() {
                match payload_of::<RegisterPayload>(w, t) {
                    Ok(p) => Ok(AuthRequestV::RegisterUser(p)),
                    Err(e) => Err(e),
                }
            } else {
                Err(ErrV::UnknownDiscriminator(t))
            },
        }
    }

    open spec fn schema_ok() -> bool {
        true
    }

    fn encode(&self) -> (r: Wire) {
        match self {
            AuthRequest::Authenticate(p) => make_envelope("AUTHENTICATE", p.encode()),
            AuthRequest::Deauthenticate(_) => make_envelope(
                "DEAUTHENTICATE",
                Wire::empty_object(),
            ),
            AuthRequest::RegisterUser(p) => make_envelope("REGISTER_USER", p.encode()),
        }
    }

    fn decode(w: &Wire) -> (r: Result<AuthRequest, DecodeError>) {
        let tag = match decode_tag(w) {
            Ok(t) => t,
            Err(e) => return Err(e),
        };
        if tag == String::from_str("AUTHENTICATE") {
            match decode_payload::<AuthReqPayload>(w, &tag) {
                Ok(p) => Ok(AuthRequest::Authenticate(p)),
                Err(e) => Err(e),
            }
        } else if tag == String::from_str("DEAUTHENTICATE") {
            match decode_optional_payload::<EmptyPayloadStrict>(w, &tag) {
                Ok(p) => Ok(AuthRequest::Deauthenticate(p)),
                Err(e) => Err(e),
            }
        } else if tag == String::from_str("REGISTER_USER") {
            match decode_payload::<RegisterPayload>(w, &tag) {
                Ok(p) => Ok(AuthRequest::RegisterUser(p)),
                Err(e) => Err(e),
            }
        } else {
            Err(DecodeError::UnknownDiscriminator(tag))
        }
    }

    proof fn lemma_round_trip(v: AuthRequestV) {
        lemma_names_distinct();
        match v {
            AuthRequestV::Authenticate(p) => {
                lemma_envelope_reads(authenticate_tag(), AuthReqPayload::to_wire(p));
                AuthReqPayload::lemma_round_trip(p);
            },
            AuthRequestV::Deauthenticate => {
                lemma_envelope_reads(deauthenticate_tag(), EmptyPayloadStrict::to_wire(()));
            },
            AuthRequestV::RegisterUser(p) => {
                lemma_envelope_reads(register_user_tag(), RegisterPayload::to_wire(p));
                RegisterPayload::lemma_round_trip(p);
            },
        }
    }
}

impl ObjectCodec for AuthRequest {
    open spec fn owns(k: Seq<char>) -> bool {
        k == type_key() || k == payload_key()
    }

    proof fn lemma_is_object(v: AuthRequestV) {
    }

    proof fn lemma_reads_owned(fs1: Seq<(Seq<char>, WireV)>, fs2: Seq<(Seq<char>, WireV)>) {
        assert(lookup(fs1, type_key()) == lookup(fs2, type_key()));
        assert(lookup(fs1, payload_key()) == lookup(fs2, payload_key()));
    }
}

} // verus!
