//! The requests an administrator can send to a service.
use vstd::prelude::*;
use crate::wire::{Wire, WireV, lookup, lemma_lookup_push};
use crate::codec::{Codec, ObjectCodec, DecodeError, ErrV, read_field, decode_field};
use crate::envelope::{
    envelope_wire, tag_of, payload_of, make_envelope, decode_tag, decode_payload,
    lemma_envelope_reads, type_key, payload_key,
};
use crate::ip::{IpAddr, IpAddrV, addr_text, addr_of, lemma_addr_round_trip};
use crate::payloads::TokenPayload;

verus! {

/// An address is encoded as its text.
impl Codec for IpAddr {
    open spec fn to_wire(v: IpAddrV) -> WireV {
        WireV::Str(addr_text(v))
    }

    open spec fn from_wire(w: WireV) -> Result<IpAddrV, ErrV> {
        match w {
            WireV::Str(s) => match addr_of(s) {
                Some(v) => Ok(v),
                None => Err(ErrV::InvalidValue),
            },
            _ => Err(ErrV::NotAString),
        }
    }

    open spec fn schema_ok() -> bool {
        true
    }

    fn encode(&self) -> (r: Wire) {
        Wire::from_string(self.to_text())
    }

    fn decode(w: &Wire) -> (r: Result<IpAddr, DecodeError>) {
        match w {
            Wire::Str(s) => match IpAddr::parse(s.as_str()) {
                Some(ip) => Ok(ip),
                None => Err(DecodeError::InvalidValue),
            },
            _ => Err(DecodeError::NotAString),
        }
    }

    proof fn lemma_round_trip(v: IpAddrV) {
        lemma_addr_round_trip(v);
    }
}

/// The target of a ban: `{"ip": "10.0.0.1"}`.
#[derive(Debug, PartialEq, Eq)]
pub struct IpAddrPayload {
    pub ip: IpAddr,
}

/// A request of an administrator, tagged `BAN_IP` or `UNBAN_IP`.
#[derive(Debug, PartialEq, Eq)]
pub enum AdminRequest {
    BanIp(IpAddrPayload),
    UnbanIp(IpAddrPayload),
}

/// An administrator's request with the administrator's token.
pub type TokenAdminRequest = TokenPayload<AdminRequest>;

/// The logical content of an [`AdminRequest`].
pub enum AdminRequestV {
    BanIp(IpAddrV),
    UnbanIp(IpAddrV),
}

pub open spec fn ip_key() -> Seq<char> {
    "ip"@
}

pub open spec fn ban_ip_tag() -> Seq<char> {
    "BAN_IP"@
}

pub open spec fn unban_ip_tag() -> Seq<char> {
    "UNBAN_IP"@
}

/// The two variant tokens differ.
pub proof fn lemma_tags_distinct()
    ensures
        ban_ip_tag() != unban_ip_tag(),
{
    reveal_strlit("BAN_IP");
    reveal_strlit("UNBAN_IP");
    assert(ban_ip_tag()[0] != unban_ip_tag()[0]);
}

impl View for IpAddrPayload {
    type V = IpAddrV;

    open spec fn view(&self) -> IpAddrV {
        self.ip@
    }
}

impl View for AdminRequest {
    type V = AdminRequestV;

    open spec fn view(&self) -> AdminRequestV {
        match self {
            AdminRequest::BanIp(p) => AdminRequestV::BanIp(p@),
            AdminRequest::UnbanIp(p) => AdminRequestV::UnbanIp(p@),
        }
    }
}

impl Codec for IpAddrPayload {
    open spec fn to_wire(v: IpAddrV) -> WireV {
        WireV::Obj(Seq::empty().push((ip_key(), IpAddr::to_wire(v))))
    }

    open spec fn from_wire(w: WireV) -> Result<IpAddrV, ErrV> {
        match w {
            WireV::Str(_) | WireV::Null | WireV::Bool(_) | WireV::Num(_) | WireV::Arr(_) => Err(ErrV::NotAnObject),
            WireV::Obj(_) => read_field::<IpAddr>(w, ip_key()),
        }
    }

    open spec fn schema_ok() -> bool {
        true
    }

    fn encode(&self) -> (r: Wire) {
        let mut w = Wire::empty_object();
        w.push_field(String::from_str("ip"), self.ip.encode());
        w
    }

    fn decode(w: &Wire) -> (r: Result<IpAddrPayload, DecodeError>) {
        if !w.is_object() {
            return Err(DecodeError::NotAnObject);
        }
        match decode_field::<IpAddr>(w, "ip") {
            Ok(ip) => Ok(IpAddrPayload { ip }),
            Err(e) => Err(e),
        }
    }

    proof fn lemma_round_trip(v: IpAddrV) {
        lemma_lookup_push(Seq::empty(), ip_key(), (ip_key(), IpAddr::to_wire(v)));
        IpAddr::lemma_round_trip(v);
    }
}

impl ObjectCodec for IpAddrPayload {
    open spec fn owns(k: Seq<char>) -> bool {
        k == ip_key()
    }

    proof fn lemma_is_object(v: IpAddrV) {
    }

    proof fn lemma_reads_owned(fs1: Seq<(Seq<char>, WireV)>, fs2: Seq<(Seq<char>, WireV)>) {
        assert(lookup(fs1, ip_key()) == lookup(fs2, ip_key()));
    }
}

impl Codec for AdminRequest {
    open spec fn to_wire(v: AdminRequestV) -> WireV {
        match v {
            AdminRequestV::BanIp(p) => envelope_wire(ban_ip_tag(), IpAddrPayload::to_wire(p)),
            AdminRequestV::UnbanIp(p) => envelope_wire(unban_ip_tag(), IpAddrPayload::to_wire(p)),
        }
    }

    /// The discriminator is read first; a payload is read only for a known one.
    open spec fn from_wire(w: WireV) -> Result<AdminRequestV, ErrV> {
        match tag_of(w) {
            Err(e) => Err(e),
            Ok(t) => if t == ban_ip_tag() {
                match payload_of::<IpAddrPayload>(w, t) {
                    Ok(p) => Ok(AdminRequestV::BanIp(p)),
                    Err(e) => Err(e),
                }
            } else if t == unban_ip_tag() {
                match payload_of::<IpAddrPayload>(w, t) {
                    Ok(p) => Ok(AdminRequestV::UnbanIp(p)),
                    Err(e) => Err(e),
                }
            } else {
                Err(ErrV::UnknownDiscriminator(t))
            },
        }
    }

    open spec fn schema_ok() -> bool {
        true
    }

    fn encode(&self) -> (r: Wire) {
        match self {
            AdminRequest::BanIp(p) => make_envelope("BAN_IP", p.encode()),
            AdminRequest::UnbanIp(p) => make_envelope("UNBAN_IP", p.encode()),
        }
    }

    fn decode(w: &Wire) -> (r: Result<AdminRequest, DecodeError>) {
        let tag = match decode_tag(w) {
            Ok(t) => t,
            Err(e) => return Err(e),
        };
        if tag == String::from_str("BAN_IP") {
            match decode_payload::<IpAddrPayload>(w, &tag) {
                Ok(p) => Ok(AdminRequest::BanIp(p)),
                Err(e) => Err(e),
            }
        } else if tag == String::from_str("UNBAN_IP") {
            match decode_payload::<IpAddrPayload>(w, &tag) {
                Ok(p) => Ok(AdminRequest::UnbanIp(p)),
                Err(e) => Err(e),
            }
        } else {
            Err(DecodeError::UnknownDiscriminator(tag))
        }
    }

    proof fn lemma_round_trip(v: AdminRequestV) {
        lemma_tags_distinct();
        match v {
            AdminRequestV::BanIp(p) => {
                lemma_envelope_reads(ban_ip_tag(), IpAddrPayload::to_wire(p));
                IpAddrPayload::lemma_round_trip(p);
            },
            AdminRequestV::UnbanIp(p) => {
                lemma_envelope_reads(unban_ip_tag(), IpAddrPayload::to_wire(p));
                IpAddrPayload::lemma_round_trip(p);
            },
        }
    }
}

impl ObjectCodec for AdminRequest {
    open spec fn owns(k: Seq<char>) -> bool {
        k == type_key() || k == payload_key()
    }

    proof fn lemma_is_object(v: AdminRequestV) {
    }

    proof fn lemma_reads_owned(fs1: Seq<(Seq<char>, WireV)>, fs2: Seq<(Seq<char>, WireV)>) {
        assert(lookup(fs1, type_key()) == lookup(fs2, type_key()));
        assert(lookup(fs1, payload_key()) == lookup(fs2, payload_key()));
    }
}

} // verus!
