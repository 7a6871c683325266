use datatypes::admin::{AdminRequest, IpAddrPayload, TokenAdminRequest};
use datatypes::auth::{AuthReqPayload, AuthRequest, RegisterPayload};
use datatypes::codec::{decode_field, Codec, DecodeError};
use datatypes::envelope::decode_payload;
use datatypes::ip::{IpAddr, Ipv4Addr};
use datatypes::ipv6::Ipv6Addr;
use datatypes::payloads::{EmptyPayloadStrict, MetaPayload, TokenPayload, UserIdPayload};
use datatypes::valid::{Token, UserId};
use datatypes::wire::{Field, Wire};

fn s(v: &str) -> Wire {
    Wire::Str(v.to_string())
}

fn obj(fields: Vec<(&str, Wire)>) -> Wire {
    Wire::Obj(
        fields
            .into_iter()
            .map(|(name, value)| Field { name: name.to_string(), value })
            .collect(),
    )
}

fn v4(a: u8, b: u8, c: u8, d: u8) -> IpAddr {
    IpAddr::V4(Ipv4Addr::new(a, b, c, d))
}

fn v6(g: [u16; 8]) -> IpAddr {
    IpAddr::V6(Ipv6Addr::new(g))
}

fn creds(u: &str, p: &str) -> AuthReqPayload {
    AuthReqPayload { raw_username: u.to_string(), raw_password: p.to_string() }
}

#[test]
fn token_payload_encodes_flat_and_decodes_back() {
    let w = TokenPayload::new(creds("john", "pw"), Token::new("abc"));
    let wire = w.encode();
    assert_eq!(
        wire,
        obj(vec![("username", s("john")), ("password", s("pw")), ("token", s("abc"))])
    );
    let back = TokenPayload::<AuthReqPayload>::decode(&wire).unwrap();
    assert_eq!(back.token().as_str(), "abc");
    assert_eq!(back.metadata().as_str(), "abc");
    assert_eq!(back.inner().raw_username, "john");
    assert_eq!(back.inner().raw_password, "pw");
}

#[test]
fn ban_ip_decodes_with_its_address() {
    let wire = obj(vec![("type", s("BAN_IP")), ("payload", obj(vec![("ip", s("10.0.0.1"))]))]);
    let req = AdminRequest::decode(&wire).unwrap();
    assert_eq!(req, AdminRequest::BanIp(IpAddrPayload { ip: v4(10, 0, 0, 1) }));
}

#[test]
fn deauthenticate_without_payload_decodes() {
    let absent = obj(vec![("type", s("DEAUTHENTICATE"))]);
    let present = obj(vec![("type", s("DEAUTHENTICATE")), ("payload", obj(vec![]))]);
    assert_eq!(AuthRequest::decode(&absent).unwrap(), AuthRequest::Deauthenticate(None));
    assert_eq!(
        AuthRequest::decode(&present).unwrap(),
        AuthRequest::Deauthenticate(Some(EmptyPayloadStrict {}))
    );
}

#[test]
fn optional_empty_payload_encodes_one_form() {
    let a = AuthRequest::Deauthenticate(None).encode();
    let b = AuthRequest::Deauthenticate(Some(EmptyPayloadStrict {})).encode();
    assert_eq!(a, b);
    assert_eq!(a, obj(vec![("type", s("DEAUTHENTICATE")), ("payload", obj(vec![]))]));
}

#[test]
fn strict_empty_payload_absent_is_missing_field() {
    let wire = obj(vec![("type", s("SOME_TYPE"))]);
    let r = decode_field::<EmptyPayloadStrict>(&wire, "payload");
    assert_eq!(r, Err(DecodeError::MissingField("payload".to_string())));
    let r = decode_payload::<EmptyPayloadStrict>(&wire, &"SOME_TYPE".to_string());
    assert_eq!(r, Err(DecodeError::MissingField("payload".to_string())));
    let present = obj(vec![("type", s("SOME_TYPE")), ("payload", obj(vec![]))]);
    assert_eq!(decode_field::<EmptyPayloadStrict>(&present, "payload"), Ok(EmptyPayloadStrict {}));
}

#[test]
fn unknown_discriminator_is_rejected_before_payload() {
    let wire = obj(vec![("type", s("NOT_A_REAL_VARIANT")), ("payload", obj(vec![]))]);
    assert_eq!(
        AuthRequest::decode(&wire),
        Err(DecodeError::UnknownDiscriminator("NOT_A_REAL_VARIANT".to_string()))
    );
    let bad_payload = obj(vec![("type", s("NOT_A_REAL_VARIANT")), ("payload", s("x"))]);
    assert_eq!(
        AdminRequest::decode(&bad_payload),
        Err(DecodeError::UnknownDiscriminator("NOT_A_REAL_VARIANT".to_string()))
    );
}

#[test]
fn replace_metadata_returns_previous() {
    let mut w = TokenPayload::new(creds("a", "b"), Token::new("old"));
    let prev = w.set_token(Token::new("new"));
    assert_eq!(prev.as_str(), "old");
    assert_eq!(w.token().as_str(), "new");
    let prev = w.replace_metadata(Token::new("newer"));
    assert_eq!(prev.as_str(), "new");
    assert_eq!(w.metadata().as_str(), "newer");
    assert_eq!(w.inner().raw_username, "a");

    let mut u = UserIdPayload::new(creds("a", "b"), UserId::new("u1"));
    let prev = u.set_id(UserId::new("u2"));
    assert_eq!(prev.as_str(), "u1");
    assert_eq!(u.id().as_str(), "u2");
}

#[test]
fn delegated_field_access() {
    let mut bare = creds("john", "pw");
    let mut w = TokenPayload::new(creds("john", "pw"), Token::new("t"));
    assert_eq!(w.inner().raw_username, bare.raw_username);
    w.inner_mut().raw_username = "jane".to_string();
    bare.raw_username = "jane".to_string();
    assert_eq!(w.inner(), &bare);
    assert_eq!(w.token().as_str(), "t");
    assert_eq!(w.raw_password, bare.raw_password);
    w.raw_password = "changed".to_string();
    bare.raw_password = "changed".to_string();
    assert_eq!(*w, bare);
    assert_eq!(w.inner().raw_password, "changed");
}

#[test]
fn split_after_combine_gives_both_parts() {
    let w = MetaPayload::combine(creds("x", "y"), UserId::new("42"));
    let (inner, id) = w.split();
    assert_eq!(inner, creds("x", "y"));
    assert_eq!(id.as_str(), "42");
    let (inner, token) = TokenPayload::new(creds("p", "q"), Token::new("k")).into_inner();
    assert_eq!(inner, creds("p", "q"));
    assert_eq!(token.as_str(), "k");
    let (inner, id) = UserIdPayload::new(creds("p", "q"), UserId::new("7")).into_inner();
    assert_eq!(inner, creds("p", "q"));
    assert_eq!(id.as_str(), "7");
}

#[test]
fn user_id_payload_round_trip() {
    let w = UserIdPayload::new(creds("u", "p"), UserId::new("17"));
    let wire = w.encode();
    assert_eq!(wire, obj(vec![("username", s("u")), ("password", s("p")), ("id", s("17"))]));
    let back = UserIdPayload::<AuthReqPayload>::decode(&wire).unwrap();
    assert_eq!(back, w);
}

#[test]
fn auth_requests_round_trip() {
    let reqs = vec![
        AuthRequest::Authenticate(creds("john", "secret")),
        AuthRequest::Deauthenticate(Some(EmptyPayloadStrict {})),
        AuthRequest::RegisterUser(RegisterPayload {
            raw_username: "john".to_string(),
            raw_password: "pw".to_string(),
            raw_email: "john@doe.com".to_string(),
        }),
    ];
    for r in reqs {
        assert_eq!(AuthRequest::decode(&r.encode()).unwrap(), r);
    }
    let reg = AuthRequest::RegisterUser(RegisterPayload {
        raw_username: "a".to_string(),
        raw_password: "b".to_string(),
        raw_email: "c".to_string(),
    });
    assert_eq!(
        reg.encode(),
        obj(vec![
            ("type", s("REGISTER_USER")),
            (
                "payload",
                obj(vec![("username", s("a")), ("password", s("b")), ("email", s("c"))])
            ),
        ])
    );
}

#[test]
fn token_admin_request_round_trip() {
    let req = TokenAdminRequest::new(
        AdminRequest::UnbanIp(IpAddrPayload { ip: v4(192, 168, 0, 255) }),
        Token::new("admin-token"),
    );
    let wire = req.encode();
    assert_eq!(
        wire,
        obj(vec![
            ("type", s("UNBAN_IP")),
            ("payload", obj(vec![("ip", s("192.168.0.255"))])),
            ("token", s("admin-token")),
        ])
    );
    assert_eq!(TokenAdminRequest::decode(&wire).unwrap(), req);
}

#[test]
fn payload_shape_errors_name_the_variant() {
    let wire = obj(vec![("type", s("AUTHENTICATE")), ("payload", obj(vec![("username", s("j"))]))]);
    assert_eq!(
        AuthRequest::decode(&wire),
        Err(DecodeError::PayloadShape("AUTHENTICATE".to_string()))
    );
    let wire = obj(vec![("type", s("BAN_IP")), ("payload", obj(vec![("ip", s("256.0.0.1"))]))]);
    assert_eq!(AdminRequest::decode(&wire), Err(DecodeError::PayloadShape("BAN_IP".to_string())));
    let wire = obj(vec![("type", s("DEAUTHENTICATE")), ("payload", s("x"))]);
    assert_eq!(
        AuthRequest::decode(&wire),
        Err(DecodeError::PayloadShape("DEAUTHENTICATE".to_string()))
    );
}

#[test]
fn envelope_shape_errors() {
    assert_eq!(AuthRequest::decode(&s("x")), Err(DecodeError::NotAnObject));
    let no_type = obj(vec![("payload", obj(vec![]))]);
    assert_eq!(AuthRequest::decode(&no_type), Err(DecodeError::MissingField("type".to_string())));
    let obj_type = obj(vec![("type", obj(vec![]))]);
    assert_eq!(AdminRequest::decode(&obj_type), Err(DecodeError::PayloadShape("type".to_string())));
    let no_payload = obj(vec![("type", s("AUTHENTICATE"))]);
    assert_eq!(
        AuthRequest::decode(&no_payload),
        Err(DecodeError::MissingField("payload".to_string()))
    );
}

#[test]
fn wrapper_errors_say_which_part_failed() {
    let no_token = obj(vec![("username", s("u")), ("password", s("p"))]);
    assert_eq!(
        TokenPayload::<AuthReqPayload>::decode(&no_token),
        Err(DecodeError::MissingField("token".to_string()))
    );
    let bad_token = obj(vec![("username", s("u")), ("password", s("p")), ("token", obj(vec![]))]);
    assert_eq!(
        TokenPayload::<AuthReqPayload>::decode(&bad_token),
        Err(DecodeError::PayloadShape("token".to_string()))
    );
    let bad_inner = obj(vec![("username", s("u")), ("token", s("t"))]);
    assert_eq!(
        TokenPayload::<AuthReqPayload>::decode(&bad_inner),
        Err(DecodeError::MissingField("password".to_string()))
    );
    assert_eq!(TokenPayload::<AuthReqPayload>::decode(&s("t")), Err(DecodeError::NotAnObject));
}

#[test]
fn later_field_overrides_earlier_and_unknown_fields_are_ignored() {
    let wire = obj(vec![
        ("username", s("first")),
        ("extra", s("ignored")),
        ("password", s("pw")),
        ("username", s("second")),
    ]);
    assert_eq!(AuthReqPayload::decode(&wire).unwrap(), creds("second", "pw"));
    assert_eq!(wire.get(&"extra".to_string()), Some(&s("ignored")));
    assert_eq!(wire.get(&"nothing".to_string()), None);
}

#[test]
fn leaf_errors() {
    assert_eq!(String::decode(&obj(vec![])), Err(DecodeError::NotAString));
    assert_eq!(Token::decode(&s("abc")).unwrap().as_str(), "abc");
    assert_eq!(EmptyPayloadStrict::decode(&s("x")), Err(DecodeError::NotAnObject));
    assert_eq!(IpAddr::decode(&s("1.2.3")), Err(DecodeError::InvalidValue));
    assert_eq!(IpAddr::decode(&obj(vec![])), Err(DecodeError::NotAString));
}

#[test]
fn ip_text_form() {
    assert_eq!(v4(192, 168, 0, 255).to_text(), "192.168.0.255");
    assert_eq!(v4(0, 9, 10, 100).to_text(), "0.9.10.100");
    assert_eq!(Ipv4Addr::parse("10.0.0.1").unwrap().octets(), (10, 0, 0, 1));
    assert_eq!(IpAddr::parse("10.0.0.1"), Some(v4(10, 0, 0, 1)));
    assert_eq!(IpAddr::parse("255.255.255.255"), Some(v4(255, 255, 255, 255)));
    assert_eq!(IpAddr::parse("256.0.0.1"), None);
    assert_eq!(IpAddr::parse("01.2.3.4"), None);
    assert_eq!(IpAddr::parse("1.2.3"), None);
    assert_eq!(IpAddr::parse("1.2.3.4.5"), None);
    assert_eq!(IpAddr::parse("1..3.4"), None);
    assert_eq!(IpAddr::parse("a.b.c.d"), None);
    assert_eq!(IpAddr::parse(""), None);
    assert_eq!(IpAddr::parse("1000.1000.1000.1000"), None);
    let ip = v4(8, 8, 4, 4);
    assert_eq!(IpAddr::decode(&ip.encode()).unwrap(), ip);
}

#[test]
fn ipv6_text_forms() {
    assert_eq!(IpAddr::parse("::1"), Some(v6([0, 0, 0, 0, 0, 0, 0, 1])));
    assert_eq!(IpAddr::parse("::"), Some(v6([0; 8])));
    assert_eq!(IpAddr::parse("fe80::"), Some(v6([0xfe80, 0, 0, 0, 0, 0, 0, 0])));
    assert_eq!(
        IpAddr::parse("2001:DB8::8:800:200C:417A"),
        Some(v6([0x2001, 0xdb8, 0, 0, 0x8, 0x800, 0x200c, 0x417a]))
    );
    assert_eq!(
        IpAddr::parse("2001:0db8:0000:0000:0000:ff00:0042:8329"),
        Some(v6([0x2001, 0xdb8, 0, 0, 0, 0xff00, 0x42, 0x8329]))
    );
    assert_eq!(IpAddr::parse("1:2:3:4:5:6:7::"), Some(v6([1, 2, 3, 4, 5, 6, 7, 0])));
    assert_eq!(IpAddr::parse("1:2:3:4:5:6:7:8:9"), None);
    assert_eq!(IpAddr::parse("1:2:3:4:5:6:7"), None);
    assert_eq!(IpAddr::parse("1::2::3"), None);
    assert_eq!(IpAddr::parse(":::1"), None);
    assert_eq!(IpAddr::parse("12345::"), None);
    assert_eq!(IpAddr::parse("g::1"), None);
    assert_eq!(IpAddr::parse("1:2:3:4::5:6:7:8"), None);
    assert_eq!(IpAddr::parse(":1::"), None);
    assert_eq!(v6([0x2001, 0xdb8, 0, 0, 0, 0xff00, 0x42, 0x8329]).to_text(), "2001:db8::ff00:42:8329");
    assert_eq!(v6([0, 0, 0, 0, 0, 0, 0, 1]).to_text(), "::1");
    assert_eq!(v6([0; 8]).to_text(), "::");
    assert_eq!(v6([0xfe80, 0, 0, 0, 0, 0, 0, 0]).to_text(), "fe80::");
    assert_eq!(v6([1, 0, 0, 1, 0, 0, 0, 1]).to_text(), "1:0:0:1::1");
    assert_eq!(v6([0, 0, 1, 0, 0, 1, 1, 1]).to_text(), "::1:0:0:1:1:1");
    assert_eq!(v6([1, 0, 1, 1, 1, 1, 1, 1]).to_text(), "1:0:1:1:1:1:1:1");
    assert_eq!(v6([0xABCD, 0x12, 0, 0, 0, 0, 0, 0]).to_text(), "abcd:12::");
    let ip = v6([0xffff, 1, 0, 0x10, 0x100, 0x1000, 0xabcd, 0]);
    assert_eq!(IpAddr::decode(&ip.encode()).unwrap(), ip);
    assert_eq!(Ipv6Addr::parse("::1").unwrap().segments(), [0, 0, 0, 0, 0, 0, 0, 1]);
}

#[test]
fn ipv6_ban_with_token() {
    let wire = obj(vec![
        ("token", s("t")),
        ("type", s("UNBAN_IP")),
        ("payload", obj(vec![("ip", s("::1"))])),
    ]);
    let req = TokenAdminRequest::decode(&wire).unwrap();
    assert_eq!(req.token().as_str(), "t");
    assert_eq!(*req, AdminRequest::UnbanIp(IpAddrPayload { ip: v6([0, 0, 0, 0, 0, 0, 0, 1]) }));
    let wire = obj(vec![("type", s("BAN_IP")), ("payload", obj(vec![("ip", s("::1"))]))]);
    assert_eq!(
        AdminRequest::decode(&wire).unwrap(),
        AdminRequest::BanIp(IpAddrPayload { ip: v6([0, 0, 0, 0, 0, 0, 0, 1]) })
    );
}

#[test]
fn metadata_field_anywhere_and_other_value_kinds() {
    let a = obj(vec![("token", s("one")), ("username", s("u")), ("n", Wire::Num(3)), ("password", s("p"))]);
    let b = obj(vec![("username", s("u")), ("password", s("p")), ("token", s("two"))]);
    let pa = TokenPayload::<AuthReqPayload>::decode(&a).unwrap();
    let pb = TokenPayload::<AuthReqPayload>::decode(&b).unwrap();
    assert_eq!(*pa, *pb);
    assert_eq!(pa.token().as_str(), "one");
    assert_eq!(pb.token().as_str(), "two");
    let extra = obj(vec![
        ("type", s("AUTHENTICATE")),
        ("flags", Wire::Arr(vec![Wire::Bool(true), Wire::Null])),
        ("payload", obj(vec![("username", s("u")), ("password", s("p")), ("age", Wire::Num(-4))])),
    ]);
    assert_eq!(AuthRequest::decode(&extra).unwrap(), AuthRequest::Authenticate(creds("u", "p")));
    let null_payload = obj(vec![("type", s("DEAUTHENTICATE")), ("payload", Wire::Null)]);
    assert_eq!(AuthRequest::decode(&null_payload).unwrap(), AuthRequest::Deauthenticate(None));
    assert_eq!(String::decode(&Wire::Num(1)), Err(DecodeError::NotAString));
    assert_eq!(String::decode(&Wire::Null), Err(DecodeError::NotAString));
    assert_eq!(EmptyPayloadStrict::decode(&Wire::Arr(vec![])), Err(DecodeError::NotAnObject));
    assert_eq!(AuthRequest::decode(&Wire::Bool(false)), Err(DecodeError::NotAnObject));
    let null_ip = obj(vec![("type", s("BAN_IP")), ("payload", Wire::Null)]);
    assert_eq!(AdminRequest::decode(&null_ip), Err(DecodeError::PayloadShape("BAN_IP".to_string())));
}
