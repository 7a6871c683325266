//! IP addresses and their text forms: dotted decimal for IPv4 (`10.0.0.1`),
//! colon-separated hex groups for IPv6 (`::1`).
use vstd::prelude::*;
use vstd::string::*;
use crate::ipv6::{
    Ipv6Addr, Segments, v6_text, v6_of, seq_segs, segs_seq, join_hex, hex, best_run,
    lemma_v6_round_trip,
};

verus! {

/// An IPv4 address.
#[derive(Debug, Clone, Copy, PartialEq, Eq, Structural)]
pub struct Ipv4Addr {
    a: u8,
    b: u8,
    c: u8,
    d: u8,
}

impl View for Ipv4Addr {
    type V = (u8, u8, u8, u8);

    closed spec fn view(&self) -> (u8, u8, u8, u8) {
        (self.a, self.b, self.c, self.d)
    }
}

/// The decimal digit `k` (for `k < 10`).
pub open spec fn digit_char(k: nat) -> char {
    if k == 0 {
        '0'
    } else if k == 1 {
        '1'
    } else if k == 2 {
        '2'
    } else if k == 3 {
        '3'
    } else if k == 4 {
        '4'
    } else if k == 5 {
        '5'
    } else if k == 6 {
        '6'
    } else if k == 7 {
        '7'
    } else if k == 8 {
        '8'
    } else {
        '9'
    }
}

/// The value of a decimal digit.
pub open spec fn digit_of(c: char) -> Option<nat> {
    if c == '0' {
        Some(0)
    } else if c == '1' {
        Some(1)
    } else if c == '2' {
        Some(2)
    } else if c == '3' {
        Some(3)
    } else if c == '4' {
        Some(4)
    } else if c == '5' {
        Some(5)
    } else if c == '6' {
        Some(6)
    } else if c == '7' {
        Some(7)
    } else if c == '8' {
        Some(8)
    } else if c == '9' {
        Some(9)
    } else {
        None
    }
}

/// The decimal text of `n`, without leading zeros.
pub open spec fn dec(n: nat) -> Seq<char>
    decreases n,
{
    if n < 10 {
        seq![digit_char(n)]
    } else {
        dec(n / 10).push(digit_char(n % 10))
    }
}

/// The dotted-decimal text of an address.
pub open spec fn ip_text(o: (u8, u8, u8, u8)) -> Seq<char> {
    dec(o.0 as nat) + seq!['.'] + dec(o.1 as nat) + seq!['.'] + dec(o.2 as nat) + seq!['.']
        + dec(o.3 as nat)
}

/// Whether `s` is the text of some address.
pub open spec fn is_ip_text(s: Seq<char>) -> bool {
    exists|o: (u8, u8, u8, u8)| ip_text(o) == s
}

/// The values of the dot-separated parts of `s`; a part that holds a non-digit
/// or exceeds 255 counts as 256.
pub open spec fn scan(s: Seq<char>) -> Seq<int>
    decreases s.len(),
{
    if s.len() == 0 {
        seq![0int]
    } else {
        let p = scan(s.drop_last());
        if s.last() == '.' {
            p.push(0)
        } else {
            match digit_of(s.last()) {
                Some(k) => p.update(
                    p.len() - 1,
                    if p.last() * 10 + k > 255 {
                        256
                    } else {
                        p.last() * 10 + k
                    },
                ),
                None => p.update(p.len() - 1, 256),
            }
        }
    }
}

proof fn lemma_scan_len(s: Seq<char>)
    ensures
        scan(s).len() >= 1,
        forall|j: int| 0 <= j < scan(s).len() ==> 0 <= #[trigger] scan(s)[j] <= 256,
    decreases s.len(),
{
    if s.len() > 0 {
        lemma_scan_len(s.drop_last());
    }
}

proof fn lemma_scan_push(s: Seq<char>, c: char)
    ensures
        scan(s.push(c)) == ({
            let p = scan(s);
            if c == '.' {
                p.push(0)
            } else {
                match digit_of(c) {
                    Some(k) => p.update(
                        p.len() - 1,
                        if p.last() * 10 + k > 255 {
                            256
                        } else {
                            p.last() * 10 + k
                        },
                    ),
                    None => p.update(p.len() - 1, 256),
                }
            }
        }),
{
    assert(s.push(c).drop_last() =~= s);
}

proof fn lemma_dec_len(n: nat)
    requires
        n <= 255,
    ensures
        1 <= dec(n).len() <= 3,
{
    if n >= 10 {
        assert(dec(n) == dec(n / 10).push(digit_char(n % 10)));
        if n / 10 >= 10 {
            assert(dec(n / 10) == dec(n / 10 / 10).push(digit_char((n / 10) % 10)));
        }
    }
}

/// Scanning the digits of `n` after a fresh part sets that part to `n`.
proof fn lemma_scan_dec(p: Seq<char>, n: nat)
    requires
        n <= 255,
        scan(p).len() >= 1,
        scan(p).last() == 0,
    ensures
        scan(p + dec(n)) == scan(p).update(scan(p).len() - 1, n as int),
    decreases n,
{
    if n < 10 {
        assert(p + dec(n) =~= p.push(digit_char(n)));
        lemma_scan_push(p, digit_char(n));
    } else {
        lemma_scan_dec(p, n / 10);
        assert(p + dec(n) =~= (p + dec(n / 10)).push(digit_char(n % 10)));
        lemma_scan_push(p + dec(n / 10), digit_char(n % 10));
        let q = scan(p).update(scan(p).len() - 1, (n / 10) as int);
        assert(q.update(q.len() - 1, n as int) =~= scan(p).update(scan(p).len() - 1, n as int));
    }
}

/// The text of an address scans back to its four octets.
pub proof fn lemma_scan_ip_text(o: (u8, u8, u8, u8))
    ensures
        scan(ip_text(o)) == seq![o.0 as int, o.1 as int, o.2 as int, o.3 as int],
        ip_text(o).len() <= 15,
{
    let dot = seq!['.'];
    let s0: Seq<char> = Seq::empty();
    assert(scan(s0) == seq![0int]);
    lemma_scan_dec(s0, o.0 as nat);
    assert(s0 + dec(o.0 as nat) =~= dec(o.0 as nat));
    let t1 = dec(o.0 as nat) + dot;
    assert(t1 =~= dec(o.0 as nat).push('.'));
    lemma_scan_push(dec(o.0 as nat), '.');
    lemma_scan_dec(t1, o.1 as nat);
    let t2 = t1 + dec(o.1 as nat) + dot;
    assert(t2 =~= (t1 + dec(o.1 as nat)).push('.'));
    lemma_scan_push(t1 + dec(o.1 as nat), '.');
    lemma_scan_dec(t2, o.2 as nat);
    let t3 = t2 + dec(o.2 as nat) + dot;
    assert(t3 =~= (t2 + dec(o.2 as nat)).push('.'));
    lemma_scan_push(t2 + dec(o.2 as nat), '.');
    lemma_scan_dec(t3, o.3 as nat);
    assert(scan(ip_text(o)) =~= seq![o.0 as int, o.1 as int, o.2 as int, o.3 as int]);
    lemma_dec_len(o.0 as nat);
    lemma_dec_len(o.1 as nat);
    lemma_dec_len(o.2 as nat);
    lemma_dec_len(o.3 as nat);
}

/// Distinct addresses have distinct texts.
pub proof fn lemma_ip_text_injective(o1: (u8, u8, u8, u8), o2: (u8, u8, u8, u8))
    requires
        ip_text(o1) == ip_text(o2),
    ensures
        o1 == o2,
{
    lemma_scan_ip_text(o1);
    lemma_scan_ip_text(o2);
    assert(scan(ip_text(o1))[0] == o1.0 as int);
    assert(scan(ip_text(o1))[1] == o1.1 as int);
    assert(scan(ip_text(o1))[2] == o1.2 as int);
    assert(scan(ip_text(o1))[3] == o1.3 as int);
}

/// The text of the decimal digit `k`.
fn digit_str(k: u8) -> (r: &'static str)
    requires
        k < 10,
    ensures
        r@ == seq![digit_char(k as nat)],
{
    if k == 0 {
        proof { reveal_strlit("0"); }
        "0"
    } else if k == 1 {
        proof { reveal_strlit("1"); }
        "1"
    } else if k == 2 {
        proof { reveal_strlit("2"); }
        "2"
    } else if k == 3 {
        proof { reveal_strlit("3"); }
        "3"
    } else if k == 4 {
        proof { reveal_strlit("4"); }
        "4"
    } else if k == 5 {
        proof { reveal_strlit("5"); }
        "5"
    } else if k == 6 {
        proof { reveal_strlit("6"); }
        "6"
    } else if k == 7 {
        proof { reveal_strlit("7"); }
        "7"
    } else if k == 8 {
        proof { reveal_strlit("8"); }
        "8"
    } else {
        proof { reveal_strlit("9"); }
        "9"
    }
}

/// The value of a decimal digit character.
fn digit_value(c: char) -> (r: Option<u32>)
    ensures
        match r {
            Some(k) => digit_of(c) == Some(k as nat),
            None => digit_of(c) is None,
        },
{
    if c == '0' {
        Some(0)
    } else if c == '1' {
        Some(1)
    } else if c == '2' {
        Some(2)
    } else if c == '3' {
        Some(3)
    } else if c == '4' {
        Some(4)
    } else if c == '5' {
        Some(5)
    } else if c == '6' {
        Some(6)
    } else if c == '7' {
        Some(7)
    } else if c == '8' {
        Some(8)
    } else if c == '9' {
        Some(9)
    } else {
        None
    }
}

/// Appends the decimal text of `n` to `out`.
fn push_decimal(out: &mut String, n: u8)
    ensures
        final(out)@ == old(out)@ + dec(n as nat),
{
    let ghost m = n as nat;
    if n >= 100 {
        out.append(digit_str(n / 100));
    }
    if n >= 10 {
        out.append(digit_str((n / 10) % 10));
    }
    out.append(digit_str(n % 10));
    proof {
        if m >= 10 {
            assert(dec(m) == dec(m / 10).push(digit_char(m % 10)));
            if m >= 100 {
                assert(m / 10 >= 10);
                assert(dec(m / 10) == dec(m / 10 / 10).push(digit_char((m / 10) % 10)));
                assert(m / 10 / 10 == m / 100);
                assert(m / 100 < 10);
            } else {
                assert(m / 10 < 10);
            }
        }
        assert(final(out)@ =~= old(out)@ + dec(m));
    }
}

impl Ipv4Addr {
    pub fn new(a: u8, b: u8, c: u8, d: u8) -> (r: Ipv4Addr)
        ensures
            r@ == (a, b, c, d),
    {
        Ipv4Addr { a, b, c, d }
    }

    /// The four octets, most significant first.
    pub fn octets(&self) -> (r: (u8, u8, u8, u8))
        ensures
            r == self@,
    {
        (self.a, self.b, self.c, self.d)
    }

    /// The dotted-decimal text of the address.
    pub fn to_text(&self) -> (r: String)
        ensures
            r@ == ip_text(self@),
    {
        let mut r = String::new();
        push_decimal(&mut r, self.a);
        r.append(".");
        push_decimal(&mut r, self.b);
        r.append(".");
        push_decimal(&mut r, self.c);
        r.append(".");
        push_decimal(&mut r, self.d);
        proof {
            reveal_strlit(".");
            assert(r@ =~= ip_text(self@));
        }
        r
    }

    /// Reads the dotted-decimal text of an address: four decimal octets of at
    /// most 255, without leading zeros, separated by dots.
    pub fn parse(s: &str) -> (r: Option<Ipv4Addr>)
        ensures
            match r {
                Some(ip) => ip_text(ip@) == s@,
                None => !is_ip_text(s@),
            },
    {
        let n = s.unicode_len();
        if n > 15 {
            proof {
                if is_ip_text(s@) {
                    let o = choose|o: (u8, u8, u8, u8)| ip_text(o) == s@;
                    lemma_scan_ip_text(o);
                }
            }
            return None;
        }
        let mut parts: Vec<u32> = Vec::new();
        parts.push(0);
        let mut i: usize = 0;
        proof {
            assert(s@.subrange(0, 0) =~= Seq::<char>::empty());
        }
        while i < n
            invariant
                n == s@.len(),
                n <= 15,
                i <= n,
                parts@.len() == scan(s@.subrange(0, i as int)).len(),
                parts@.len() <= i + 1,
                forall|j: int|
                    0 <= j < parts@.len() ==> parts@[j] as int == scan(
                        s@.subrange(0, i as int),
                    )[j],
            decreases n - i,
        {
            let c = s.get_char(i);
            let ghost pre = s@.subrange(0, i as int);
            proof {
                assert(s@.subrange(0, i + 1) =~= pre.push(c));
                lemma_scan_push(pre, c);
                lemma_scan_len(pre);
            }
            if c == '.' {
                parts.push(0);
            } else {
                let last = parts.len() - 1;
                let v = parts[last];
                let nv = match digit_value(c) {
                    Some(k) => if v * 10 + k > 255 {
                        256
                    } else {
                        v * 10 + k
                    },
                    None => 256,
                };
                parts.set(last, nv);
            }
            i = i + 1;
            proof {
                assert(parts@.len() == scan(s@.subrange(0, i as int)).len());
            }
        }
        proof {
            assert(s@.subrange(0, n as int) =~= s@);
        }
        if parts.len() != 4 || parts[0] > 255 || parts[1] > 255 || parts[2] > 255 || parts[3]
            > 255 {
            proof {
                if is_ip_text(s@) {
                    let o = choose|o: (u8, u8, u8, u8)| ip_text(o) == s@;
                    lemma_scan_ip_text(o);
                }
            }
            return None;
        }
        let ip = Ipv4Addr {
            a: parts[0] as u8,
            b: parts[1] as u8,
            c: parts[2] as u8,
            d: parts[3] as u8,
        };
        let text = ip.to_text();
        if text == String::from_str(s) {
            Some(ip)
        } else {
            proof {
                if is_ip_text(s@) {
                    let o = choose|o: (u8, u8, u8, u8)| ip_text(o) == s@;
                    lemma_scan_ip_text(o);
                    assert(o == ip@);
                }
            }
            None
        }
    }
}

/// An IP address of either version.
#[derive(Debug, Clone, Copy, PartialEq, Eq)]
pub enum IpAddr {
    V4(Ipv4Addr),
    V6(Ipv6Addr),
}

/// The logical content of an [`IpAddr`].
pub enum IpAddrV {
    V4((u8, u8, u8, u8)),
    V6(Segments),
}

impl View for IpAddr {
    type V = IpAddrV;

    open spec fn view(&self) -> IpAddrV {
        match self {
            IpAddr::V4(a) => IpAddrV::V4(a@),
            IpAddr::V6(a) => IpAddrV::V6(a@),
        }
    }
}

pub open spec fn has_colon(s: Seq<char>) -> bool {
    exists|i: int| 0 <= i < s.len() && s[i] == ':'
}

/// The text of an address.
pub open spec fn addr_text(v: IpAddrV) -> Seq<char> {
    match v {
        IpAddrV::V4(o) => ip_text(o),
        IpAddrV::V6(t) => v6_text(t),
    }
}

/// The address a text holds: an IPv6 text where it has a colon, else an IPv4
/// text.
pub open spec fn addr_of(s: Seq<char>) -> Option<IpAddrV> {
    if has_colon(s) {
        match v6_of(s) {
            Some(g) => Some(IpAddrV::V6(seq_segs(g))),
            None => None,
        }
    } else if is_ip_text(s) {
        Some(IpAddrV::V4(choose|o: (u8, u8, u8, u8)| ip_text(o) == s))
    } else {
        None
    }
}

proof fn lemma_dec_digits(n: nat)
    ensures
        forall|i: int| 0 <= i < dec(n).len() ==> #[trigger] dec(n)[i] != ':',
    decreases n,
{
    if n >= 10 {
        lemma_dec_digits(n / 10);
        assert forall|i: int| 0 <= i < dec(n).len() implies #[trigger] dec(n)[i] != ':' by {
            if i < dec(n / 10).len() {
                assert(dec(n)[i] == dec(n / 10)[i]);
            }
        }
    }
}

/// Every text reads back as its address.
pub proof fn lemma_addr_round_trip(v: IpAddrV)
    ensures
        addr_of(addr_text(v)) == Some(v),
{
    match v {
        IpAddrV::V4(o) => {
            lemma_dec_digits(o.0 as nat);
            lemma_dec_digits(o.1 as nat);
            lemma_dec_digits(o.2 as nat);
            lemma_dec_digits(o.3 as nat);
            let t = ip_text(o);
            assert(!has_colon(t)) by {
                assert forall|i: int| 0 <= i < t.len() implies t[i] != ':' by {
                    let l0 = dec(o.0 as nat).len() as int;
                    let l1 = dec(o.1 as nat).len() as int;
                    let l2 = dec(o.2 as nat).len() as int;
                    if i < l0 {
                        assert(t[i] == dec(o.0 as nat)[i]);
                    } else if i == l0 {
                    } else if i < l0 + 1 + l1 {
                        assert(t[i] == dec(o.1 as nat)[i - l0 - 1]);
                    } else if i == l0 + 1 + l1 {
                    } else if i < l0 + l1 + 2 + l2 {
                        assert(t[i] == dec(o.2 as nat)[i - l0 - l1 - 2]);
                    } else if i == l0 + l1 + 2 + l2 {
                    } else {
                        assert(t[i] == dec(o.3 as nat)[i - l0 - l1 - l2 - 3]);
                    }
                }
            }
            assert(is_ip_text(t));
            let c = choose|c: (u8, u8, u8, u8)| ip_text(c) == t;
            lemma_ip_text_injective(c, o);
        },
        IpAddrV::V6(t) => {
            lemma_v6_round_trip(t);
            let g = segs_seq(t);
            let b = best_run(g, 8);
            if b.1 >= 2 {
                let h = join_hex(g.subrange(0, b.0));
                assert(v6_text(t)[h.len() as int] == ':');
            } else {
                let a = join_hex(g.drop_last());
                assert(g.len() == 8);
                assert(v6_text(t) == a + seq![':'] + hex(g.last() as nat));
                assert(v6_text(t)[a.len() as int] == ':');
            }
        },
    }
}

/// Whether a text has a colon.
fn contains_colon(s: &str) -> (r: bool)
    ensures
        r == has_colon(s@),
{
    let n = s.unicode_len();
    let mut i: usize = 0;
    while i < n
        invariant
            n == s@.len(),
            i <= n,
            forall|j: int| 0 <= j < i ==> s@[j] != ':',
        decreases n - i,
    {
        if s.get_char(i) == ':' {
            return true;
        }
        i = i + 1;
    }
    false
}

impl IpAddr {
    /// The text of the address: dotted decimal for IPv4, the canonical
    /// group form for IPv6.
    pub fn to_text(&self) -> (r: String)
        ensures
            r@ == addr_text(self@),
    {
        match self {
            IpAddr::V4(a) => a.to_text(),
            IpAddr::V6(a) => a.to_text(),
        }
    }

    /// Reads an address: an IPv6 text where the text has a colon, else an
    /// IPv4 text.
    pub fn parse(s: &str) -> (r: Option<IpAddr>)
        ensures
            match r {
                Some(a) => addr_of(s@) == Some(a@),
                None => addr_of(s@) is None,
            },
    {
        if contains_colon(s) {
            match Ipv6Addr::parse(s) {
                Some(a) => {
                    proof {
                        lemma_v6_round_trip(a@);
                    }
                    Some(IpAddr::V6(a))
                },
                None => None,
            }
        } else {
            match Ipv4Addr::parse(s) {
                Some(a) => {
                    proof {
                        let c = choose|c: (u8, u8, u8, u8)| ip_text(c) == s@;
                        lemma_ip_text_injective(c, a@);
                    }
                    Some(IpAddr::V4(a))
                },
                None => None,
            }
        }
    }
}

} // verus!
