//! IPv6 addresses in text: eight colon-separated groups of one to four hex
//! digits, where one `::` may stand for one or more zero groups.
use vstd::prelude::*;
use vstd::string::*;
use crate::ip::{digit_char, digit_of};

verus! {

/// The value of a hex digit, in either case.
pub open spec fn hex_of(c: char) -> Option<nat> {
    match digit_of(c) {
        Some(k) => Some(k),
        None => if c == 'a' || c == 'A' {
            Some(10)
        } else if c == 'b' || c == 'B' {
            Some(11)
        } else if c == 'c' || c == 'C' {
            Some(12)
        } else if c == 'd' || c == 'D' {
            Some(13)
        } else if c == 'e' || c == 'E' {
            Some(14)
        } else if c == 'f' || c == 'F' {
            Some(15)
        } else {
            None
        },
    }
}

/// The lower-case hex digit `k` (for `k < 16`).
pub open spec fn hex_char(k: nat) -> char {
    if k < 10 {
        digit_char(k)
    } else if k == 10 {
        'a'
    } else if k == 11 {
        'b'
    } else if k == 12 {
        'c'
    } else if k == 13 {
        'd'
    } else if k == 14 {
        'e'
    } else {
        'f'
    }
}

/// The lower-case hex text of `n`, without leading zeros.
pub open spec fn hex(n: nat) -> Seq<char>
    decreases n,
{
    if n < 16 {
        seq![hex_char(n)]
    } else {
        hex(n / 16).push(hex_char(n % 16))
    }
}

/// The colon-separated pieces of `s`, each as (digit count, value of its
/// first four digits, whether all its characters are hex digits).
pub open spec fn scan6(s: Seq<char>) -> Seq<(int, int, bool)>
    decreases s.len(),
{
    if s.len() == 0 {
        seq![(0int, 0int, true)]
    } else {
        let p = scan6(s.drop_last());
        let l = p.last();
        if s.last() == ':' {
            p.push((0, 0, true))
        } else {
            match hex_of(s.last()) {
                Some(k) => p.update(
                    p.len() - 1,
                    (l.0 + 1, if l.0 < 4 {
                        l.1 * 16 + k
                    } else {
                        l.1
                    }, l.2),
                ),
                None => p.update(p.len() - 1, (l.0 + 1, l.1, false)),
            }
        }
    }
}

/// A piece is a group: one to four hex digits.
pub open spec fn good(p: (int, int, bool)) -> bool {
    p.2 && 1 <= p.0 <= 4
}

/// The values of a colon-separated list of groups.
pub open spec fn groups_of(t: Seq<char>) -> Option<Seq<int>> {
    let ps = scan6(t);
    if forall|i: int| 0 <= i < ps.len() ==> good(#[trigger] ps[i]) {
        Some(ps.map_values(|p: (int, int, bool)| p.1))
    } else {
        None
    }
}

/// As `groups_of`, where the empty text is the empty list.
pub open spec fn groups_opt(t: Seq<char>) -> Option<Seq<int>> {
    if t.len() == 0 {
        Some(Seq::empty())
    } else {
        groups_of(t)
    }
}

/// `s` holds `::` at `i`.
pub open spec fn dc_at(s: Seq<char>, i: int) -> bool {
    0 <= i && i + 1 < s.len() && s[i] == ':' && s[i + 1] == ':'
}

/// `i` is the first place of `::` in `s`.
pub open spec fn first_dc(s: Seq<char>, i: int) -> bool {
    dc_at(s, i) && forall|j: int| 0 <= j < i ==> !dc_at(s, j)
}

/// The eight groups of an IPv6 text: eight groups, or groups before and after
/// one `::` that stands for as many zero groups as make eight (at least one).
pub open spec fn v6_of(s: Seq<char>) -> Option<Seq<int>> {
    if exists|i: int| first_dc(s, i) {
        let i = choose|i: int| first_dc(s, i);
        match (groups_opt(s.subrange(0, i)), groups_opt(s.subrange(i + 2, s.len() as int))) {
            (Some(h), Some(t)) => if h.len() + t.len() <= 7 {
                Some(h + Seq::new((8 - h.len() - t.len()) as nat, |k: int| 0int) + t)
            } else {
                None
            },
            _ => None,
        }
    } else {
        match groups_of(s) {
            Some(g) => if g.len() == 8 {
                Some(g)
            } else {
                None
            },
            None => None,
        }
    }
}

/// The text of groups, lower-case and without leading zeros, joined by `:`.
pub open spec fn join_hex(g: Seq<int>) -> Seq<char>
    decreases g.len(),
{
    if g.len() <= 1 {
        if g.len() == 1 {
            hex(g[0] as nat)
        } else {
            Seq::empty()
        }
    } else {
        join_hex(g.drop_last()) + seq![':'] + hex(g.last() as nat)
    }
}

proof fn lemma_scan6_push(s: Seq<char>, c: char)
    ensures
        scan6(s.push(c)) == ({
            let p = scan6(s);
            let l = p.last();
            if c == ':' {
                p.push((0, 0, true))
            } else {
                match hex_of(c) {
                    Some(k) => p.update(
                        p.len() - 1,
                        (l.0 + 1, if l.0 < 4 {
                            l.1 * 16 + k
                        } else {
                            l.1
                        }, l.2),
                    ),
                    None => p.update(p.len() - 1, (l.0 + 1, l.1, false)),
                }
            }
        }),
{
    assert(s.push(c).drop_last() =~= s);
}

proof fn lemma_scan6_len(s: Seq<char>)
    ensures
        scan6(s).len() >= 1,
    decreases s.len(),
{
    if s.len() > 0 {
        lemma_scan6_len(s.drop_last());
    }
}

proof fn lemma_hex_char(k: nat)
    requires
        k < 16,
    ensures
        hex_of(hex_char(k)) == Some(k),
        hex_char(k) != ':',
{
}

proof fn lemma_hex_len(n: nat)
    requires
        n < 65536,
    ensures
        1 <= hex(n).len() <= 4,
        n < 4096 ==> hex(n).len() <= 3,
        n < 256 ==> hex(n).len() <= 2,
        n < 16 ==> hex(n).len() == 1,
    decreases n,
{
    if n >= 16 {
        lemma_hex_len(n / 16);
    }
}

/// Scanning the hex digits of `n` after a fresh piece makes that piece `n`.
proof fn lemma_scan_hex(p: Seq<char>, n: nat)
    requires
        n < 65536,
        scan6(p).len() >= 1,
        scan6(p).last() == (0int, 0int, true),
    ensures
        scan6(p + hex(n)) == scan6(p).update(
            scan6(p).len() - 1,
            (hex(n).len() as int, n as int, true),
        ),
    decreases n,
{
    lemma_hex_char(n % 16);
    if n < 16 {
        assert(p + hex(n) =~= p.push(hex_char(n)));
        lemma_scan6_push(p, hex_char(n));
    } else {
        lemma_scan_hex(p, n / 16);
        lemma_hex_len(n / 16);
        assert(p + hex(n) =~= (p + hex(n / 16)).push(hex_char(n % 16)));
        lemma_scan6_push(p + hex(n / 16), hex_char(n % 16));
        let q = scan6(p).update(scan6(p).len() - 1, (hex(n / 16).len() as int, (n / 16) as int, true));
        assert(q.update(q.len() - 1, (hex(n).len() as int, n as int, true)) =~= scan6(p).update(
            scan6(p).len() - 1,
            (hex(n).len() as int, n as int, true),
        ));
    }
}

/// The pieces of joined groups are the groups.
pub proof fn lemma_scan_join(g: Seq<int>)
    requires
        g.len() >= 1,
        forall|i: int| 0 <= i < g.len() ==> 0 <= #[trigger] g[i] < 65536,
    ensures
        scan6(join_hex(g)) =~= g.map_values(|x: int| (hex(x as nat).len() as int, x, true)),
    decreases g.len(),
{
    let e: Seq<char> = Seq::empty();
    if g.len() == 1 {
        assert(scan6(e) == seq![(0int, 0int, true)]);
        lemma_scan_hex(e, g[0] as nat);
        assert(e + hex(g[0] as nat) =~= hex(g[0] as nat));
    } else {
        let h = g.drop_last();
        lemma_scan_join(h);
        let a = join_hex(h);
        lemma_scan6_push(a, ':');
        assert(a + seq![':'] =~= a.push(':'));
        lemma_scan6_len(a);
        lemma_scan_hex(a.push(':'), g.last() as nat);
    }
}

proof fn lemma_hex_no_colon(n: nat)
    ensures
        forall|i: int| 0 <= i < hex(n).len() ==> #[trigger] hex(n)[i] != ':',
        hex(n).len() >= 1,
    decreases n,
{
    lemma_hex_char(n % 16);
    if n >= 16 {
        lemma_hex_no_colon(n / 16);
        assert forall|i: int| 0 <= i < hex(n).len() implies #[trigger] hex(n)[i] != ':' by {
            if i < hex(n / 16).len() {
                assert(hex(n)[i] == hex(n / 16)[i]);
            }
        }
    } else {
        lemma_hex_char(n);
    }
}

/// Joined groups hold no `::` and do not end in `:`.
pub proof fn lemma_join_no_dc(g: Seq<int>)
    requires
        forall|i: int| 0 <= i < g.len() ==> 0 <= #[trigger] g[i],
    ensures
        forall|i: int| !dc_at(join_hex(g), i),
        g.len() >= 1 ==> join_hex(g).len() >= 1 && join_hex(g).last() != ':',
    decreases g.len(),
{
    if g.len() == 1 {
        lemma_hex_no_colon(g[0] as nat);
    } else if g.len() > 1 {
        let h = g.drop_last();
        lemma_join_no_dc(h);
        let a = join_hex(h);
        let x = hex(g.last() as nat);
        lemma_hex_no_colon(g.last() as nat);
        let j = join_hex(g);
        assert(j == a + seq![':'] + x);
        assert forall|i: int| !dc_at(j, i) by {
            if dc_at(j, i) {
                if i + 1 < a.len() {
                    assert(j[i] == a[i] && j[i + 1] == a[i + 1]);
                    assert(dc_at(a, i));
                } else if i + 1 == a.len() {
                    assert(j[i] == a.last());
                } else if i == a.len() {
                    assert(j[i + 1] == x[0]);
                } else {
                    assert(j[i] == x[i - a.len() - 1]);
                }
            }
        }
        assert(j.last() == x.last());
    }
}

/// Joined groups read back as the groups.
proof fn lemma_groups_join(g: Seq<int>)
    requires
        forall|i: int| 0 <= i < g.len() ==> 0 <= #[trigger] g[i] < 65536,
    ensures
        groups_opt(join_hex(g)) == Some(g),
{
    if g.len() >= 1 {
        lemma_scan_join(g);
        lemma_join_no_dc(g);
        let ps = scan6(join_hex(g));
        assert forall|i: int| 0 <= i < ps.len() implies good(#[trigger] ps[i]) by {
            lemma_hex_len(g[i] as nat);
        }
        assert(ps.map_values(|p: (int, int, bool)| p.1) =~= g);
    } else {
        assert(join_hex(g).len() == 0);
        assert(g =~= Seq::<int>::empty());
    }
}

/// Groups before and after `::` read back as the groups with the zeros
/// between them.
proof fn lemma_v6_of_compressed(g: Seq<int>, i: int, l: int)
    requires
        g.len() == 8,
        forall|k: int| 0 <= k < g.len() ==> 0 <= #[trigger] g[k] < 65536,
        l >= 2,
        0 <= i,
        i + l <= 8,
        forall|k: int| i <= k < i + l ==> #[trigger] g[k] == 0,
    ensures
        v6_of(join_hex(g.subrange(0, i)) + seq![':', ':'] + join_hex(g.subrange(i + l, 8)))
            == Some(g),
{
    let h = g.subrange(0, i);
    let t = g.subrange(i + l, 8);
    let hs = join_hex(h);
    let ts = join_hex(t);
    let c = hs + seq![':', ':'] + ts;
    lemma_join_no_dc(h);
    lemma_groups_join(h);
    lemma_groups_join(t);
    let p = hs.len() as int;
    assert(c[p] == ':' && c[p + 1] == ':');
    assert forall|j: int| 0 <= j < p implies !dc_at(c, j) by {
        if j + 1 < p {
            assert(c[j] == hs[j] && c[j + 1] == hs[j + 1]);
            assert(!dc_at(hs, j));
        } else {
            assert(c[j] == hs.last());
        }
    }
    assert(first_dc(c, p));
    let k = choose|k: int| first_dc(c, k);
    assert(first_dc(c, k));
    assert(k == p) by {
        if k < p {
            assert(!dc_at(c, k));
        } else if k > p {
            assert(!dc_at(c, p));
        }
    }
    assert(c.subrange(0, p) =~= hs);
    assert(c.subrange(p + 2, c.len() as int) =~= ts);
    assert(h + Seq::new((8 - h.len() - t.len()) as nat, |k: int| 0int) + t =~= g);
}

/// Eight groups joined by `:` read back as those groups.
pub proof fn lemma_v6_of_join(g: Seq<int>)
    requires
        g.len() == 8,
        forall|i: int| 0 <= i < g.len() ==> 0 <= #[trigger] g[i] < 65536,
    ensures
        v6_of(join_hex(g)) == Some(g),
{
    lemma_scan_join(g);
    lemma_join_no_dc(g);
    let ps = scan6(join_hex(g));
    assert forall|i: int| 0 <= i < ps.len() implies good(#[trigger] ps[i]) by {
        lemma_hex_len(g[i] as nat);
    }
    assert(ps.map_values(|p: (int, int, bool)| p.1) =~= g);
}

/// The text of the hex digit `k`.
fn hex_str(k: u16) -> (r: &'static str)
    requires
        k < 16,
    ensures
        r@ == seq![hex_char(k as nat)],
{
    if k == 0 {
        proof { reveal_strlit("0"); }
        "0"
    } else if k == 1 {
        proof { reveal_strlit("1"); }
        "1"
    } else if k == 2 {
        proof { reveal_strlit("2"); }
        "2"
    } else if k == 3 {
        proof { reveal_strlit("3"); }
        "3"
    } else if k == 4 {
        proof { reveal_strlit("4"); }
        "4"
    } else if k == 5 {
        proof { reveal_strlit("5"); }
        "5"
    } else if k == 6 {
        proof { reveal_strlit("6"); }
        "6"
    } else if k == 7 {
        proof { reveal_strlit("7"); }
        "7"
    } else if k == 8 {
        proof { reveal_strlit("8"); }
        "8"
    } else if k == 9 {
        proof { reveal_strlit("9"); }
        "9"
    } else if k == 10 {
        proof { reveal_strlit("a"); }
        "a"
    } else if k == 11 {
        proof { reveal_strlit("b"); }
        "b"
    } else if k == 12 {
        proof { reveal_strlit("c"); }
        "c"
    } else if k == 13 {
        proof { reveal_strlit("d"); }
        "d"
    } else if k == 14 {
        proof { reveal_strlit("e"); }
        "e"
    } else {
        proof { reveal_strlit("f"); }
        "f"
    }
}

/// The value of a hex digit character.
fn hex_value(c: char) -> (r: Option<u32>)
    ensures
        match r {
            Some(k) => hex_of(c) == Some(k as nat) && k < 16,
            None => hex_of(c) is None,
        },
{
    if c == '0' {
        Some(0)
    } else if c == '1' {
        Some(1)
    } else if c == '2' {
        Some(2)
    } else if c == '3' {
        Some(3)
    } else if c == '4' {
        Some(4)
    } else if c == '5' {
        Some(5)
    } else if c == '6' {
        Some(6)
    } else if c == '7' {
        Some(7)
    } else if c == '8' {
        Some(8)
    } else if c == '9' {
        Some(9)
    } else if c == 'a' || c == 'A' {
        Some(10)
    } else if c == 'b' || c == 'B' {
        Some(11)
    } else if c == 'c' || c == 'C' {
        Some(12)
    } else if c == 'd' || c == 'D' {
        Some(13)
    } else if c == 'e' || c == 'E' {
        Some(14)
    } else if c == 'f' || c == 'F' {
        Some(15)
    } else {
        None
    }
}

/// Appends the hex text of `n` to `out`.
fn push_hex(out: &mut String, n: u16)
    ensures
        final(out)@ == old(out)@ + hex(n as nat),
{
    let ghost m = n as nat;
    if n >= 4096 {
        out.append(hex_str(n / 4096));
    }
    if n >= 256 {
        out.append(hex_str((n / 256) % 16));
    }
    if n >= 16 {
        out.append(hex_str((n / 16) % 16));
    }
    out.append(hex_str(n % 16));
    proof {
        if m >= 16 {
            assert(hex(m) == hex(m / 16).push(hex_char(m % 16)));
            if m >= 256 {
                assert(m / 16 / 16 == m / 256);
                assert(hex(m / 16) == hex(m / 256).push(hex_char((m / 16) % 16)));
                assert((m / 16) % 16 == (m / 16) % 16);
                if m >= 4096 {
                    assert(m / 256 / 16 == m / 4096);
                    assert(hex(m / 256) == hex(m / 4096).push(hex_char((m / 256) % 16)));
                    assert(m / 4096 < 16);
                } else {
                    assert(m / 256 < 16);
                }
            } else {
                assert(m / 16 < 16);
            }
        }
        assert(final(out)@ =~= old(out)@ + hex(m));
    }
}

/// The text of the groups `g[lo..hi]`: lower-case hex without leading zeros,
/// joined by `:`.
fn join_range(g: &[u16; 8], lo: usize, hi: usize) -> (r: String)
    requires
        lo <= hi <= 8,
    ensures
        r@ == join_hex(g@.map_values(|x: u16| x as int).subrange(lo as int, hi as int)),
{
    let ghost gi = g@.map_values(|x: u16| x as int);
    let mut r = String::new();
    if lo == hi {
        proof {
            assert(gi.subrange(lo as int, hi as int).len() == 0);
        }
        return r;
    }
    push_hex(&mut r, g[lo]);
    proof {
        assert(gi.subrange(lo as int, lo + 1).len() == 1);
        assert(r@ =~= join_hex(gi.subrange(lo as int, lo + 1)));
    }
    let mut i: usize = lo + 1;
    while i < hi
        invariant
            lo < i <= hi <= 8,
            gi == g@.map_values(|x: u16| x as int),
            r@ == join_hex(gi.subrange(lo as int, i as int)),
        decreases hi - i,
    {
        r.append(":");
        push_hex(&mut r, g[i]);
        proof {
            reveal_strlit(":");
            let h = gi.subrange(lo as int, i + 1);
            assert(h.drop_last() =~= gi.subrange(lo as int, i as int));
            assert(r@ =~= join_hex(h));
        }
        i = i + 1;
    }
    r
}

/// The number of zero groups from `i` on.
fn zero_run(g: &[u16; 8], i: usize) -> (r: usize)
    requires
        i <= 8,
    ensures
        r == zrun(g@.map_values(|x: u16| x as int), i as int),
{
    let ghost gi = g@.map_values(|x: u16| x as int);
    let mut j: usize = i;
    while j < 8 && g[j] == 0
        invariant
            i <= j <= 8,
            gi == g@.map_values(|x: u16| x as int),
            zrun(gi, i as int) == (j - i) + zrun(gi, j as int),
        decreases 8 - j,
    {
        j = j + 1;
    }
    j - i
}

/// Reads the groups of `s[lo..hi]`: `None` where a piece is not one to four
/// hex digits; the empty text has no groups.
fn scan_groups(s: &str, lo: usize, hi: usize) -> (r: Option<Vec<u16>>)
    requires
        lo <= hi <= s@.len(),
    ensures
        match r {
            Some(v) => groups_opt(s@.subrange(lo as int, hi as int)) == Some(
                v@.map_values(|x: u16| x as int),
            ),
            None => groups_opt(s@.subrange(lo as int, hi as int)) is None,
        },
{
    if lo == hi {
        let v: Vec<u16> = Vec::new();
        proof {
            assert(v@.map_values(|x: u16| x as int) =~= Seq::<int>::empty());
        }
        return Some(v);
    }
    let mut done: Vec<u16> = Vec::new();
    let mut all_good = true;
    let mut cur_ok = true;
    let mut cur_len: usize = 0;
    let mut cur_val: u32 = 0;
    let mut i: usize = lo;
    proof {
        assert(s@.subrange(lo as int, lo as int) =~= Seq::<char>::empty());
    }
    while i < hi
        invariant
            lo <= i <= hi <= s@.len(),
            cur_len <= i - lo,
            cur_len == 0 ==> cur_val == 0,
            cur_len <= 1 ==> cur_val < 16,
            cur_len <= 2 ==> cur_val < 256,
            cur_len <= 3 ==> cur_val < 4096,
            cur_val < 65536,
            done@.len() <= i - lo,
            scan6(s@.subrange(lo as int, i as int)).len() == done@.len() + 1,
            scan6(s@.subrange(lo as int, i as int)).last() == (
                cur_len as int,
                cur_val as int,
                cur_ok,
            ),
            forall|j: int|
                0 <= j < done@.len() ==> #[trigger] scan6(s@.subrange(lo as int, i as int))[j].1
                    == done@[j] as int,
            all_good == (forall|j: int|
                0 <= j < done@.len() ==> good(
                    #[trigger] scan6(s@.subrange(lo as int, i as int))[j],
                )),
        decreases hi - i,
    {
        let c = s.get_char(i);
        let ghost pre = s@.subrange(lo as int, i as int);
        let ghost ps = scan6(pre);
        let ghost n0 = done@.len();
        proof {
            assert(s@.subrange(lo as int, i + 1) =~= pre.push(c));
            lemma_scan6_push(pre, c);
        }
        if c == ':' {
            all_good = all_good && cur_ok && cur_len >= 1 && cur_len <= 4;
            done.push(cur_val as u16);
            cur_len = 0;
            cur_val = 0;
            cur_ok = true;
            proof {
                let ps2 = scan6(s@.subrange(lo as int, i + 1));
                assert(ps2 == ps.push((0int, 0int, true)));
                assert(ps2[n0 as int] == ps.last());
                assert forall|j: int| 0 <= j < done@.len() implies #[trigger] ps2[j].1
                    == done@[j] as int by {
                    if j < n0 {
                        assert(ps2[j] == ps[j]);
                    }
                }
                assert(all_good == (forall|j: int|
                    0 <= j < done@.len() ==> good(#[trigger] ps2[j]))) by {
                    assert forall|j: int| 0 <= j < n0 implies ps2[j] == ps[j] by {}
                }
            }
        } else {
            match hex_value(c) {
                Some(k) => {
                    if cur_len < 4 {
                        cur_val = cur_val * 16 + k;
                    }
                    cur_len = cur_len + 1;
                },
                None => {
                    cur_ok = false;
                    cur_len = cur_len + 1;
                },
            }
            proof {
                let ps2 = scan6(s@.subrange(lo as int, i + 1));
                assert forall|j: int| 0 <= j < n0 implies ps2[j] == ps[j] by {}
            }
        }
        i = i + 1;
    }
    if all_good && cur_ok && cur_len >= 1 && cur_len <= 4 {
        let ghost ps = scan6(s@.subrange(lo as int, hi as int));
        let ghost n0 = done@.len();
        done.push(cur_val as u16);
        proof {
            assert forall|j: int| 0 <= j < ps.len() implies good(#[trigger] ps[j]) by {
                if j < n0 {
                }
            }
            assert(ps.map_values(|p: (int, int, bool)| p.1) =~= done@.map_values(
                |x: u16| x as int,
            ));
        }
        Some(done)
    } else {
        proof {
            let ps = scan6(s@.subrange(lo as int, hi as int));
            if !all_good {
                let j = choose|j: int| 0 <= j < done@.len() && !good(#[trigger] ps[j]);
                assert(!good(ps[j]));
            } else {
                assert(!good(ps[ps.len() - 1]));
            }
        }
        None
    }
}

/// The eight groups of an address, most significant first.
pub type Segments = (u16, u16, u16, u16, u16, u16, u16, u16);

pub open spec fn segs_seq(t: Segments) -> Seq<int> {
    seq![
        t.0 as int,
        t.1 as int,
        t.2 as int,
        t.3 as int,
        t.4 as int,
        t.5 as int,
        t.6 as int,
        t.7 as int,
    ]
}

pub open spec fn seq_segs(g: Seq<int>) -> Segments {
    (
        g[0] as u16,
        g[1] as u16,
        g[2] as u16,
        g[3] as u16,
        g[4] as u16,
        g[5] as u16,
        g[6] as u16,
        g[7] as u16,
    )
}

/// The number of consecutive zero groups from `i` on.
pub open spec fn zrun(g: Seq<int>, i: int) -> int
    decreases g.len() - i,
{
    if 0 <= i < g.len() && g[i] == 0 {
        1 + zrun(g, i + 1)
    } else {
        0
    }
}

/// The first of the longest runs of zero groups that start before `k`, as
/// (start, length).
pub open spec fn best_run(g: Seq<int>, k: int) -> (int, int)
    decreases k,
{
    if k <= 0 {
        (0, 0)
    } else {
        let b = best_run(g, k - 1);
        if zrun(g, k - 1) > b.1 {
            (k - 1, zrun(g, k - 1))
        } else {
            b
        }
    }
}

/// The canonical text of an address: lower-case hex groups without leading
/// zeros, joined by `:`, where the first longest run of two or more zero
/// groups is written `::`.
pub open spec fn v6_text(t: Segments) -> Seq<char> {
    let g = segs_seq(t);
    let b = best_run(g, 8);
    if b.1 >= 2 {
        join_hex(g.subrange(0, b.0)) + seq![':', ':'] + join_hex(g.subrange(b.0 + b.1, 8))
    } else {
        join_hex(g)
    }
}

proof fn lemma_zrun(g: Seq<int>, i: int)
    requires
        0 <= i <= g.len(),
    ensures
        0 <= zrun(g, i) <= g.len() - i,
        forall|k: int| i <= k < i + zrun(g, i) ==> #[trigger] g[k] == 0,
    decreases g.len() - i,
{
    if i < g.len() && g[i] == 0 {
        lemma_zrun(g, i + 1);
    }
}

proof fn lemma_best_run(g: Seq<int>, k: int)
    requires
        0 <= k <= g.len(),
    ensures
        best_run(g, k).1 >= 0,
        best_run(g, k).1 > 0 ==> 0 <= best_run(g, k).0 < k && best_run(g, k).1 == zrun(
            g,
            best_run(g, k).0,
        ),
    decreases k,
{
    if k > 0 {
        lemma_best_run(g, k - 1);
        lemma_zrun(g, k - 1);
    }
}

/// An IPv6 address.
#[derive(Debug, Clone, Copy, PartialEq, Eq)]
pub struct Ipv6Addr {
    segments: [u16; 8],
}

impl View for Ipv6Addr {
    type V = Segments;

    closed spec fn view(&self) -> Segments {
        (
            self.segments@[0],
            self.segments@[1],
            self.segments@[2],
            self.segments@[3],
            self.segments@[4],
            self.segments@[5],
            self.segments@[6],
            self.segments@[7],
        )
    }
}

/// The text of an address reads back as that address.
pub proof fn lemma_v6_round_trip(t: Segments)
    ensures
        v6_of(v6_text(t)) == Some(segs_seq(t)),
        seq_segs(segs_seq(t)) == t,
{
    let g = segs_seq(t);
    let b = best_run(g, 8);
    lemma_best_run(g, 8);
    if b.1 >= 2 {
        lemma_zrun(g, b.0);
        lemma_v6_of_compressed(g, b.0, b.1);
    } else {
        lemma_v6_of_join(g);
    }
}

impl Ipv6Addr {
    pub fn new(segments: [u16; 8]) -> (r: Ipv6Addr)
        ensures
            segs_seq(r@) == segments@.map_values(|x: u16| x as int),
    {
        let r = Ipv6Addr { segments };
        assert(segs_seq(r@) =~= segments@.map_values(|x: u16| x as int));
        r
    }

    /// The eight groups, most significant first.
    pub fn segments(&self) -> (r: [u16; 8])
        ensures
            r@.map_values(|x: u16| x as int) == segs_seq(self@),
    {
        assert(self.segments@.map_values(|x: u16| x as int) =~= segs_seq(self@));
        self.segments
    }

    /// The canonical text of the address.
    pub fn to_text(&self) -> (r: String)
        ensures
            r@ == v6_text(self@),
    {
        let ghost g = segs_seq(self@);
        proof {
            assert(self.segments@.map_values(|x: u16| x as int) =~= g);
        }
        let mut best_start: usize = 0;
        let mut best_len: usize = 0;
        let mut k: usize = 0;
        while k < 8
            invariant
                k <= 8,
                g == self.segments@.map_values(|x: u16| x as int),
                g.len() == 8,
                (best_start as int, best_len as int) == best_run(g, k as int),
                best_len <= 8,
            decreases 8 - k,
        {
            let z = zero_run(&self.segments, k);
            proof {
                lemma_zrun(g, k as int);
            }
            if z > best_len {
                best_start = k;
                best_len = z;
            }
            k = k + 1;
        }
        proof {
            lemma_best_run(g, 8);
            if best_len > 0 {
                lemma_zrun(g, best_start as int);
            }
        }
        if best_len >= 2 {
            let mut r = join_range(&self.segments, 0, best_start);
            r.append("::");
            let tail = join_range(&self.segments, best_start + best_len, 8);
            r.append(tail.as_str());
            proof {
                reveal_strlit("::");
                assert(r@ =~= v6_text(self@));
            }
            r
        } else {
            proof {
                assert(g.subrange(0, 8) =~= g);
            }
            join_range(&self.segments, 0, 8)
        }
    }

    /// Reads the text of an address: eight groups of one to four hex digits
    /// in either case, joined by `:`, where one `::` may stand for one or
    /// more zero groups.
    pub fn parse(s: &str) -> (r: Option<Ipv6Addr>)
        ensures
            match r {
                Some(a) => v6_of(s@) == Some(segs_seq(a@)),
                None => v6_of(s@) is None,
            },
    {
        let n = s.unicode_len();
        let mut j: usize = 0;
        let mut i: usize = n;
        while j < n
            invariant
                n == s@.len(),
                j <= n,
                i <= n,
                i == n ==> forall|k: int| 0 <= k < j ==> !dc_at(s@, k),
                i < n ==> first_dc(s@, i as int),
            decreases n - j,
        {
            if i == n && j + 1 < n && s.get_char(j) == ':' && s.get_char(j + 1) == ':' {
                i = j;
            }
            j = j + 1;
        }
        if i == n {
            proof {
                assert forall|k: int| !first_dc(s@, k) by {
                    if 0 <= k < n {
                        assert(!dc_at(s@, k));
                    }
                }
                assert(s@.subrange(0, n as int) =~= s@);
            }
            if let Some(v) = scan_groups(s, 0, n) {
                if v.len() == 8 {
                    let a = Ipv6Addr { segments: [v[0], v[1], v[2], v[3], v[4], v[5], v[6], v[7]] };
                    proof {
                        assert(segs_seq(a@) =~= v@.map_values(|x: u16| x as int));
                    }
                    return Some(a);
                }
            }
            return None;
        }
        proof {
            assert(first_dc(s@, i as int));
            let k = choose|k: int| first_dc(s@, k);
            assert(first_dc(s@, k));
            assert(k == i) by {
                if k < i {
                    assert(!dc_at(s@, k));
                } else if k > i {
                    assert(!dc_at(s@, i as int));
                }
            }
        }
        let head = scan_groups(s, 0, i);
        let tail = scan_groups(s, i + 2, n);
        match (head, tail) {
            (Some(h), Some(t)) => {
                if h.len() > 7 || t.len() > 7 || h.len() + t.len() > 7 {
                    return None;
                }
                let ghost hv = h@.map_values(|x: u16| x as int);
                let ghost tv = t@.map_values(|x: u16| x as int);
                let ghost z = 8 - h.len() - t.len();
                let ghost want = hv + Seq::new(z as nat, |k: int| 0int) + tv;
                let mut v: Vec<u16> = Vec::new();
                let mut k: usize = 0;
                while k < 8
                    invariant
                        k <= 8,
                        v@.len() == k,
                        want.len() == 8,
                        hv == h@.map_values(|x: u16| x as int),
                        tv == t@.map_values(|x: u16| x as int),
                        z == 8 - h.len() - t.len(),
                        h.len() + t.len() <= 7,
                        want == hv + Seq::new(z as nat, |k: int| 0int) + tv,
                        forall|j: int| 0 <= j < k ==> v@[j] as int == #[trigger] want[j],
                    decreases 8 - k,
                {
                    let x: u16 = if k < h.len() {
                        h[k]
                    } else if k < 8 - t.len() {
                        0
                    } else {
                        t[k - (8 - t.len())]
                    };
                    v.push(x);
                    k = k + 1;
                }
                let a = Ipv6Addr { segments: [v[0], v[1], v[2], v[3], v[4], v[5], v[6], v[7]] };
                proof {
                    assert(segs_seq(a@) =~= want);
                }
                Some(a)
            },
            _ => None,
        }
    }
}

} // verus!
