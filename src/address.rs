//! IP addresses and their textual form.
//!
//! An IPv4 literal is four decimal octets separated by dots, each of one to
//! three digits, without a leading zero, at most 255. An IPv6 literal is
//! colon-separated groups of one to four hex digits, either eight groups, or
//! fewer around a single `::` that stands for one or more zero groups; its last
//! piece may be an IPv4 literal, which fills two groups.
use vstd::prelude::*;
use crate::error::RealIpError;
use crate::text::split_on;

verus! {

/// An IPv4 address, by its four octets in network order.
#[derive(Clone, Copy, Debug, PartialEq, Eq, Structural, Hash)]
pub struct Ipv4Addr {
    pub a: u8,
    pub b: u8,
    pub c: u8,
    pub d: u8,
}

/// An IPv6 address, by its eight 16-bit groups in network order.
#[derive(Clone, Copy, Debug, PartialEq, Eq, Structural, Hash)]
pub struct Ipv6Addr {
    pub s0: u16,
    pub s1: u16,
    pub s2: u16,
    pub s3: u16,
    pub s4: u16,
    pub s5: u16,
    pub s6: u16,
    pub s7: u16,
}

/// An IPv4 or IPv6 address.
#[derive(Clone, Copy, Debug, PartialEq, Eq, Structural, Hash)]
pub enum IpAddr {
    V4(Ipv4Addr),
    V6(Ipv6Addr),
}

pub open spec fn is_dec_digit(c: char) -> bool {
    48 <= (c as u32) && (c as u32) <= 57
}

pub open spec fn is_hex_digit(c: char) -> bool {
    is_dec_digit(c) || (97 <= (c as u32) && (c as u32) <= 102) || (65 <= (c as u32) && (c as u32)
        <= 70)
}

/// The value of a decimal or hex digit.
pub open spec fn digit_value(c: char) -> nat {
    let u = c as u32;
    if 48 <= u && u <= 57 {
        (u - 48) as nat
    } else if 97 <= u && u <= 102 {
        (u - 87) as nat
    } else if 65 <= u && u <= 70 {
        (u - 55) as nat
    } else {
        0
    }
}

/// The number that the digits `s` write in `base`.
pub open spec fn number_value(s: Seq<char>, base: nat) -> nat
    decreases s.len(),
{
    if s.len() == 0 {
        0
    } else {
        number_value(s.drop_last(), base) * base + digit_value(s.last())
    }
}

/// One to three decimal digits, no leading zero, at most 255.
pub open spec fn is_octet_text(s: Seq<char>) -> bool {
    &&& 1 <= s.len() <= 3
    &&& forall|i: int| 0 <= i < s.len() ==> is_dec_digit(#[trigger] s[i])
    &&& (s.len() == 1 || s[0] != '0')
    &&& number_value(s, 10) <= 255
}

/// One to four hex digits.
pub open spec fn is_group_text(s: Seq<char>) -> bool {
    &&& 1 <= s.len() <= 4
    &&& forall|i: int| 0 <= i < s.len() ==> is_hex_digit(#[trigger] s[i])
}

/// The octets of an IPv4 literal, or `None` if `s` is not one.
pub open spec fn v4_octets(s: Seq<char>) -> Option<Seq<u8>> {
    let p = split_on(s, '.');
    if p.len() == 4 && forall|i: int| 0 <= i < 4 ==> is_octet_text(#[trigger] p[i]) {
        Some(Seq::new(4, |i: int| number_value(p[i], 10) as u8))
    } else {
        None
    }
}

/// The groups that one colon-separated piece of an IPv6 literal stands for;
/// an IPv4 literal is accepted only where `last` holds.
pub open spec fn piece_groups(p: Seq<char>, last: bool) -> Option<Seq<u16>> {
    if is_group_text(p) {
        Some(seq![number_value(p, 16) as u16])
    } else if last && v4_octets(p) is Some {
        let o = v4_octets(p)->0;
        Some(seq![(o[0] * 256 + o[1]) as u16, (o[2] * 256 + o[3]) as u16])
    } else {
        None
    }
}

/// The groups of a list of pieces; only the last may be an IPv4 literal, and
/// only where `allow_v4` holds.
pub open spec fn groups_of(ps: Seq<Seq<char>>, allow_v4: bool) -> Option<Seq<u16>>
    decreases ps.len(),
{
    if ps.len() == 0 {
        Some(Seq::empty())
    } else {
        match (groups_of(ps.drop_last(), false), piece_groups(ps.last(), allow_v4)) {
            (Some(a), Some(b)) => Some(a + b),
            _ => None,
        }
    }
}

/// The groups of a colon-separated list, which may be empty.
pub open spec fn list_groups(s: Seq<char>, allow_v4: bool) -> Option<Seq<u16>> {
    if s.len() == 0 {
        Some(Seq::empty())
    } else {
        groups_of(split_on(s, ':'), allow_v4)
    }
}

/// The first index at or after `from` where `::` starts, or -1.
pub open spec fn find_double_colon(s: Seq<char>, from: int) -> int
    decreases s.len() - from,
{
    if from < 0 || from + 1 >= s.len() {
        -1
    } else if s[from] == ':' && s[from + 1] == ':' {
        from
    } else {
        find_double_colon(s, from + 1)
    }
}

/// The eight groups of an IPv6 literal, or `None` if `s` is not one.
pub open spec fn v6_groups(s: Seq<char>) -> Option<Seq<u16>> {
    let k = find_double_colon(s, 0);
    if k < 0 {
        match list_groups(s, true) {
            Some(g) => if g.len() == 8 {
                Some(g)
            } else {
                None
            },
            None => None,
        }
    } else {
        match (list_groups(s.take(k), false), list_groups(s.skip(k + 2), true)) {
            (Some(h), Some(t)) => if h.len() + t.len() <= 7 {
                Some(h + Seq::new((8 - h.len() - t.len()) as nat, |i: int| 0u16) + t)
            } else {
                None
            },
            _ => None,
        }
    }
}

pub open spec fn v4_from(o: Seq<u8>) -> Ipv4Addr {
    Ipv4Addr { a: o[0], b: o[1], c: o[2], d: o[3] }
}

pub open spec fn v6_from(g: Seq<u16>) -> Ipv6Addr {
    Ipv6Addr { s0: g[0], s1: g[1], s2: g[2], s3: g[3], s4: g[4], s5: g[5], s6: g[6], s7: g[7] }
}

/// The address that `s` writes, IPv4 or IPv6, or `None` if `s` is not an
/// address literal.
pub open spec fn parse_ip_spec(s: Seq<char>) -> Option<IpAddr> {
    match v4_octets(s) {
        Some(o) => Some(IpAddr::V4(v4_from(o))),
        None => match v6_groups(s) {
            Some(g) => Some(IpAddr::V6(v6_from(g))),
            None => None,
        },
    }
}

pub open spec fn pow16(k: nat) -> nat
    decreases k,
{
    if k == 0 {
        1
    } else {
        16 * pow16((k - 1) as nat)
    }
}

proof fn lemma_pow16_values()
    ensures
        pow16(0) == 1,
        pow16(1) == 16,
        pow16(2) == 256,
        pow16(3) == 4096,
        pow16(4) == 65536,
{
    assert(pow16(0) == 1);
    assert(pow16(1) == 16);
    assert(pow16(2) == 256);
    assert(pow16(3) == 4096);
    assert(pow16(4) == 65536);
}

proof fn lemma_number_bound(s: Seq<char>, base: nat)
    requires
        base <= 16,
        forall|i: int| 0 <= i < s.len() ==> digit_value(#[trigger] s[i]) < base,
    ensures
        number_value(s, base) < pow16(s.len()),
    decreases s.len(),
{
    if s.len() > 0 {
        lemma_number_bound(s.drop_last(), base);
        let v = number_value(s.drop_last(), base);
        let p = pow16((s.len() - 1) as nat);
        let d = digit_value(s.last());
        assert(v * base + d < 16 * p) by (nonlinear_arith)
            requires
                v < p,
                base <= 16,
                d < base,
        ;
    }
}

fn digit_val(c: char) -> (r: u32)
    ensures
        r == digit_value(c),
{
    let u = c as u32;
    if 48 <= u && u <= 57 {
        u - 48
    } else if 97 <= u && u <= 102 {
        u - 87
    } else if 65 <= u && u <= 70 {
        u - 55
    } else {
        0
    }
}

fn is_dec(c: char) -> (r: bool)
    ensures
        r == is_dec_digit(c),
{
    48 <= (c as u32) && (c as u32) <= 57
}

fn is_hex(c: char) -> (r: bool)
    ensures
        r == is_hex_digit(c),
{
    let u = c as u32;
    (48 <= u && u <= 57) || (97 <= u && u <= 102) || (65 <= u && u <= 70)
}

/// The number written by at most four digits in `base`.
fn digits_value(p: &[char], base: u32) -> (r: u32)
    requires
        p@.len() <= 4,
        base == 10 || base == 16,
        forall|i: int| 0 <= i < p@.len() ==> digit_value(#[trigger] p@[i]) < base,
    ensures
        r == number_value(p@, base as nat),
        r < pow16(p@.len()),
{
    let mut v: u32 = 0;
    let mut k: usize = 0;
    assert(p@.take(0) =~= Seq::<char>::empty());
    while k < p.len()
        invariant
            k <= p@.len() <= 4,
            base == 10 || base == 16,
            forall|i: int| 0 <= i < p@.len() ==> digit_value(#[trigger] p@[i]) < base,
            v == number_value(p@.take(k as int), base as nat),
            v < pow16(k as nat),
        decreases p@.len() - k,
    {
        assert(p@.take(k + 1).drop_last() =~= p@.take(k as int));
        proof {
            lemma_number_bound(p@.take(k + 1), base as nat);
            lemma_pow16_values();
        }
        v = v * base + digit_val(p[k]);
        k = k + 1;
    }
    assert(p@.take(p@.len() as int) =~= p@);
    v
}

/// The octet that `p` writes, if it is an octet literal.
fn octet_of(p: &[char]) -> (r: Option<u8>)
    ensures
        r == (if is_octet_text(p@) {
            Some(number_value(p@, 10) as u8)
        } else {
            None
        }),
{
    if p.len() < 1 || p.len() > 3 {
        return None;
    }
    let mut k: usize = 0;
    while k < p.len()
        invariant
            k <= p@.len(),
            forall|i: int| 0 <= i < k ==> is_dec_digit(#[trigger] p@[i]),
        decreases p@.len() - k,
    {
        if !is_dec(p[k]) {
            return None;
        }
        k = k + 1;
    }
    if p.len() > 1 && p[0] == '0' {
        return None;
    }
    let v = digits_value(p, 10);
    if v > 255 {
        None
    } else {
        Some(v as u8)
    }
}

/// The group that `p` writes, if it is a group literal.
fn group_of(p: &[char]) -> (r: Option<u16>)
    ensures
        r == (if is_group_text(p@) {
            Some(number_value(p@, 16) as u16)
        } else {
            None
        }),
{
    if p.len() < 1 || p.len() > 4 {
        return None;
    }
    let mut k: usize = 0;
    while k < p.len()
        invariant
            k <= p@.len(),
            forall|i: int| 0 <= i < k ==> is_hex_digit(#[trigger] p@[i]),
        decreases p@.len() - k,
    {
        if !is_hex(p[k]) {
            return None;
        }
        k = k + 1;
    }
    let v = digits_value(p, 16);
    proof {
        lemma_pow16_values();
    }
    Some(v as u16)
}

/// The octets of an IPv4 literal.
fn v4_of(s: &[char]) -> (r: Option<Ipv4Addr>)
    ensures
        r == (match v4_octets(s@) {
            Some(o) => Some(v4_from(o)),
            None => None,
        }),
{
    let parts = crate::text::split_chars(s, '.');
    let ghost p = split_on(s@, '.');
    if parts.len() != 4 {
        return None;
    }
    let mut out: Vec<u8> = Vec::new();
    let mut i: usize = 0;
    while i < 4
        invariant
            i <= 4,
            p == split_on(s@, '.'),
            parts@.len() == 4 == p.len(),
            forall|k: int| 0 <= k < 4 ==> #[trigger] parts@[k]@ == p[k],
            out@.len() == i,
            forall|k: int| 0 <= k < i ==> is_octet_text(#[trigger] p[k]),
            forall|k: int| 0 <= k < i ==> #[trigger] out@[k] == number_value(p[k], 10) as u8,
        decreases 4 - i,
    {
        match octet_of(parts[i].as_slice()) {
            Some(o) => out.push(o),
            None => {
                proof {
                    lemma_v4_bad_part(s@, i as int);
                }
                return None;
            },
        }
        i = i + 1;
    }
    let ghost o = Seq::new(4, |k: int| number_value(p[k], 10) as u8);
    assert(out@ =~= o);
    Some(Ipv4Addr { a: out[0], b: out[1], c: out[2], d: out[3] })
}

proof fn lemma_v4_bad_part(s: Seq<char>, i: int)
    requires
        0 <= i < 4,
        !is_octet_text(split_on(s, '.')[i]),
    ensures
        v4_octets(s) is None,
{
}

proof fn lemma_groups_prefix_none(ps: Seq<Seq<char>>, j: int, allow_v4: bool)
    requires
        0 <= j < ps.len(),
        groups_of(ps.take(j), false) is None,
    ensures
        groups_of(ps, allow_v4) is None,
    decreases ps.len(),
{
    if j < ps.len() - 1 {
        assert(ps.drop_last().take(j) =~= ps.take(j));
        lemma_groups_prefix_none(ps.drop_last(), j, false);
    } else {
        assert(ps.drop_last() =~= ps.take(j));
    }
}

/// The groups that one piece of an IPv6 literal stands for.
fn piece_of(p: &[char], last: bool) -> (r: Option<Vec<u16>>)
    ensures
        match r {
            Some(v) => piece_groups(p@, last) == Some(v@),
            None => piece_groups(p@, last) is None,
        },
{
    if let Some(g) = group_of(p) {
        let mut v: Vec<u16> = Vec::new();
        v.push(g);
        assert(v@ =~= seq![g]);
        return Some(v);
    }
    if last {
        if let Some(a) = v4_of(p) {
            let mut v: Vec<u16> = Vec::new();
            v.push((a.a as u16) * 256 + a.b as u16);
            v.push((a.c as u16) * 256 + a.d as u16);
            let ghost o = v4_octets(p@)->0;
            assert(v@ =~= seq![(o[0] * 256 + o[1]) as u16, (o[2] * 256 + o[3]) as u16]);
            return Some(v);
        }
    }
    None
}

/// The groups of a colon-separated list, which may be empty.
fn list_of(s: &[char], allow_v4: bool) -> (r: Option<Vec<u16>>)
    ensures
        match r {
            Some(v) => list_groups(s@, allow_v4) == Some(v@),
            None => list_groups(s@, allow_v4) is None,
        },
{
    if s.len() == 0 {
        return Some(Vec::new());
    }
    let parts = crate::text::split_chars(s, ':');
    let ghost ps = split_on(s@, ':');
    proof {
        crate::text::lemma_split_nonempty(s@, ':');
    }
    let n = parts.len();
    let mut acc: Vec<u16> = Vec::new();
    let mut i: usize = 0;
    assert(ps.take(0) =~= Seq::<Seq<char>>::empty());
    while i < n - 1
        invariant
            ps == split_on(s@, ':'),
            1 <= n == parts@.len() == ps.len(),
            forall|k: int| 0 <= k < n ==> #[trigger] parts@[k]@ == ps[k],
            i <= n - 1,
            groups_of(ps.take(i as int), false) == Some(acc@),
        decreases n - i,
    {
        assert(ps.take(i + 1).drop_last() =~= ps.take(i as int));
        match piece_of(parts[i].as_slice(), false) {
            Some(mut g) => {
                acc.append(&mut g);
            },
            None => {
                proof {
                    lemma_groups_prefix_none(ps, i + 1, allow_v4);
                }
                return None;
            },
        }
        i = i + 1;
    }
    assert(ps.drop_last() =~= ps.take(n - 1));
    match piece_of(parts[n - 1].as_slice(), allow_v4) {
        Some(mut g) => {
            acc.append(&mut g);
            Some(acc)
        },
        None => None,
    }
}

proof fn lemma_double_colon_range(s: Seq<char>, from: int)
    requires
        from >= 0,
    ensures
        find_double_colon(s, from) >= 0 ==> from <= find_double_colon(s, from)
            && find_double_colon(s, from) + 2 <= s.len(),
    decreases s.len() - from,
{
    if from + 1 < s.len() && !(s[from] == ':' && s[from + 1] == ':') {
        lemma_double_colon_range(s, from + 1);
    }
}

/// Where the first `::` of `s` starts.
fn double_colon_in(s: &[char]) -> (r: Option<usize>)
    ensures
        match r {
            Some(k) => find_double_colon(s@, 0) == k && k + 2 <= s.len(),
            None => find_double_colon(s@, 0) < 0,
        },
{
    let mut k: usize = 0;
    while s.len() - k > 1
        invariant
            k <= s@.len(),
            find_double_colon(s@, 0) == find_double_colon(s@, k as int),
        decreases s@.len() - k,
    {
        if s[k] == ':' && s[k + 1] == ':' {
            return Some(k);
        }
        k = k + 1;
    }
    None
}

/// The groups of an IPv6 literal.
fn v6_of(s: &[char]) -> (r: Option<Ipv6Addr>)
    ensures
        r == (match v6_groups(s@) {
            Some(g) => Some(v6_from(g)),
            None => None,
        }),
{
    let g: Vec<u16>;
    proof {
        lemma_double_colon_range(s@, 0);
    }
    match double_colon_in(s) {
        None => {
            match list_of(s, true) {
                Some(v) => {
                    if v.len() != 8 {
                        return None;
                    }
                    g = v;
                },
                None => {
                    return None;
                },
            }
        },
        Some(k) => {
            let head = crate::text::copy_range(s, 0, k);
            let tail = crate::text::copy_range(s, k + 2, s.len());
            assert(head@ =~= s@.take(k as int));
            assert(tail@ =~= s@.skip(k + 2));
            let h = match list_of(head.as_slice(), false) {
                Some(v) => v,
                None => {
                    return None;
                },
            };
            let t = match list_of(tail.as_slice(), true) {
                Some(v) => v,
                None => {
                    return None;
                },
            };
            if h.len() > 7 || t.len() > 7 - h.len() {
                return None;
            }
            let mut v: Vec<u16> = h;
            let zeros: usize = 8 - v.len() - t.len();
            let mut z: usize = 0;
            while z < zeros
                invariant
                    z <= zeros,
                    v@ == h@ + Seq::new(z as nat, |i: int| 0u16),
                decreases zeros - z,
            {
                v.push(0);
                z = z + 1;
                assert(v@ =~= h@ + Seq::new(z as nat, |i: int| 0u16));
            }
            let mut t = t;
            v.append(&mut t);
            g = v;
        },
    }
    Some(Ipv6Addr {
        s0: g[0],
        s1: g[1],
        s2: g[2],
        s3: g[3],
        s4: g[4],
        s5: g[5],
        s6: g[6],
        s7: g[7],
    })
}

/// The address that `s` writes, IPv4 or IPv6, if it is an address literal.
pub fn parse_chars(s: &[char]) -> (r: Option<IpAddr>)
    ensures
        r == parse_ip_spec(s@),
{
    match v4_of(s) {
        Some(a) => Some(IpAddr::V4(a)),
        None => match v6_of(s) {
            Some(a) => Some(IpAddr::V6(a)),
            None => None,
        },
    }
}

impl Ipv4Addr {
    /// The address with octets `a.b.c.d`.
    pub fn new(a: u8, b: u8, c: u8, d: u8) -> (r: Ipv4Addr)
        ensures
            r == (Ipv4Addr { a, b, c, d }),
    {
        Ipv4Addr { a, b, c, d }
    }
}

impl IpAddr {
    /// The IPv4 loopback address 127.0.0.1.
    pub open spec fn localhost_spec() -> IpAddr {
        IpAddr::V4(Ipv4Addr { a: 127, b: 0, c: 0, d: 1 })
    }

    /// The IPv4 loopback address 127.0.0.1.
    pub fn localhost() -> (r: IpAddr)
        ensures
            r == IpAddr::localhost_spec(),
    {
        IpAddr::V4(Ipv4Addr { a: 127, b: 0, c: 0, d: 1 })
    }

    /// The address that `s` writes, if it is an IPv4 or IPv6 literal.
    pub fn parse(s: &str) -> (r: Option<IpAddr>)
        ensures
            r == parse_ip_spec(s@),
    {
        let chars = crate::text::chars_of(s);
        parse_chars(chars.as_slice())
    }
}

/// The address that `s` writes, or `InvalidIpFormat` carrying `s` where it is
/// not an address literal.
pub fn parse_ip(s: &str) -> (r: Result<IpAddr, RealIpError>)
    ensures
        match r {
            Ok(a) => parse_ip_spec(s@) == Some(a),
            Err(e) => parse_ip_spec(s@) is None && e is InvalidIpFormat && e->InvalidIpFormat_0@
                == s@,
        },
{
    match IpAddr::parse(s) {
        Some(a) => Ok(a),
        None => Err(RealIpError::InvalidIpFormat(s.to_owned())),
    }
}

} // verus!
