//! Textual IP addresses, as the standard library's address parser accepts
//! them, and the address values the network state holds.

use vstd::prelude::*;
use crate::text::{
    chars_of, digit, hex_digit, is_digit, is_hex_digit, lemma_split_char_len, split_at_char,
    split_char, sub_chars,
};

verus! {

/// An IP address: IPv4 as its 32 bits, IPv6 as its 128 bits, most
/// significant first.
#[derive(Clone, Copy, Debug, PartialEq, Eq, Hash, Structural)]
pub enum IpAddress {
    V4(u32),
    V6(u128),
}

impl IpAddress {
    /// The IPv4 address `a.b.c.d`.
    pub fn v4(a: u8, b: u8, c: u8, d: u8) -> (r: IpAddress)
        ensures
            r == IpAddress::V4(
                (a as int * 0x1000000 + b as int * 0x10000 + c as int * 0x100 + d as int) as u32,
            ),
    {
        IpAddress::V4((a as u32) * 0x1000000 + (b as u32) * 0x10000 + (c as u32) * 0x100 + d as u32)
    }

    /// The IPv6 address of eight 16-bit groups.
    pub fn v6(g: [u16; 8]) -> (r: IpAddress)
        ensures
            r == IpAddress::V6(v6_value(g@) as u128),
    {
        let mut v: u128 = 0;
        let mut i: usize = 0;
        while i < 8
            invariant
                g@.len() == 8,
                i <= 8,
                v == v6_value(g@.subrange(0, i as int)),
                v < pow65536(i as nat),
            decreases 8 - i,
        {
            assert(g@.subrange(0, i + 1).drop_last() =~= g@.subrange(0, i as int));
            proof {
                lemma_pow65536_bound(i as nat);
                let gi = g@[i as int] as int;
                assert(v * 65536 + gi < pow65536(i as nat) * 65536) by (nonlinear_arith)
                    requires
                        v < pow65536(i as nat),
                        0 <= gi < 65536,
                ;
            }
            v = v * 65536 + g[i] as u128;
            i = i + 1;
        }
        assert(g@.subrange(0, 8) =~= g@);
        IpAddress::V6(v)
    }

    pub fn is_ipv4(&self) -> (r: bool)
        ensures
            r == (*self is V4),
    {
        match self {
            IpAddress::V4(_) => true,
            IpAddress::V6(_) => false,
        }
    }

    /// `169.254.0.0/16` or `fe80::/10`.
    pub fn is_link_local(&self) -> (r: bool)
        ensures
            r == link_local_address(*self),
    {
        match self {
            IpAddress::V4(a) => (*a >> 16u32) == 0xa9fe,
            IpAddress::V6(a) => crate::ipv6::is_link_local(*a),
        }
    }

    pub fn is_ipv6(&self) -> (r: bool)
        ensures
            r == (*self is V6),
    {
        match self {
            IpAddress::V4(_) => false,
            IpAddress::V6(_) => true,
        }
    }
}

/// `169.254.0.0/16` or `fe80::/10`.
pub open spec fn link_local_address(a: IpAddress) -> bool {
    match a {
        IpAddress::V4(x) => (x >> 16u32) == 0xa9fe,
        IpAddress::V6(x) => crate::ipv6::link_local(x),
    }
}

/// The addresses that enter the state: link-local ones never do, and with
/// `v4_only` neither do IPv6 ones.
pub open spec fn ingested(s: Seq<IpAddress>, v4_only: bool) -> Seq<IpAddress>
    decreases s.len(),
{
    if s.len() == 0 {
        s
    } else if !link_local_address(s.last()) && (!v4_only || s.last() is V4) {
        ingested(s.drop_last(), v4_only).push(s.last())
    } else {
        ingested(s.drop_last(), v4_only)
    }
}

/// The addresses of an interface that enter the state, in order.
pub fn ingest_addresses(addrs: &Vec<IpAddress>, v4_only: bool) -> (r: Vec<IpAddress>)
    ensures
        r@ == ingested(addrs@, v4_only),
{
    let mut r: Vec<IpAddress> = Vec::new();
    let mut i: usize = 0;
    while i < addrs.len()
        invariant
            i <= addrs@.len(),
            r@ == ingested(addrs@.subrange(0, i as int), v4_only),
        decreases addrs.len() - i,
    {
        assert(addrs@.subrange(0, i + 1).drop_last() =~= addrs@.subrange(0, i as int));
        let a = addrs[i];
        if !a.is_link_local() && (!v4_only || a.is_ipv4()) {
            r.push(a);
        }
        i = i + 1;
    }
    assert(addrs@.subrange(0, addrs@.len() as int) =~= addrs@);
    r
}

pub open spec fn pow65536(n: nat) -> nat
    decreases n,
{
    if n == 0 {
        1
    } else {
        65536 * pow65536((n - 1) as nat)
    }
}

proof fn lemma_pow65536_bound(n: nat)
    requires
        n < 8,
    ensures
        pow65536(n) * 65536 <= pow65536(8),
        pow65536(8) == 0x1_0000_0000_0000_0000_0000_0000_0000_0000,
    decreases n,
{
    reveal_with_fuel(pow65536, 9);
    if n > 0 {
        lemma_pow65536_bound((n - 1) as nat);
    }
}

/// The 128-bit value of groups, most significant first.
pub open spec fn v6_value(g: Seq<u16>) -> int
    decreases g.len(),
{
    if g.len() == 0 {
        0
    } else {
        v6_value(g.drop_last()) * 65536 + g.last() as int
    }
}

/// The value of a run of decimal digits.
pub open spec fn dec_value(s: Seq<char>) -> nat
    decreases s.len(),
{
    if s.len() == 0 {
        0
    } else {
        dec_value(s.drop_last()) * 10 + (s.last() as nat - '0' as nat) as nat
    }
}

/// One part of a dotted quad: one to three digits, no leading zero, at most 255.
pub open spec fn is_octet_text(p: Seq<char>) -> bool {
    &&& 1 <= p.len() <= 3
    &&& forall|i: int| 0 <= i < p.len() ==> is_digit(#[trigger] p[i])
    &&& p.len() > 1 ==> p[0] != '0'
    &&& dec_value(p) <= 255
}

/// An IPv4 address in dotted-quad form.
pub open spec fn is_ipv4_text(s: Seq<char>) -> bool {
    let parts = split_char(s, '.');
    &&& parts.len() == 4
    &&& forall|i: int| 0 <= i < 4 ==> is_octet_text(#[trigger] parts[i])
}

/// One group of an IPv6 address: one to four hex digits.
pub open spec fn is_hex_group(p: Seq<char>) -> bool {
    &&& 1 <= p.len() <= 4
    &&& forall|i: int| 0 <= i < p.len() ==> is_hex_digit(#[trigger] p[i])
}

/// The parts of one side of an IPv6 address: hex groups, where the last
/// may be a dotted quad if `allow_v4`.
pub open spec fn groups_ok(parts: Seq<Seq<char>>, allow_v4: bool) -> bool {
    forall|i: int|
        0 <= i < parts.len() ==> is_hex_group(#[trigger] parts[i]) || (allow_v4 && i
            == parts.len() - 1 && is_ipv4_text(parts[i]))
}

/// How many 16-bit groups the parts stand for (a dotted quad counts two).
pub open spec fn group_count(parts: Seq<Seq<char>>) -> int {
    if parts.len() > 0 && is_ipv4_text(parts.last()) {
        parts.len() + 1int
    } else {
        parts.len() as int
    }
}

/// The parts of one side of `::`; an empty side has none.
pub open spec fn side_parts(s: Seq<char>) -> Seq<Seq<char>> {
    if s.len() == 0 {
        Seq::empty()
    } else {
        split_char(s, ':')
    }
}

pub open spec fn double_colon_at(s: Seq<char>, k: int) -> bool {
    0 <= k && k + 1 < s.len() && s[k] == ':' && s[k + 1] == ':'
}

/// An IPv6 address whose first `::` stands at `k`.
pub open spec fn is_ipv6_compressed(s: Seq<char>, k: int) -> bool {
    let head = side_parts(s.subrange(0, k));
    let tail = side_parts(s.subrange(k + 2, s.len() as int));
    &&& groups_ok(head, false)
    &&& groups_ok(tail, true)
    &&& group_count(head) + group_count(tail) <= 7
}

/// An IPv6 address: eight groups, the last two possibly as a dotted quad,
/// or fewer with one `::` standing for one or more zero groups.
pub open spec fn is_ipv6_text(s: Seq<char>) -> bool {
    if exists|k: int| double_colon_at(s, k) {
        exists|k: int|
            double_colon_at(s, k) && (forall|j: int| 0 <= j < k ==> !double_colon_at(s, j))
                && is_ipv6_compressed(s, k)
    } else {
        let parts = split_char(s, ':');
        groups_ok(parts, true) && group_count(parts) == 8
    }
}

/// An IPv4 or IPv6 address.
pub open spec fn is_ip_text(s: Seq<char>) -> bool {
    is_ipv4_text(s) || is_ipv6_text(s)
}

fn octet_text(p: &Vec<char>) -> (r: bool)
    ensures
        r == is_octet_text(p@),
{
    if p.len() < 1 || p.len() > 3 {
        return false;
    }
    let mut v: u32 = 0;
    let mut i: usize = 0;
    while i < p.len()
        invariant
            1 <= p@.len() <= 3,
            i <= p@.len(),
            forall|j: int| 0 <= j < i ==> is_digit(#[trigger] p@[j]),
            v == dec_value(p@.subrange(0, i as int)),
            v < 1000,
            i == 0 ==> v == 0,
            i == 1 ==> v < 10,
            i == 2 ==> v < 100,
        decreases p.len() - i,
    {
        let c = p[i];
        if !digit(c) {
            return false;
        }
        assert(p@.subrange(0, i + 1).drop_last() =~= p@.subrange(0, i as int));
        v = v * 10 + (c as u32 - '0' as u32);
        i = i + 1;
    }
    assert(p@.subrange(0, p@.len() as int) =~= p@);
    if p.len() > 1 && p[0] == '0' {
        return false;
    }
    v <= 255
}

fn ipv4_text(s: &Vec<char>) -> (r: bool)
    ensures
        r == is_ipv4_text(s@),
{
    let parts = split_at_char(s, '.');
    if parts.len() != 4 {
        return false;
    }
    let mut i: usize = 0;
    while i < 4
        invariant
            parts@.len() == 4,
            split_char(s@, '.').len() == 4,
            i <= 4,
            forall|j: int| 0 <= j < parts@.len() ==> #[trigger] parts@[j]@ == split_char(s@, '.')[j],
            forall|j: int| 0 <= j < i ==> is_octet_text(#[trigger] split_char(s@, '.')[j]),
        decreases 4 - i,
    {
        if !octet_text(&parts[i]) {
            return false;
        }
        i = i + 1;
    }
    true
}

fn hex_group(p: &Vec<char>) -> (r: bool)
    ensures
        r == is_hex_group(p@),
{
    if p.len() < 1 || p.len() > 4 {
        return false;
    }
    let mut i: usize = 0;
    while i < p.len()
        invariant
            i <= p@.len(),
            forall|j: int| 0 <= j < i ==> is_hex_digit(#[trigger] p@[j]),
        decreases p.len() - i,
    {
        if !hex_digit(p[i]) {
            return false;
        }
        i = i + 1;
    }
    true
}

/// Checks the parts of one side; on success gives `group_count`.
fn check_groups(parts: &Vec<Vec<char>>, allow_v4: bool) -> (r: Option<usize>)
    requires
        parts@.len() <= 8,
    ensures
        r matches Some(n) ==> n <= 9,
        r is Some <==> groups_ok(parts@.map_values(|p: Vec<char>| p@), allow_v4),
        r matches Some(n) ==> n == group_count(parts@.map_values(|p: Vec<char>| p@)),
{
    let ghost ps = parts@.map_values(|p: Vec<char>| p@);
    let n = parts.len();
    let mut i: usize = 0;
    let mut last_v4 = false;
    while i < n
        invariant
            n == parts@.len(),
            ps.len() == n,
            ps == parts@.map_values(|p: Vec<char>| p@),
            i <= n,
            forall|j: int|
                0 <= j < i ==> is_hex_group(#[trigger] ps[j]) || (allow_v4 && j == n - 1
                    && is_ipv4_text(ps[j])),
            last_v4 ==> i == n && n > 0 && is_ipv4_text(ps[n - 1]),
            !last_v4 && i == n && n > 0 ==> !is_ipv4_text(ps[n - 1]),
        decreases n - i,
    {
        assert(ps[i as int] == parts@[i as int]@);
        if hex_group(&parts[i]) {
            if i + 1 == n {
                let v4 = ipv4_text(&parts[i]);
                if v4 {
                    // A hex group holds no '.', a dotted quad holds three.
                    proof {
                        let p = ps[i as int];
                        let q = split_char(p, '.');
                        assert(forall|t: int| 0 <= t < p.len() ==> p[t] != '.') by {
                            assert forall|t: int| 0 <= t < p.len() implies p[t] != '.' by {
                                assert(is_hex_digit(p[t]));
                            }
                        }
                        crate::text::lemma_split_char_none(p, '.');
                    }
                    assert(false);
                }
            }
            i = i + 1;
        } else if allow_v4 && i + 1 == n && ipv4_text(&parts[i]) {
            last_v4 = true;
            i = i + 1;
        } else {
            return None;
        }
    }
    if last_v4 {
        Some(n + 1)
    } else {
        Some(n)
    }
}

/// The parts of one side of `::`.
fn side(s: &Vec<char>) -> (r: Vec<Vec<char>>)
    ensures
        r@.map_values(|p: Vec<char>| p@) == side_parts(s@),
{
    if s.len() == 0 {
        let r: Vec<Vec<char>> = Vec::new();
        assert(r@.map_values(|p: Vec<char>| p@) =~= Seq::<Seq<char>>::empty());
        r
    } else {
        let r = split_at_char(s, ':');
        assert(r@.map_values(|p: Vec<char>| p@) =~= split_char(s@, ':'));
        r
    }
}

fn ipv6_text(s: &Vec<char>) -> (r: bool)
    ensures
        r == is_ipv6_text(s@),
{
    let n = s.len();
    let mut k: usize = 0;
    let mut found = false;
    while k < n && k + 1 < n
        invariant
            n == s@.len(),
            forall|j: int| 0 <= j < k ==> !double_colon_at(s@, j),
            found ==> double_colon_at(s@, k as int),
        ensures
            found ==> double_colon_at(s@, k as int),
            !found ==> k + 1 >= n,
            forall|j: int| 0 <= j < k ==> !double_colon_at(s@, j),
        decreases n - k,
    {
        if s[k] == ':' && s[k + 1] == ':' {
            found = true;
            break;
        }
        k = k + 1;
    }
    if !found {
        assert(!exists|j: int| double_colon_at(s@, j)) by {
            assert forall|j: int| !double_colon_at(s@, j) by {
                if double_colon_at(s@, j) {
                    assert(j < k);
                }
            }
        }
        let parts = split_at_char(s, ':');
        assert(parts@.map_values(|p: Vec<char>| p@) =~= split_char(s@, ':'));
        if parts.len() > 8 {
            return false;
        }
        match check_groups(&parts, true) {
            Some(c) => c == 8,
            None => false,
        }
    } else {
        let head_chars = sub_chars(s, 0, k);
        let tail_chars = sub_chars(s, k + 2, n);
        let head = side(&head_chars);
        let tail = side(&tail_chars);
        if head.len() > 7 || tail.len() > 7 {
            assert(group_count(head@.map_values(|p: Vec<char>| p@)) >= head@.len());
            assert(group_count(tail@.map_values(|p: Vec<char>| p@)) >= tail@.len());
            proof {
                if is_ipv6_text(s@) {
                    let k2 = choose|k2: int|
                        double_colon_at(s@, k2) && (forall|j: int|
                            0 <= j < k2 ==> !double_colon_at(s@, j)) && is_ipv6_compressed(
                            s@,
                            k2,
                        );
                    assert(k2 == k as int) by {
                        if k2 < k {
                        } else if k2 > k {
                            assert(!double_colon_at(s@, k as int));
                        }
                    }
                    assert(head_chars@ == s@.subrange(0, k as int));
                }
            }
            return false;
        }
        let ok = match check_groups(&head, false) {
            Some(hc) => match check_groups(&tail, true) {
                Some(tc) => hc + tc <= 7,
                None => false,
            },
            None => false,
        };
        proof {
            if is_ipv6_text(s@) {
                let k2 = choose|k2: int|
                    double_colon_at(s@, k2) && (forall|j: int|
                        0 <= j < k2 ==> !double_colon_at(s@, j)) && is_ipv6_compressed(s@, k2);
                assert(k2 == k as int) by {
                    if k2 < k {
                    } else if k2 > k {
                        assert(!double_colon_at(s@, k as int));
                    }
                }
            }
        }
        ok
    }
}

/// Whether `s` is an IPv4 or IPv6 address.
pub fn ip_text(s: &Vec<char>) -> (r: bool)
    ensures
        r == is_ip_text(s@),
{
    ipv4_text(s) || ipv6_text(s)
}

/// The value of a hex digit.
pub open spec fn hex_digit_value(c: char) -> nat {
    if '0' <= c && c <= '9' {
        (c as nat - '0' as nat) as nat
    } else if 'a' <= c && c <= 'f' {
        (c as nat - 'a' as nat + 10) as nat
    } else {
        (c as nat - 'A' as nat + 10) as nat
    }
}

/// The value of a run of hex digits.
pub open spec fn hex_value(s: Seq<char>) -> nat
    decreases s.len(),
{
    if s.len() == 0 {
        0
    } else {
        hex_value(s.drop_last()) * 16 + hex_digit_value(s.last())
    }
}

/// The 32-bit value of a dotted quad.
pub open spec fn ipv4_value(s: Seq<char>) -> nat {
    let ps = split_char(s, '.');
    dec_value(ps[0]) * 16777216 + dec_value(ps[1]) * 65536 + dec_value(ps[2]) * 256 + dec_value(
        ps[3],
    )
}

/// The 16-bit groups that the parts of one side of `::` stand for.
pub open spec fn side_groups(ps: Seq<Seq<char>>) -> Seq<u16> {
    if ps.len() > 0 && is_ipv4_text(ps.last()) {
        ps.drop_last().map_values(|p: Seq<char>| hex_value(p) as u16) + seq![
            (ipv4_value(ps.last()) / 65536) as u16,
            (ipv4_value(ps.last()) % 65536) as u16,
        ]
    } else {
        ps.map_values(|p: Seq<char>| hex_value(p) as u16)
    }
}

/// The position of the first `::`.
pub open spec fn first_double_colon(s: Seq<char>) -> int {
    choose|k: int| double_colon_at(s, k) && forall|j: int| 0 <= j < k ==> !double_colon_at(s, j)
}

/// The eight groups of an IPv6 address; `::` stands for as many zero
/// groups as are missing.
pub open spec fn ipv6_groups(s: Seq<char>) -> Seq<u16> {
    if exists|k: int| double_colon_at(s, k) {
        let k = first_double_colon(s);
        let head = side_groups(side_parts(s.subrange(0, k)));
        let tail = side_groups(side_parts(s.subrange(k + 2, s.len() as int)));
        head + Seq::new((8 - head.len() - tail.len()) as nat, |i: int| 0u16) + tail
    } else {
        side_groups(split_char(s, ':'))
    }
}

/// The address a text names, if it names one.
pub open spec fn ip_value(s: Seq<char>) -> Option<IpAddress> {
    if is_ipv4_text(s) {
        Some(IpAddress::V4(ipv4_value(s) as u32))
    } else if is_ipv6_text(s) {
        Some(IpAddress::V6(v6_value(ipv6_groups(s)) as u128))
    } else {
        None
    }
}

fn octet_value(p: &Vec<char>) -> (r: Option<u32>)
    ensures
        r is Some <==> is_octet_text(p@),
        r matches Some(v) ==> v == dec_value(p@) && v <= 255,
{
    if !octet_text(p) {
        return None;
    }
    let mut v: u32 = 0;
    let mut i: usize = 0;
    while i < p.len()
        invariant
            is_octet_text(p@),
            i <= p@.len(),
            v == dec_value(p@.subrange(0, i as int)),
            v < 1000,
            i == 0 ==> v == 0,
            i == 1 ==> v < 10,
            i == 2 ==> v < 100,
        decreases p.len() - i,
    {
        assert(p@.subrange(0, i + 1).drop_last() =~= p@.subrange(0, i as int));
        assert(is_digit(p@[i as int]));
        v = v * 10 + (p[i] as u32 - '0' as u32);
        i = i + 1;
    }
    assert(p@.subrange(0, p@.len() as int) =~= p@);
    Some(v)
}

/// The value of a dotted quad.
fn ipv4_parse(s: &Vec<char>) -> (r: Option<u32>)
    ensures
        r is Some <==> is_ipv4_text(s@),
        r matches Some(v) ==> v == ipv4_value(s@),
{
    if !ipv4_text(s) {
        return None;
    }
    let parts = split_at_char(s, '.');
    let ghost ps = split_char(s@, '.');
    assert(parts@[0]@ == ps[0] && parts@[1]@ == ps[1] && parts@[2]@ == ps[2] && parts@[3]@ == ps[3]);
    let a = octet_value(&parts[0]);
    let b = octet_value(&parts[1]);
    let c = octet_value(&parts[2]);
    let d = octet_value(&parts[3]);
    match (a, b, c, d) {
        (Some(a), Some(b), Some(c), Some(d)) => Some(a * 16777216 + b * 65536 + c * 256 + d),
        _ => None,
    }
}

fn hex_group_value(p: &Vec<char>) -> (r: Option<u16>)
    ensures
        r is Some <==> is_hex_group(p@),
        r matches Some(v) ==> v as nat == hex_value(p@),
{
    if !hex_group(p) {
        return None;
    }
    let mut v: u32 = 0;
    let mut i: usize = 0;
    while i < p.len()
        invariant
            is_hex_group(p@),
            i <= p@.len(),
            v == hex_value(p@.subrange(0, i as int)),
            i == 0 ==> v == 0,
            i == 1 ==> v < 16,
            i == 2 ==> v < 256,
            i == 3 ==> v < 4096,
            i == 4 ==> v < 65536,
        decreases p.len() - i,
    {
        assert(p@.subrange(0, i + 1).drop_last() =~= p@.subrange(0, i as int));
        let c = p[i];
        assert(is_hex_digit(c));
        let d: u32 = if '0' <= c && c <= '9' {
            c as u32 - '0' as u32
        } else if 'a' <= c && c <= 'f' {
            c as u32 - 'a' as u32 + 10
        } else {
            c as u32 - 'A' as u32 + 10
        };
        v = v * 16 + d;
        i = i + 1;
    }
    assert(p@.subrange(0, p@.len() as int) =~= p@);
    Some(v as u16)
}

/// The groups of one side of `::`, when its parts are well formed.
fn side_values(parts: &Vec<Vec<char>>, allow_v4: bool) -> (r: Option<Vec<u16>>)
    requires
        parts@.len() <= 8,
    ensures
        r is Some <==> groups_ok(parts@.map_values(|p: Vec<char>| p@), allow_v4),
        r matches Some(g) ==> g@ == side_groups(parts@.map_values(|p: Vec<char>| p@)),
{
    let ghost ps = parts@.map_values(|p: Vec<char>| p@);
    match check_groups(parts, allow_v4) {
        None => None,
        Some(_) => {
            let n = parts.len();
            let mut g: Vec<u16> = Vec::new();
            let mut i: usize = 0;
            let last_v4 = n > 0 && ipv4_text(&parts[n - 1]);
            let upto: usize = if last_v4 {
                n - 1
            } else {
                n
            };
            assert(last_v4 == (ps.len() > 0 && is_ipv4_text(ps.last())));
            while i < upto
                invariant
                    n == parts@.len(),
                    ps == parts@.map_values(|p: Vec<char>| p@),
                    groups_ok(ps, allow_v4),
                    upto <= n,
                    last_v4 == (ps.len() > 0 && is_ipv4_text(ps.last())),
                    upto == (if last_v4 { n - 1 } else { n as int }),
                    i <= upto,
                    g@ == ps.subrange(0, i as int).map_values(|p: Seq<char>| hex_value(p) as u16),
                decreases upto - i,
            {
                assert(ps[i as int] == parts@[i as int]@);
                // Before the last part, or with no dotted quad, every part is a hex group.
                assert(is_hex_group(ps[i as int])) by {
                    if !is_hex_group(ps[i as int]) {
                        assert(allow_v4 && i == ps.len() - 1 && is_ipv4_text(ps[i as int]));
                    }
                }
                let v = hex_group_value(&parts[i]);
                match v {
                    Some(x) => {
                        g.push(x);
                    },
                    None => {
                        assert(false);
                    },
                }
                assert(g@ =~= ps.subrange(0, i + 1).map_values(|p: Seq<char>| hex_value(p) as u16));
                i = i + 1;
            }
            if last_v4 {
                assert(ps[n - 1] == parts@[n - 1]@);
                match ipv4_parse(&parts[n - 1]) {
                    Some(v) => {
                        g.push((v / 65536) as u16);
                        g.push((v % 65536) as u16);
                        assert(ps.drop_last() =~= ps.subrange(0, (n - 1) as int));
                        assert(g@ =~= side_groups(ps));
                    },
                    None => {
                        assert(false);
                    },
                }
            } else {
                assert(ps.subrange(0, n as int) =~= ps);
            }
            Some(g)
        },
    }
}

/// The address a text names, if it names one: IPv4 or IPv6, as the
/// standard library's parser reads them.
pub fn parse_ip_address(s: &str) -> (r: Option<IpAddress>)
    ensures
        r == ip_value(s@),
{
    let cs = chars_of(s);
    match ipv4_parse(&cs) {
        Some(v) => {
            return Some(IpAddress::V4(v));
        },
        None => {},
    }
    if !ipv6_text(&cs) {
        return None;
    }
    let n = cs.len();
    let mut k: usize = 0;
    let mut found = false;
    while k < n && k + 1 < n
        invariant
            n == cs@.len(),
            forall|j: int| 0 <= j < k ==> !double_colon_at(cs@, j),
            found ==> double_colon_at(cs@, k as int),
        ensures
            found ==> double_colon_at(cs@, k as int),
            !found ==> k + 1 >= n,
            forall|j: int| 0 <= j < k ==> !double_colon_at(cs@, j),
        decreases n - k,
    {
        if cs[k] == ':' && cs[k + 1] == ':' {
            found = true;
            break;
        }
        k = k + 1;
    }
    let mut groups: Vec<u16> = Vec::new();
    if !found {
        assert(!exists|j: int| double_colon_at(cs@, j)) by {
            assert forall|j: int| !double_colon_at(cs@, j) by {
                if double_colon_at(cs@, j) {
                    assert(j < k);
                }
            }
        }
        let parts = split_at_char(&cs, ':');
        assert(parts@.map_values(|p: Vec<char>| p@) =~= split_char(cs@, ':'));
        if parts.len() > 8 {
            return None;
        }
        match side_values(&parts, true) {
            Some(g) => {
                groups = g;
            },
            None => {
                return None;
            },
        }
        assert(groups@ == ipv6_groups(s@));
    } else {
        proof {
            let k2 = first_double_colon(cs@);
            assert(double_colon_at(cs@, k as int));
            assert(k2 == k as int) by {
                if k2 < k {
                } else if k2 > k {
                    assert(!double_colon_at(cs@, k as int));
                }
            }
        }
        let head_chars = sub_chars(&cs, 0, k);
        let tail_chars = sub_chars(&cs, k + 2, n);
        let head = side(&head_chars);
        let tail = side(&tail_chars);
        if head.len() > 7 || tail.len() > 7 {
            return None;
        }
        let hg = match side_values(&head, false) {
            Some(g) => g,
            None => {
                return None;
            },
        };
        let tg = match side_values(&tail, true) {
            Some(g) => g,
            None => {
                return None;
            },
        };
        let hc = check_groups(&head, false);
        let tc = check_groups(&tail, true);
        assert(hg@.len() == group_count(head@.map_values(|p: Vec<char>| p@)));
        assert(tg@.len() == group_count(tail@.map_values(|p: Vec<char>| p@)));
        if hg.len() + tg.len() > 7 {
            return None;
        }
        let zeros: usize = 8 - hg.len() - tg.len();
        let mut z: usize = 0;
        groups = hg;
        let ghost hv = groups@;
        while z < zeros
            invariant
                z <= zeros,
                groups@ == hv + Seq::new(z as nat, |i: int| 0u16),
            decreases zeros - z,
        {
            groups.push(0);
            z = z + 1;
            assert(groups@ =~= hv + Seq::new(z as nat, |i: int| 0u16));
        }
        let mut t: usize = 0;
        let ghost mid = groups@;
        while t < tg.len()
            invariant
                t <= tg@.len(),
                groups@ == mid + tg@.subrange(0, t as int),
            decreases tg.len() - t,
        {
            groups.push(tg[t]);
            t = t + 1;
            assert(groups@ =~= mid + tg@.subrange(0, t as int));
        }
        assert(tg@.subrange(0, tg@.len() as int) =~= tg@);
        assert(groups@ =~= ipv6_groups(s@));
    }
    if groups.len() != 8 {
        return None;
    }
    let arr: [u16; 8] = [
        groups[0],
        groups[1],
        groups[2],
        groups[3],
        groups[4],
        groups[5],
        groups[6],
        groups[7],
    ];
    assert(arr@ =~= groups@);
    Some(IpAddress::v6(arr))
}

} // verus!
