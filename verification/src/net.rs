//! IP addresses as the standard library writes them, CIDR blocks of trusted
//! proxies, and the client address of a request seen through them.

use vstd::prelude::*;

use crate::text::{
    all_digits, char_views, chars_of, decimal_value, digit_val, is_digit_char, parse_digits,
    split_chars, split_on, sub_chars,
};

verus! {

/// Whether `p` is one decimal octet of a dotted IPv4 address: one to three
/// digits, no leading zero, at most 255.
pub open spec fn octet_ok(p: Seq<char>) -> bool {
    &&& 1 <= p.len() <= 3
    &&& all_digits(p)
    &&& (p.len() == 1 || p[0] != '0')
    &&& decimal_value(p) <= 255
}

/// The address that four octets make, the first the most significant.
pub open spec fn octets_value(a: int, b: int, c: int, d: int) -> int {
    ((a * 256 + b) * 256 + c) * 256 + d
}

/// What `Ipv4Addr::from_str` gives for `s`: four octets separated by dots.
pub open spec fn spec_parse_ipv4(s: Seq<char>) -> Option<u32> {
    let p = split_on(s, '.');
    if p.len() == 4 && octet_ok(p[0]) && octet_ok(p[1]) && octet_ok(p[2]) && octet_ok(p[3]) {
        Some(
            octets_value(
                decimal_value(p[0]),
                decimal_value(p[1]),
                decimal_value(p[2]),
                decimal_value(p[3]),
            ) as u32,
        )
    } else {
        None
    }
}

fn parse_octet(p: &[char]) -> (res: Option<u32>)
    ensures
        res matches Some(n) ==> octet_ok(p@) && n == decimal_value(p@),
        res is None ==> !octet_ok(p@),
{
    if p.len() == 0 || p.len() > 3 {
        return None;
    }
    if p.len() > 1 && p[0] == '0' {
        return None;
    }
    proof {
        assert(p@.subrange(0, p@.len() as int) =~= p@);
    }
    match parse_digits(p, 0, 255) {
        Some(n) => Some(n as u32),
        None => None,
    }
}

/// `Ipv4Addr::from_str` on the characters of `v`.
pub fn parse_ipv4(v: &[char]) -> (res: Option<u32>)
    ensures
        res == spec_parse_ipv4(v@),
{
    let pieces = split_chars(v, '.');
    let ghost p = char_views(pieces@);
    if pieces.len() != 4 {
        return None;
    }
    assert(p[0] == pieces@[0]@ && p[1] == pieces@[1]@ && p[2] == pieces@[2]@ && p[3] == pieces@[3]@);
    let a = match parse_octet(pieces[0].as_slice()) {
        Some(n) => n,
        None => {
            return None;
        },
    };
    let b = match parse_octet(pieces[1].as_slice()) {
        Some(n) => n,
        None => {
            return None;
        },
    };
    let c = match parse_octet(pieces[2].as_slice()) {
        Some(n) => n,
        None => {
            return None;
        },
    };
    let d = match parse_octet(pieces[3].as_slice()) {
        Some(n) => n,
        None => {
            return None;
        },
    };
    assert(octets_value(a as int, b as int, c as int, d as int) <= 0xffff_ffff) by (nonlinear_arith)
        requires
            a <= 255,
            b <= 255,
            c <= 255,
            d <= 255,
    ;
    Some(((a * 256 + b) * 256 + c) * 256 + d)
}

/// An ASCII hexadecimal digit, either case.
pub open spec fn is_hex_char(c: char) -> bool {
    ('0' <= c && c <= '9') || ('a' <= c && c <= 'f') || ('A' <= c && c <= 'F')
}

/// The value of a hexadecimal digit.
pub open spec fn hex_val(c: char) -> int {
    if '0' <= c && c <= '9' {
        (c as int) - ('0' as int)
    } else if 'a' <= c && c <= 'f' {
        (c as int) - ('a' as int) + 10
    } else {
        (c as int) - ('A' as int) + 10
    }
}

/// The value of a run of hexadecimal digits.
pub open spec fn hex_value(s: Seq<char>) -> int
    decreases s.len(),
{
    if s.len() == 0 {
        0
    } else {
        hex_value(s.drop_last()) * 16 + hex_val(s.last())
    }
}

/// Whether `p` is one group of an IPv6 address: one to four hexadecimal
/// digits.
pub open spec fn group_ok(p: Seq<char>) -> bool {
    &&& 1 <= p.len() <= 4
    &&& forall|i: int| 0 <= i < p.len() ==> is_hex_char(#[trigger] p[i])
}

fn parse_group(p: &[char]) -> (res: Option<u32>)
    ensures
        res matches Some(n) ==> group_ok(p@) && n == hex_value(p@) && n < 65536,
        res is None ==> !group_ok(p@),
{
    if p.len() == 0 || p.len() > 4 {
        return None;
    }
    let mut n: u32 = 0;
    let mut i: usize = 0;
    while i < p.len()
        invariant
            p.len() <= 4,
            i <= p.len(),
            forall|k: int| 0 <= k < i ==> is_hex_char(#[trigger] p@[k]),
            n == hex_value(p@.take(i as int)),
            n < pow16(i as nat),
        decreases p.len() - i,
    {
        let c = p[i];
        let digit: u32 = if '0' <= c && c <= '9' {
            c as u32 - '0' as u32
        } else if 'a' <= c && c <= 'f' {
            c as u32 - 'a' as u32 + 10
        } else if 'A' <= c && c <= 'F' {
            c as u32 - 'A' as u32 + 10
        } else {
            return None;
        };
        proof {
            assert(p@.take(i + 1).drop_last() =~= p@.take(i as int));
            assert(p@.take(i + 1).last() == c);
            assert(pow16((i + 1) as nat) == pow16(i as nat) * 16);
            assert(n * 16 + digit < pow16((i + 1) as nat)) by (nonlinear_arith)
                requires
                    n < pow16(i as nat),
                    digit < 16,
                    pow16((i + 1) as nat) == pow16(i as nat) * 16,
            ;
            lemma_pow16_four();
            lemma_pow16_mono((i + 1) as nat, 4);
        }
        n = n * 16 + digit;
        i += 1;
    }
    proof {
        assert(p@.take(i as int) =~= p@);
        lemma_pow16_mono(i as nat, 4);
        lemma_pow16_four();
    }
    Some(n)
}

/// `16` to the power `n`.
pub open spec fn pow16(n: nat) -> int
    decreases n,
{
    if n == 0 {
        1
    } else {
        pow16((n - 1) as nat) * 16
    }
}

proof fn lemma_pow16_four()
    ensures
        pow16(4) == 65536,
{
    reveal_with_fuel(pow16, 5);
}

proof fn lemma_pow16_mono(a: nat, b: nat)
    requires
        a <= b,
    ensures
        pow16(a) <= pow16(b),
        pow16(a) >= 1,
    decreases b,
{
    if b > a {
        lemma_pow16_mono(a, (b - 1) as nat);
    } else if a > 0 {
        lemma_pow16_mono((a - 1) as nat, (a - 1) as nat);
    }
}

/// The 16-bit groups that a run of colon-separated pieces stands for: each
/// piece a hexadecimal group, except that the last may be a dotted IPv4
/// address, two groups, where `allow_v4`.
pub open spec fn pieces_groups(pieces: Seq<Seq<char>>, allow_v4: bool) -> Option<Seq<int>> {
    if pieces.len() == 0 {
        Some(Seq::empty())
    } else {
        let init = pieces.drop_last();
        let last = pieces.last();
        if !(forall|i: int| 0 <= i < init.len() ==> group_ok(#[trigger] init[i])) {
            None
        } else {
            let head = init.map_values(|p: Seq<char>| hex_value(p));
            if group_ok(last) {
                Some(head.push(hex_value(last)))
            } else if allow_v4 && spec_parse_ipv4(last) is Some {
                let v = spec_parse_ipv4(last)->0;
                Some(head.push((v / 65536) as int).push((v % 65536) as int))
            } else {
                None
            }
        }
    }
}

/// Whether `::` starts at position `i` of `s`.
pub open spec fn double_colon_at(s: Seq<char>, i: int) -> bool {
    0 <= i && i + 1 < s.len() && s[i] == ':' && s[i + 1] == ':'
}

/// The position of the first `::` in `s`, or its length when it has none.
pub open spec fn first_double_colon(s: Seq<char>) -> int
    decreases s.len(),
{
    if s.len() < 2 {
        s.len() as int
    } else if s[0] == ':' && s[1] == ':' {
        0
    } else {
        1 + first_double_colon(s.drop_first())
    }
}

proof fn lemma_first_double_colon(s: Seq<char>, j: int)
    requires
        0 <= j <= s.len(),
        forall|i: int| 0 <= i < j ==> !double_colon_at(s, i),
        double_colon_at(s, j) || (j == s.len()),
    ensures
        first_double_colon(s) == j,
    decreases s.len(),
{
    if s.len() >= 2 && j > 0 {
        assert(!double_colon_at(s, 0));
        let t = s.drop_first();
        assert forall|i: int| 0 <= i < j - 1 implies !double_colon_at(t, i) by {
            assert(!double_colon_at(s, i + 1));
        }
        if double_colon_at(s, j) {
            assert(double_colon_at(t, j - 1));
        }
        lemma_first_double_colon(t, j - 1);
    } else if s.len() < 2 && j < s.len() {
        assert(double_colon_at(s, j));
    }
}

/// The value of a run of 16-bit groups, the first the most significant.
pub open spec fn groups_value(g: Seq<int>) -> int
    decreases g.len(),
{
    if g.len() == 0 {
        0
    } else {
        groups_value(g.drop_last()) * 65536 + g.last()
    }
}

/// What `Ipv6Addr::from_str` gives for `s`: eight groups, the last two of
/// which may be written as a dotted IPv4 address, or fewer groups around a
/// single `::` that stands for the missing ones.
pub open spec fn spec_parse_ipv6(s: Seq<char>) -> Option<u128> {
    let k = first_double_colon(s);
    if k >= s.len() {
        match pieces_groups(split_on(s, ':'), true) {
            Some(g) => if g.len() == 8 {
                Some(groups_value(g) as u128)
            } else {
                None
            },
            None => None,
        }
    } else {
        let head = s.subrange(0, k);
        let tail = s.subrange(k + 2, s.len() as int);
        let h = if head.len() == 0 {
            Some(Seq::<int>::empty())
        } else {
            pieces_groups(split_on(head, ':'), false)
        };
        let t = if tail.len() == 0 {
            Some(Seq::<int>::empty())
        } else {
            pieces_groups(split_on(tail, ':'), true)
        };
        if h is Some && t is Some && h->0.len() + t->0.len() <= 7 {
            Some(
                groups_value(
                    h->0 + Seq::new((8 - h->0.len() - t->0.len()) as nat, |i: int| 0int) + t->0,
                ) as u128,
            )
        } else {
            None
        }
    }
}

/// The integers held by a vector of groups.
pub open spec fn group_ints(s: Seq<u32>) -> Seq<int> {
    s.map_values(|x: u32| x as int)
}

fn pieces_to_groups(pieces: &Vec<Vec<char>>, allow_v4: bool) -> (res: Option<Vec<u32>>)
    ensures
        match pieces_groups(char_views(pieces@), allow_v4) {
            Some(g) => res matches Some(v) && group_ints(v@) == g && forall|i: int|
                0 <= i < v@.len() ==> #[trigger] v@[i] < 65536,
            None => res is None,
        },
{
    let ghost ps = char_views(pieces@);
    let mut out: Vec<u32> = Vec::new();
    if pieces.len() == 0 {
        assert(group_ints(out@) =~= Seq::<int>::empty());
        return Some(out);
    }
    let n = pieces.len() - 1;
    let ghost init = ps.drop_last();
    let mut i: usize = 0;
    while i < n
        invariant
            n == pieces.len() - 1,
            i <= n,
            ps == char_views(pieces@),
            init == ps.drop_last(),
            forall|k: int| 0 <= k < i ==> group_ok(#[trigger] init[k]),
            group_ints(out@) == init.take(i as int).map_values(|p: Seq<char>| hex_value(p)),
            forall|k: int| 0 <= k < out@.len() ==> #[trigger] out@[k] < 65536,
        decreases n - i,
    {
        assert(init[i as int] == pieces@[i as int]@);
        let g = match parse_group(pieces[i].as_slice()) {
            Some(g) => g,
            None => {
                return None;
            },
        };
        let ghost before = group_ints(out@);
        out.push(g);
        proof {
            assert(group_ints(out@) =~= before.push(g as int));
            assert(init.take(i + 1) =~= init.take(i as int).push(init[i as int]));
            assert(init.take(i + 1).map_values(|p: Seq<char>| hex_value(p)) =~= init.take(
                i as int,
            ).map_values(|p: Seq<char>| hex_value(p)).push(hex_value(init[i as int])));
        }
        i += 1;
    }
    proof {
        assert(init.take(n as int) =~= init);
    }
    let last = pieces[n].as_slice();
    assert(ps.last() == last@);
    match parse_group(last) {
        Some(g) => {
            let ghost before = group_ints(out@);
            out.push(g);
            assert(group_ints(out@) =~= before.push(g as int));
            Some(out)
        },
        None => {
            if !allow_v4 {
                return None;
            }
            match parse_ipv4(last) {
                Some(v) => {
                    let ghost before = group_ints(out@);
                    out.push(v / 65536);
                    out.push(v % 65536);
                    assert(group_ints(out@) =~= before.push((v / 65536) as int).push((v % 65536) as int));
                    Some(out)
                },
                None => None,
            }
        },
    }
}

/// `16`-bit groups value bound: `groups` of fewer than `n` groups stay below
/// `65536^n`.
pub open spec fn pow65536(n: nat) -> int
    decreases n,
{
    if n == 0 {
        1
    } else {
        pow65536((n - 1) as nat) * 65536
    }
}

fn value_of_groups(g: &Vec<u32>) -> (res: u128)
    requires
        g@.len() == 8,
        forall|i: int| 0 <= i < g@.len() ==> #[trigger] g@[i] < 65536,
    ensures
        res as int == groups_value(group_ints(g@)),
{
    let ghost gi = group_ints(g@);
    let mut acc: u128 = 0;
    let mut i: usize = 0;
    proof {
        reveal_with_fuel(pow65536, 9);
        assert(pow65536(8) == 0x1_0000_0000_0000_0000_0000_0000_0000_0000);
    }
    while i < 8
        invariant
            g@.len() == 8,
            i <= 8,
            gi == group_ints(g@),
            forall|k: int| 0 <= k < g@.len() ==> #[trigger] g@[k] < 65536,
            acc as int == groups_value(gi.take(i as int)),
            (acc as int) < pow65536(i as nat),
            pow65536(8) == 0x1_0000_0000_0000_0000_0000_0000_0000_0000,
        decreases 8 - i,
    {
        proof {
            lemma_pow65536_mono((i + 1) as nat, 8);
            assert(pow65536((i + 1) as nat) == pow65536(i as nat) * 65536);
            assert((acc as int) * 65536 + g@[i as int] < pow65536((i + 1) as nat)) by (nonlinear_arith)
                requires
                    (acc as int) < pow65536(i as nat),
                    g@[i as int] < 65536,
                    pow65536((i + 1) as nat) == pow65536(i as nat) * 65536,
            ;
            assert(gi.take(i + 1).drop_last() =~= gi.take(i as int));
            assert(gi.take(i + 1).last() == g@[i as int] as int);
        }
        acc = acc * 65536 + g[i] as u128;
        i += 1;
    }
    assert(gi.take(8) =~= gi);
    acc
}

proof fn lemma_pow65536_mono(a: nat, b: nat)
    requires
        a <= b,
    ensures
        pow65536(a) <= pow65536(b),
        pow65536(a) >= 1,
    decreases b,
{
    if b > a {
        lemma_pow65536_mono(a, (b - 1) as nat);
    } else if a > 0 {
        lemma_pow65536_mono((a - 1) as nat, (a - 1) as nat);
    }
}

fn first_double_colon_of(v: &[char]) -> (res: usize)
    ensures
        res == first_double_colon(v@),
        res <= v.len(),
        res < v.len() ==> double_colon_at(v@, res as int),
{
    let mut i: usize = 0;
    while v.len() > 1 && i < v.len() - 1
        invariant
            i <= v.len(),
            forall|k: int| 0 <= k < i ==> !double_colon_at(v@, k),
        decreases v.len() - i,
    {
        if v[i] == ':' && v[i + 1] == ':' {
            proof {
                lemma_first_double_colon(v@, i as int);
            }
            return i;
        }
        i += 1;
    }
    proof {
        assert forall|k: int| 0 <= k < v.len() implies !double_colon_at(v@, k) by {
            if k >= i {
                assert(k + 1 >= v.len());
            }
        }
        lemma_first_double_colon(v@, v.len() as int);
    }
    v.len()
}

/// `Ipv6Addr::from_str` on the characters of `v`.
pub fn parse_ipv6(v: &[char]) -> (res: Option<u128>)
    ensures
        res == spec_parse_ipv6(v@),
{
    let k = first_double_colon_of(v);
    if k == v.len() {
        let pieces = split_chars(v, ':');
        let g = match pieces_to_groups(&pieces, true) {
            Some(g) => g,
            None => {
                return None;
            },
        };
        if g.len() != 8 {
            return None;
        }
        return Some(value_of_groups(&g));
    }
    let head = sub_chars(v, 0, k);
    let tail = sub_chars(v, k + 2, v.len());
    let h: Vec<u32> = if head.len() == 0 {
        Vec::new()
    } else {
        let pieces = split_chars(head.as_slice(), ':');
        match pieces_to_groups(&pieces, false) {
            Some(g) => g,
            None => {
                return None;
            },
        }
    };
    let t: Vec<u32> = if tail.len() == 0 {
        Vec::new()
    } else {
        let pieces = split_chars(tail.as_slice(), ':');
        match pieces_to_groups(&pieces, true) {
            Some(g) => g,
            None => {
                return None;
            },
        }
    };
    proof {
        if head.len() == 0 {
            assert(group_ints(h@) =~= Seq::<int>::empty());
        }
        if tail.len() == 0 {
            assert(group_ints(t@) =~= Seq::<int>::empty());
        }
    }
    if h.len() > 7 || t.len() > 7 - h.len() {
        return None;
    }
    let mut all: Vec<u32> = Vec::new();
    let mut i: usize = 0;
    while i < h.len()
        invariant
            i <= h.len(),
            all@ == h@.take(i as int),
        decreases h.len() - i,
    {
        all.push(h[i]);
        assert(h@.take(i + 1) =~= h@.take(i as int).push(h@[i as int]));
        i += 1;
    }
    assert(h@.take(h.len() as int) =~= h@);
    let zeros = 8 - h.len() - t.len();
    let mut z: usize = 0;
    while z < zeros
        invariant
            z <= zeros,
            all@ == h@ + Seq::new(z as nat, |j: int| 0u32),
        decreases zeros - z,
    {
        all.push(0);
        assert(h@ + Seq::new((z + 1) as nat, |j: int| 0u32) =~= (h@ + Seq::new(z as nat, |j: int| 0u32)).push(0u32));
        z += 1;
    }
    let ghost mid = all@;
    let mut j: usize = 0;
    while j < t.len()
        invariant
            j <= t.len(),
            all@ == mid + t@.take(j as int),
        decreases t.len() - j,
    {
        all.push(t[j]);
        assert(t@.take(j + 1) =~= t@.take(j as int).push(t@[j as int]));
        assert(mid + t@.take(j + 1) =~= (mid + t@.take(j as int)).push(t@[j as int]));
        j += 1;
    }
    assert(t@.take(t.len() as int) =~= t@);
    proof {
        let want = group_ints(h@) + Seq::new((8 - h@.len() - t@.len()) as nat, |i: int| 0int)
            + group_ints(t@);
        assert(group_ints(all@) =~= want);
        assert forall|i: int| 0 <= i < all@.len() implies #[trigger] all@[i] < 65536 by {
            if i < h@.len() {
                assert(all@[i] == h@[i]);
            } else if i >= h@.len() + zeros {
                assert(all@[i] == t@[i - h@.len() - zeros]);
            }
        }
    }
    Some(value_of_groups(&all))
}

/// An IP address: four bytes or sixteen, read as one big-endian integer.
#[derive(Debug, Clone, Copy, PartialEq, Eq, Structural, Hash)]
pub enum IpAddress {
    V4(u32),
    V6(u128),
}

/// The loopback address `127.0.0.1`.
pub open spec fn localhost() -> IpAddress {
    IpAddress::V4(0x7f00_0001)
}

/// What `IpAddr::from_str` gives for `s`: an IPv4 address, else an IPv6
/// address.
pub open spec fn spec_parse_ip(s: Seq<char>) -> Option<IpAddress> {
    match spec_parse_ipv4(s) {
        Some(v) => Some(IpAddress::V4(v)),
        None => match spec_parse_ipv6(s) {
            Some(v) => Some(IpAddress::V6(v)),
            None => None,
        },
    }
}

/// `IpAddr::from_str` on the characters of `v`.
pub fn parse_ip_chars(v: &[char]) -> (res: Option<IpAddress>)
    ensures
        res == spec_parse_ip(v@),
{
    match parse_ipv4(v) {
        Some(a) => Some(IpAddress::V4(a)),
        None => match parse_ipv6(v) {
            Some(a) => Some(IpAddress::V6(a)),
            None => None,
        },
    }
}

/// `IpAddr::from_str` on `s`.
pub fn parse_ip_addr(s: &str) -> (res: Option<IpAddress>)
    ensures
        res == spec_parse_ip(s@),
{
    let v = chars_of(s);
    parse_ip_chars(v.as_slice())
}

/// The mask of the first `prefix` bits of an IPv4 address.
pub open spec fn spec_prefix_mask_v4(prefix: u8) -> u32 {
    if prefix == 0 {
        0
    } else {
        (0xffff_ffffu32 << ((32 - prefix) as u32)) as u32
    }
}

/// The mask of the first `prefix` bits of an IPv6 address.
pub open spec fn spec_prefix_mask_v6(prefix: u8) -> u128 {
    if prefix == 0 {
        0
    } else {
        (0xffff_ffff_ffff_ffff_ffff_ffff_ffff_ffffu128 << ((128 - prefix) as u32)) as u128
    }
}

pub fn prefix_mask_v4(prefix: u8) -> (res: u32)
    requires
        prefix <= 32,
    ensures
        res == spec_prefix_mask_v4(prefix),
{
    if prefix == 0 {
        0
    } else {
        u32::MAX << ((32 - prefix) as u32)
    }
}

pub fn prefix_mask_v6(prefix: u8) -> (res: u128)
    requires
        prefix <= 128,
    ensures
        res == spec_prefix_mask_v6(prefix),
{
    if prefix == 0 {
        0
    } else {
        u128::MAX << ((128 - prefix) as u32)
    }
}

/// Whether two IPv4 addresses share their first `prefix` bits.
pub open spec fn spec_prefix_matches_v4(network: u32, address: u32, prefix: u8) -> bool {
    (network & spec_prefix_mask_v4(prefix)) == (address & spec_prefix_mask_v4(prefix))
}

/// Whether two IPv6 addresses share their first `prefix` bits.
pub open spec fn spec_prefix_matches_v6(network: u128, address: u128, prefix: u8) -> bool {
    (network & spec_prefix_mask_v6(prefix)) == (address & spec_prefix_mask_v6(prefix))
}

pub fn prefix_matches_v4(network: u32, address: u32, prefix: u8) -> (res: bool)
    requires
        prefix <= 32,
    ensures
        res == spec_prefix_matches_v4(network, address, prefix),
{
    (network & prefix_mask_v4(prefix)) == (address & prefix_mask_v4(prefix))
}

pub fn prefix_matches_v6(network: u128, address: u128, prefix: u8) -> (res: bool)
    requires
        prefix <= 128,
    ensures
        res == spec_prefix_matches_v6(network, address, prefix),
{
    (network & prefix_mask_v6(prefix)) == (address & prefix_mask_v6(prefix))
}

/// The width in bits of an address of the kind of `a`.
pub open spec fn address_width(a: IpAddress) -> int {
    match a {
        IpAddress::V4(_) => 32,
        IpAddress::V6(_) => 128,
    }
}

/// `a` with every bit after its first `prefix` cleared.
pub open spec fn spec_mask_ip(a: IpAddress, prefix: u8) -> IpAddress {
    match a {
        IpAddress::V4(v) => IpAddress::V4(v & spec_prefix_mask_v4(prefix)),
        IpAddress::V6(v) => IpAddress::V6(v & spec_prefix_mask_v6(prefix)),
    }
}

pub fn mask_ip(address: IpAddress, prefix: u8) -> (res: IpAddress)
    requires
        prefix as int <= address_width(address),
    ensures
        res == spec_mask_ip(address, prefix),
{
    match address {
        IpAddress::V4(v) => IpAddress::V4(v & prefix_mask_v4(prefix)),
        IpAddress::V6(v) => IpAddress::V6(v & prefix_mask_v6(prefix)),
    }
}

/// Whether the block with network `network` and prefix `prefix` holds `a`.
pub open spec fn spec_cidr_contains(network: IpAddress, prefix: u8, a: IpAddress) -> bool {
    match (network, a) {
        (IpAddress::V4(n), IpAddress::V4(x)) => spec_prefix_matches_v4(n, x, prefix),
        (IpAddress::V6(n), IpAddress::V6(x)) => spec_prefix_matches_v6(n, x, prefix),
        _ => false,
    }
}

/// A block of addresses: a network address, whose bits after the prefix
/// are clear, and a prefix no wider than the address.
#[derive(Debug, Clone, Copy, PartialEq, Eq, Structural)]
pub struct IpCidr {
    network: IpAddress,
    prefix: u8,
}

impl IpCidr {
    #[verifier::type_invariant]
    spec fn well_formed(self) -> bool {
        &&& self.prefix as int <= address_width(self.network)
        &&& spec_mask_ip(self.network, self.prefix) == self.network
    }

    pub closed spec fn network_spec(self) -> IpAddress {
        self.network
    }

    pub closed spec fn prefix_spec(self) -> u8 {
        self.prefix
    }

    /// The block of `network`'s first `prefix` bits; refused when the prefix
    /// is wider than the address.
    pub fn new(network: IpAddress, prefix: u8) -> (res: Result<IpCidr, &'static str>)
        ensures
            prefix as int > address_width(network) ==> (res is Err && res->Err_0@
                == "CIDR prefix is outside the address width"@),
            prefix as int <= address_width(network) ==> (res matches Ok(c) && c.network_spec()
                == spec_mask_ip(network, prefix) && c.prefix_spec() == prefix),
    {
        let max: u8 = match network {
            IpAddress::V4(_) => 32,
            IpAddress::V6(_) => 128,
        };
        if prefix > max {
            return Err("CIDR prefix is outside the address width");
        }
        let masked = mask_ip(network, prefix);
        proof {
            match network {
                IpAddress::V4(v) => {
                    let m = spec_prefix_mask_v4(prefix);
                    assert((v & m) & m == v & m) by (bit_vector);
                },
                IpAddress::V6(v) => {
                    let m = spec_prefix_mask_v6(prefix);
                    assert((v & m) & m == v & m) by (bit_vector);
                },
            }
        }
        Ok(IpCidr { network: masked, prefix })
    }

    pub fn network(&self) -> (res: IpAddress)
        ensures
            res == self.network_spec(),
    {
        self.network
    }

    pub fn prefix(&self) -> (res: u8)
        ensures
            res == self.prefix_spec(),
    {
        self.prefix
    }

    /// Whether the block holds `address`; an address of the other kind is
    /// never held.
    pub fn contains(&self, address: IpAddress) -> (res: bool)
        ensures
            res == spec_cidr_contains(self.network_spec(), self.prefix_spec(), address),
    {
        proof {
            use_type_invariant(self);
        }
        match (self.network, address) {
            (IpAddress::V4(n), IpAddress::V4(a)) => prefix_matches_v4(n, a, self.prefix),
            (IpAddress::V6(n), IpAddress::V6(a)) => prefix_matches_v6(n, a, self.prefix),
            _ => false,
        }
    }
}

/// What reading a CIDR block `address/prefix` gives.
pub open spec fn spec_parse_cidr(s: Seq<char>) -> Result<(IpAddress, u8), Seq<char>> {
    let slash = crate::text::find_char(s, '/');
    if slash >= s.len() {
        Err("CIDR must contain a slash"@)
    } else {
        match spec_parse_ip(s.subrange(0, slash)) {
            None => Err("CIDR address is invalid"@),
            Some(a) => match crate::text::spec_parse_u8(s.subrange(slash + 1, s.len() as int)) {
                None => Err("CIDR prefix is invalid"@),
                Some(p) => if p as int > address_width(a) {
                    Err("CIDR prefix is outside the address width"@)
                } else {
                    Ok((spec_mask_ip(a, p), p))
                },
            },
        }
    }
}

impl IpCidr {
    /// Reads a block written `address/prefix`.
    pub fn parse(value: &str) -> (res: Result<IpCidr, &'static str>)
        ensures
            match spec_parse_cidr(value@) {
                Ok((n, p)) => res matches Ok(c) && c.network_spec() == n && c.prefix_spec() == p,
                Err(m) => res matches Err(e) && e@ == m,
            },
    {
        let v = chars_of(value);
        let slash = crate::text::find_char_from(v.as_slice(), 0, '/');
        proof {
            assert(v@.subrange(0, v.len() as int) =~= v@);
        }
        if slash == v.len() {
            return Err("CIDR must contain a slash");
        }
        let address_text = sub_chars(v.as_slice(), 0, slash);
        let prefix_text = sub_chars(v.as_slice(), slash + 1, v.len());
        let address = match parse_ip_chars(address_text.as_slice()) {
            Some(a) => a,
            None => {
                return Err("CIDR address is invalid");
            },
        };
        let prefix = match crate::text::parse_u8(prefix_text.as_slice()) {
            Some(p) => p,
            None => {
                return Err("CIDR prefix is invalid");
            },
        };
        IpCidr::new(address, prefix)
    }
}

/// The view of a list of blocks: each block's network and prefix.
pub open spec fn cidr_views(s: Seq<IpCidr>) -> Seq<(IpAddress, u8)> {
    s.map_values(|c: IpCidr| (c.network_spec(), c.prefix_spec()))
}

/// Whether one of the blocks holds `a`.
pub open spec fn held_by_any(cidrs: Seq<(IpAddress, u8)>, a: IpAddress) -> bool {
    exists|i: int| 0 <= i < cidrs.len() && spec_cidr_contains(cidrs[i].0, cidrs[i].1, a)
}

fn any_contains(cidrs: &[IpCidr], a: IpAddress) -> (res: bool)
    ensures
        res == held_by_any(cidr_views(cidrs@), a),
{
    let ghost cv = cidr_views(cidrs@);
    let mut i: usize = 0;
    while i < cidrs.len()
        invariant
            i <= cidrs.len(),
            cv == cidr_views(cidrs@),
            forall|k: int| 0 <= k < i ==> !spec_cidr_contains(cv[k].0, cv[k].1, a),
        decreases cidrs.len() - i,
    {
        assert(cv[i as int] == (cidrs@[i as int].network_spec(), cidrs@[i as int].prefix_spec()));
        if cidrs[i].contains(a) {
            return true;
        }
        i += 1;
    }
    false
}

/// The last of `addrs` that no block holds.
pub open spec fn last_untrusted(addrs: Seq<IpAddress>, cidrs: Seq<(IpAddress, u8)>) -> Option<
    IpAddress,
>
    decreases addrs.len(),
{
    if addrs.len() == 0 {
        None
    } else if !held_by_any(cidrs, addrs.last()) {
        Some(addrs.last())
    } else {
        last_untrusted(addrs.drop_last(), cidrs)
    }
}

/// The addresses of an `X-Forwarded-For` value, one per comma-separated
/// entry, or `None` when an entry is not an address.
pub open spec fn forwarded_addresses(h: Seq<char>) -> Option<Seq<IpAddress>> {
    let pieces = split_on(h, ',');
    if forall|i: int| 0 <= i < pieces.len() ==> spec_parse_ip(crate::text::trim(#[trigger] pieces[i])) is Some {
        Some(pieces.map_values(|p: Seq<char>| spec_parse_ip(crate::text::trim(p))->0))
    } else {
        None
    }
}

/// The address a request comes from: the peer, unless a trusted proxy
/// forwarded it, in which case the last forwarded address that no trusted
/// block holds, or the first forwarded address when all are trusted. An
/// unreadable forwarding header leaves the peer.
pub open spec fn spec_request_ip(
    forwarded: Option<Seq<char>>,
    direct_peer: Option<IpAddress>,
    cidrs: Seq<(IpAddress, u8)>,
) -> IpAddress {
    let direct = match direct_peer {
        Some(a) => a,
        None => localhost(),
    };
    if !held_by_any(cidrs, direct) {
        direct
    } else {
        match forwarded {
            None => direct,
            Some(h) => match forwarded_addresses(h) {
                None => direct,
                Some(addrs) => if addrs.len() == 0 {
                    direct
                } else {
                    match last_untrusted(addrs, cidrs) {
                        Some(a) => a,
                        None => addrs[0],
                    }
                },
            },
        }
    }
}

/// The address a request comes from, given its `X-Forwarded-For` value
/// (`None` when absent or not visible ASCII), its peer and the trusted
/// proxy blocks.
pub fn request_ip(forwarded: Option<&str>, direct_peer: Option<IpAddress>, trusted_proxies: &[IpCidr]) -> (res: IpAddress)
    ensures
        res == spec_request_ip(
            match forwarded {
                Some(h) => Some(h@),
                None => None,
            },
            direct_peer,
            cidr_views(trusted_proxies@),
        ),
{
    let direct = match direct_peer {
        Some(a) => a,
        None => IpAddress::V4(0x7f00_0001),
    };
    if !any_contains(trusted_proxies, direct) {
        return direct;
    }
    let header = match forwarded {
        Some(h) => h,
        None => {
            return direct;
        },
    };
    let hv = chars_of(header);
    let pieces = split_chars(hv.as_slice(), ',');
    let ghost ps = char_views(pieces@);
    let mut addresses: Vec<IpAddress> = Vec::new();
    let mut i: usize = 0;
    while i < pieces.len()
        invariant
            i <= pieces.len(),
            ps == char_views(pieces@),
            ps == split_on(header@, ','),
            forwarded == Some(header),
            direct == (match direct_peer {
                Some(a) => a,
                None => localhost(),
            }),
            held_by_any(cidr_views(trusted_proxies@), direct),
            forall|k: int| 0 <= k < i ==> spec_parse_ip(crate::text::trim(#[trigger] ps[k])) is Some,
            addresses@ == ps.take(i as int).map_values(
                |p: Seq<char>| spec_parse_ip(crate::text::trim(p))->0,
            ),
        decreases pieces.len() - i,
    {
        assert(ps[i as int] == pieces@[i as int]@);
        let trimmed = crate::text::trim_chars(pieces[i].as_slice());
        let a = match parse_ip_chars(trimmed.as_slice()) {
            Some(a) => a,
            None => {
                assert(spec_parse_ip(crate::text::trim(ps[i as int])) is None);
                return direct;
            },
        };
        addresses.push(a);
        proof {
            assert(ps.take(i + 1) =~= ps.take(i as int).push(ps[i as int]));
            assert(addresses@ =~= ps.take(i + 1).map_values(
                |p: Seq<char>| spec_parse_ip(crate::text::trim(p))->0,
            ));
        }
        i += 1;
    }
    assert(ps.take(ps.len() as int) =~= ps);
    if addresses.len() == 0 {
        return direct;
    }
    let ghost cv = cidr_views(trusted_proxies@);
    let ghost all = addresses@;
    let mut j: usize = addresses.len();
    assert(all.take(j as int) =~= all);
    while j > 0
        invariant
            j <= addresses.len(),
            all == addresses@,
            all.len() > 0,
            forwarded == Some(header),
            forwarded_addresses(header@) == Some(all),
            direct == (match direct_peer {
                Some(a) => a,
                None => localhost(),
            }),
            held_by_any(cidr_views(trusted_proxies@), direct),
            cv == cidr_views(trusted_proxies@),
            last_untrusted(all, cv) == last_untrusted(all.take(j as int), cv),
        decreases j,
    {
        let a = addresses[j - 1];
        proof {
            assert(all.take(j as int).last() == a);
            assert(all.take(j as int).drop_last() =~= all.take(j - 1));
        }
        if !any_contains(trusted_proxies, a) {
            return a;
        }
        j -= 1;
    }
    addresses[0]
}

/// Whether `p` is a port: one or more decimal digits worth at most 65535.
pub open spec fn port_ok(p: Seq<char>) -> bool {
    p.len() > 0 && all_digits(p) && decimal_value(p) <= 65535
}

/// Whether `p` is a scope id: one or more decimal digits that fit in `u32`.
pub open spec fn scope_ok(p: Seq<char>) -> bool {
    p.len() > 0 && all_digits(p) && decimal_value(p) <= 0xffff_ffff
}

/// Whether `SocketAddr::from_str` accepts `s`: `address:port` with an IPv4
/// address, or `[address]:port` or `[address%scope]:port` with an IPv6
/// address.
pub open spec fn spec_socket_addr_ok(s: Seq<char>) -> bool {
    if s.len() > 0 && s[0] == '[' {
        let close = crate::text::find_char(s, ']');
        let inside = s.subrange(1, close);
        let after = s.subrange(close + 1, s.len() as int);
        let pct = crate::text::find_char(inside, '%');
        &&& close < s.len()
        &&& spec_parse_ipv6(inside.subrange(0, pct)) is Some
        &&& (pct < inside.len() ==> scope_ok(inside.subrange(pct + 1, inside.len() as int)))
        &&& after.len() > 0
        &&& after[0] == ':'
        &&& port_ok(after.drop_first())
    } else {
        let colon = crate::text::find_char(s, ':');
        &&& colon < s.len()
        &&& spec_parse_ipv4(s.subrange(0, colon)) is Some
        &&& port_ok(s.subrange(colon + 1, s.len() as int))
    }
}

/// Whether `s` reads as a socket address.
pub fn is_socket_addr(s: &str) -> (res: bool)
    ensures
        res == spec_socket_addr_ok(s@),
{
    let v = chars_of(s);
    proof {
        assert(v@.subrange(0, v.len() as int) =~= v@);
    }
    if v.len() > 0 && v[0] == '[' {
        let close = crate::text::find_char_from(v.as_slice(), 0, ']');
        if close == v.len() {
            return false;
        }
        let inside = sub_chars(v.as_slice(), 1, close);
        let pct = crate::text::find_char_from(inside.as_slice(), 0, '%');
        proof {
            assert(inside@.subrange(0, inside.len() as int) =~= inside@);
        }
        let address = sub_chars(inside.as_slice(), 0, pct);
        if parse_ipv6(address.as_slice()).is_none() {
            return false;
        }
        if pct < inside.len() {
            let scope = sub_chars(inside.as_slice(), pct + 1, inside.len());
            proof {
                assert(scope@.subrange(0, scope.len() as int) =~= scope@);
            }
            if scope.len() == 0 || parse_digits(scope.as_slice(), 0, 0xffff_ffff).is_none() {
                return false;
            }
        }
        if close + 1 >= v.len() || v[close + 1] != ':' {
            return false;
        }
        let port = sub_chars(v.as_slice(), close + 2, v.len());
        proof {
            let after = v@.subrange(close + 1, v.len() as int);
            assert(after[0] == v@[close + 1]);
            assert(after.drop_first() =~= port@);
            assert(port@.subrange(0, port.len() as int) =~= port@);
        }
        port.len() > 0 && parse_digits(port.as_slice(), 0, 65535).is_some()
    } else {
        let colon = crate::text::find_char_from(v.as_slice(), 0, ':');
        if colon == v.len() {
            return false;
        }
        let address = sub_chars(v.as_slice(), 0, colon);
        let port = sub_chars(v.as_slice(), colon + 1, v.len());
        proof {
            assert(port@.subrange(0, port.len() as int) =~= port@);
        }
        parse_ipv4(address.as_slice()).is_some() && port.len() > 0 && parse_digits(
            port.as_slice(),
            0,
            65535,
        ).is_some()
    }
}

/// The trusted proxy blocks of a configuration, or `None` when one does not
/// read as a block.
pub fn trusted_proxies(cidrs: &Vec<String>) -> (res: Option<Vec<IpCidr>>)
    ensures
        (forall|i: int| 0 <= i < cidrs@.len() ==> spec_parse_cidr((#[trigger] cidrs@[i])@) is Ok)
            <==> res is Some,
        res matches Some(v) ==> v@.len() == cidrs@.len() && forall|i: int|
            0 <= i < v@.len() ==> spec_parse_cidr(cidrs@[i]@) == Ok::<(IpAddress, u8), Seq<char>>(
                ((#[trigger] v@[i]).network_spec(), v@[i].prefix_spec()),
            ),
{
    let mut out: Vec<IpCidr> = Vec::new();
    let mut i: usize = 0;
    while i < cidrs.len()
        invariant
            i <= cidrs.len(),
            out@.len() == i,
            forall|k: int| 0 <= k < i ==> spec_parse_cidr((#[trigger] cidrs@[k])@) is Ok,
            forall|k: int|
                0 <= k < i ==> spec_parse_cidr(cidrs@[k]@) == Ok::<(IpAddress, u8), Seq<char>>(
                    ((#[trigger] out@[k]).network_spec(), out@[k].prefix_spec()),
                ),
        decreases cidrs.len() - i,
    {
        match IpCidr::parse(cidrs[i].as_str()) {
            Ok(c) => {
                out.push(c);
            },
            Err(_) => {
                return None;
            },
        }
        i += 1;
    }
    Some(out)
}

proof fn lemma_last_untrusted_position(addrs: Seq<IpAddress>, cidrs: Seq<(IpAddress, u8)>)
    ensures
        last_untrusted(addrs, cidrs) matches Some(a) ==> exists|i: int|
            0 <= i < addrs.len() && a == addrs[i] && !held_by_any(cidrs, addrs[i]) && forall|j: int|
                i < j < addrs.len() ==> held_by_any(cidrs, #[trigger] addrs[j]),
        last_untrusted(addrs, cidrs) is None ==> forall|j: int|
            0 <= j < addrs.len() ==> held_by_any(cidrs, #[trigger] addrs[j]),
    decreases addrs.len(),
{
    if addrs.len() > 0 {
        let t = addrs.drop_last();
        lemma_last_untrusted_position(t, cidrs);
        if held_by_any(cidrs, addrs.last()) {
            if let Some(a) = last_untrusted(t, cidrs) {
                let i = choose|i: int|
                    0 <= i < t.len() && a == t[i] && !held_by_any(cidrs, t[i]) && forall|j: int|
                        i < j < t.len() ==> held_by_any(cidrs, #[trigger] t[j]);
                assert forall|j: int| i < j < addrs.len() implies held_by_any(cidrs, #[trigger] addrs[j]) by {
                    if j < addrs.len() - 1 {
                        assert(addrs[j] == t[j]);
                    }
                }
                assert(addrs[i] == t[i]);
            } else {
                assert forall|j: int| 0 <= j < addrs.len() implies held_by_any(cidrs, #[trigger] addrs[j]) by {
                    if j < addrs.len() - 1 {
                        assert(addrs[j] == t[j]);
                    }
                }
            }
        }
    }
}

/// Behind a trusted proxy, the client is the right-most forwarded address
/// that no trusted block holds: every address after it in the header was
/// added by a trusted proxy, and anything before it is what the client
/// itself wrote and is not believed. When every forwarded address is
/// trusted, the first one is taken.
pub proof fn law_client_is_rightmost_untrusted_forwarded(
    header: Seq<char>,
    peer: IpAddress,
    cidrs: Seq<(IpAddress, u8)>,
    addrs: Seq<IpAddress>,
)
    requires
        held_by_any(cidrs, peer),
        forwarded_addresses(header) == Some(addrs),
        addrs.len() > 0,
    ensures
        ({
            let client = spec_request_ip(Some(header), Some(peer), cidrs);
            ||| exists|i: int|
                0 <= i < addrs.len() && client == addrs[i] && !held_by_any(cidrs, addrs[i]) && forall|j: int|
                    i < j < addrs.len() ==> held_by_any(cidrs, #[trigger] addrs[j])
            ||| (forall|j: int| 0 <= j < addrs.len() ==> held_by_any(cidrs, #[trigger] addrs[j])) && client
                == addrs[0]
        }),
{
    lemma_last_untrusted_position(addrs, cidrs);
}

} // verus!
