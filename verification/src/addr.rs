//! Socket addresses as plain values.
//!
//! The relay keys UDP associations by client socket address and reads
//! addresses out of configuration strings and API paths. An address
//! here is a pair of an IP (v4 as 32 bits, v6 as 128 bits) and a
//! port, so equality and table lookups are purely structural.
//!
//! The textual forms accepted are the dotted-quad IPv4 form
//! `a.b.c.d:port` with strict components (digits only, no redundant
//! leading zeros, octets at most 255, ports at most 65535), and the
//! bracketed IPv6 form `[groups]:port` with one to four hex digits
//! per group and at most one `::` gap.

use vstd::prelude::*;
use crate::text::{
    spec_parse_decimal, spec_find, spec_parse_hex_group, parse_decimal, find_char,
    parse_hex_group,
};

verus! {

/// An IP address held as its numeric value.
#[derive(Debug, Clone, Copy, PartialEq, Eq, Hash, Structural)]
pub enum IpAddr {
    V4(u32),
    V6(u128),
}

/// A socket address: IP and port.
#[derive(Debug, Clone, Copy, PartialEq, Eq, Hash, Structural)]
pub struct SockAddr {
    pub ip: IpAddr,
    pub port: u16,
}

/// A dotted-quad IPv4 address: four strict decimal octets joined by
/// dots, read into one 32-bit value, most significant octet first.
pub open spec fn spec_parse_ipv4(s: Seq<char>) -> Option<u32> {
    match spec_find(s, '.') {
        None => None,
        Some(i) => {
            let rest1 = s.skip(i + 1);
            match spec_find(rest1, '.') {
                None => None,
                Some(j) => {
                    let rest2 = rest1.skip(j + 1);
                    match spec_find(rest2, '.') {
                        None => None,
                        Some(k) => {
                            let a = spec_parse_decimal(s.take(i), 255);
                            let b = spec_parse_decimal(rest1.take(j), 255);
                            let c = spec_parse_decimal(rest2.take(k), 255);
                            let d = spec_parse_decimal(rest2.skip(k + 1), 255);
                            if a is Some && b is Some && c is Some && d is Some {
                                Some(
                                    (a->0 * 0x1000000 + b->0 * 0x10000 + c->0 * 0x100 + d->0)
                                        as u32,
                                )
                            } else {
                                None
                            }
                        },
                    }
                },
            }
        },
    }
}

/// A socket address string: `ipv4:port`, or `[ipv6]:port`.
pub open spec fn spec_parse_sock_addr(s: Seq<char>) -> Option<SockAddr> {
    if s.len() > 0 && s[0] == '[' {
        match spec_find(s, ']') {
            None => None,
            Some(j) => {
                if j + 1 < s.len() && s[j + 1] == ':' {
                    let ip = spec_parse_ipv6(s.subrange(1, j));
                    let port = spec_parse_decimal(s.skip(j + 2), 65535);
                    if ip is Some && port is Some {
                        Some(SockAddr { ip: IpAddr::V6(ip->0), port: port->0 as u16 })
                    } else {
                        None
                    }
                } else {
                    None
                }
            },
        }
    } else {
        match spec_find(s, ':') {
            None => None,
            Some(i) => {
                let ip = spec_parse_ipv4(s.take(i));
                let port = spec_parse_decimal(s.skip(i + 1), 65535);
                if ip is Some && port is Some {
                    Some(SockAddr { ip: IpAddr::V4(ip->0), port: port->0 as u16 })
                } else {
                    None
                }
            },
        }
    }
}

/// The colon-separated segments of `s` (an empty `s` gives one empty
/// segment, as splitting does).
pub open spec fn spec_split_colon(s: Seq<char>) -> Seq<Seq<char>>
    decreases s.len(),
    via spec_split_colon_decreases
{
    match spec_find(s, ':') {
        None => seq![s],
        Some(i) => seq![s.take(i)] + spec_split_colon(s.skip(i + 1)),
    }
}

#[via_fn]
proof fn spec_split_colon_decreases(s: Seq<char>) {
    crate::text::lemma_find_characterization(s, ':');
}

/// The views of a list of owned segments.
pub open spec fn spec_views(ss: Seq<String>) -> Seq<Seq<char>> {
    ss.map_values(|p: String| p@)
}

/// Index of the first `::` in `s`, if any.
pub open spec fn spec_find_double_colon(s: Seq<char>) -> Option<int>
    decreases s.len(),
{
    if s.len() < 2 {
        None
    } else if s[0] == ':' && s[1] == ':' {
        Some(0)
    } else {
        match spec_find_double_colon(s.drop_first()) {
            None => None,
            Some(i) => Some(i + 1),
        }
    }
}

/// What [`spec_find_double_colon`] returns: the least index where
/// two colons stand together.
pub proof fn lemma_find_double_colon_characterization(s: Seq<char>)
    ensures
        match spec_find_double_colon(s) {
            Some(i) => 0 <= i < s.len() - 1 && s[i] == ':' && s[i + 1] == ':' && forall|j: int|
                0 <= j < i ==> !((#[trigger] s[j]) == ':' && s[j + 1] == ':'),
            None => forall|j: int| 0 <= j < s.len() - 1 ==> !((#[trigger] s[j]) == ':' && s[j + 1]
                == ':'),
        },
    decreases s.len(),
{
    if s.len() >= 2 && !(s[0] == ':' && s[1] == ':') {
        let t = s.drop_first();
        lemma_find_double_colon_characterization(t);
        match spec_find_double_colon(t) {
            Some(i) => {
                assert(s[i + 1] == t[i] && s[i + 2] == t[i + 1]);
                assert forall|j: int| 0 <= j < i + 1 implies !((#[trigger] s[j]) == ':' && s[j + 1] == ':') by {
                    if j > 0 {
                        assert(t[j - 1] == s[j] && t[j] == s[j + 1]);
                    }
                }
            },
            None => {
                assert forall|j: int| 0 <= j < s.len() - 1 implies !((#[trigger] s[j]) == ':' && s[j
                    + 1] == ':') by {
                    if j > 0 {
                        assert(t[j - 1] == s[j] && t[j] == s[j + 1]);
                    }
                }
            },
        }
    }
}

/// The first double-colon position pins [`spec_find_double_colon`]
/// down.
pub proof fn lemma_find_double_colon_unique(s: Seq<char>, i: int)
    requires
        0 <= i < s.len() - 1,
        s[i] == ':' && s[i + 1] == ':',
        forall|j: int| 0 <= j < i ==> !((#[trigger] s[j]) == ':' && s[j + 1] == ':'),
    ensures
        spec_find_double_colon(s) == Some(i),
{
    lemma_find_double_colon_characterization(s);
    match spec_find_double_colon(s) {
        Some(k) => {
            if k < i {
                assert(!(s[k] == ':' && s[k + 1] == ':'));
            } else if k > i {
                assert(!(s[i] == ':' && s[i + 1] == ':'));
            }
        },
        None => {
            assert(!(s[i] == ':' && s[i + 1] == ':'));
        },
    }
}

/// Every segment is a readable IPv6 group.
pub open spec fn spec_groups_ok(gs: Seq<Seq<char>>) -> bool {
    forall|i: int| 0 <= i < gs.len() ==> spec_parse_hex_group(#[trigger] gs[i]) is Some
}

/// The numeric values of the groups.
pub open spec fn spec_group_values(gs: Seq<Seq<char>>) -> Seq<int> {
    gs.map_values(|g: Seq<char>| spec_parse_hex_group(g)->0)
}

/// `n` zero groups, standing for a `::` gap.
pub open spec fn spec_zero_groups(n: int) -> Seq<int> {
    Seq::new(n as nat, |i: int| 0)
}

/// Group values packed most-significant first, sixteen bits each.
pub open spec fn spec_groups_value(vs: Seq<int>) -> int
    decreases vs.len(),
{
    if vs.len() == 0 {
        0
    } else {
        spec_groups_value(vs.drop_last()) * 0x10000 + vs.last()
    }
}

/// Sixty-five-thousand-five-hundred-thirty-six to the `n`: the range
/// of `n` packed groups.
pub open spec fn spec_pow65536(n: int) -> int
    decreases n,
{
    if n <= 0 {
        1
    } else {
        0x10000 * spec_pow65536(n - 1)
    }
}

proof fn lemma_pow65536_pos(n: int)
    ensures
        spec_pow65536(n) >= 1,
    decreases n,
{
    if n > 0 {
        lemma_pow65536_pos(n - 1);
    }
}

/// Packed group values stay within their width.
pub proof fn lemma_groups_value_bound(vs: Seq<int>)
    requires
        forall|i: int| 0 <= i < vs.len() ==> 0 <= #[trigger] vs[i] < 0x10000,
    ensures
        0 <= spec_groups_value(vs) < spec_pow65536(vs.len() as int),
    decreases vs.len(),
{
    lemma_pow65536_pos(vs.len() as int);
    if vs.len() > 0 {
        let t = vs.drop_last();
        lemma_groups_value_bound(t);
        assert(spec_groups_value(t) * 0x10000 + vs.last() < spec_pow65536(t.len() as int)
            * 0x10000) by (nonlinear_arith)
            requires
                spec_groups_value(t) < spec_pow65536(t.len() as int),
                spec_groups_value(t) >= 0,
                0 <= vs.last() < 0x10000,
        ;
    }
}

/// A textual IPv6 address: eight hex groups separated by colons, or
/// fewer with one `::` standing for the missing zero groups.
pub open spec fn spec_parse_ipv6(s: Seq<char>) -> Option<u128> {
    match spec_find_double_colon(s) {
        None => {
            let gs = spec_split_colon(s);
            if gs.len() == 8 && spec_groups_ok(gs) {
                Some(spec_groups_value(spec_group_values(gs)) as u128)
            } else {
                None
            }
        },
        Some(i) => {
            let lg = if i == 0 {
                Seq::<Seq<char>>::empty()
            } else {
                spec_split_colon(s.take(i))
            };
            let rest = s.skip(i + 2);
            let rg = if rest.len() == 0 {
                Seq::<Seq<char>>::empty()
            } else {
                spec_split_colon(rest)
            };
            if spec_groups_ok(lg) && spec_groups_ok(rg) && lg.len() + rg.len() <= 7 {
                let vs = spec_group_values(lg) + spec_zero_groups(8 - lg.len() - rg.len())
                    + spec_group_values(rg);
                Some(spec_groups_value(vs) as u128)
            } else {
                None
            }
        },
    }
}

/// Split on colons; see [`spec_split_colon`].
fn split_colon(s: &str) -> (r: Vec<String>)
    ensures
        spec_views(r@) == spec_split_colon(s@),
    decreases s@.len(),
{
    match find_char(s, ':') {
        None => {
            let mut one: Vec<String> = Vec::new();
            one.push(String::from_str(s));
            proof {
                assert(spec_views(one@) =~= seq![s@]);
            }
            one
        },
        Some(i) => {
            let n = s.unicode_len();
            let head = s.substring_char(0, i);
            let tail = s.substring_char(i + 1, n);
            proof {
                assert(head@ =~= s@.take(i as int));
                assert(tail@ =~= s@.skip(i + 1));
                assert(tail@.len() < s@.len());
            }
            let mut out: Vec<String> = Vec::new();
            out.push(String::from_str(head));
            let mut rest = split_colon(tail);
            let ghost rest_views = spec_views(rest@);
            out.append(&mut rest);
            proof {
                assert(spec_views(out@) =~= seq![s@.take(i as int)] + rest_views);
            }
            out
        },
    }
}

/// Read every segment as a hex group; see [`spec_groups_ok`].
fn parse_groups(parts: &Vec<String>) -> (r: Option<Vec<u16>>)
    ensures
        match r {
            Some(vs) => spec_groups_ok(spec_views(parts@)) && vs@.len() == parts@.len() && forall|
                i: int,
            |
                0 <= i < vs@.len() ==> #[trigger] vs@[i] as int == spec_group_values(
                    spec_views(parts@),
                )[i],
            None => !spec_groups_ok(spec_views(parts@)),
        },
{
    let n = parts.len();
    let mut vs: Vec<u16> = Vec::new();
    let mut i: usize = 0;
    while i < n
        invariant
            0 <= i <= n,
            n == parts@.len(),
            vs@.len() == i,
            forall|j: int|
                0 <= j < i ==> spec_parse_hex_group(#[trigger] spec_views(parts@)[j]) is Some,
            forall|j: int|
                0 <= j < i ==> #[trigger] vs@[j] as int == spec_group_values(
                    spec_views(parts@),
                )[j],
        decreases n - i,
    {
        match parse_hex_group(parts[i].as_str()) {
            Some(v) => {
                vs.push(v);
            },
            None => {
                proof {
                    assert(spec_parse_hex_group(spec_views(parts@)[i as int]) is None);
                }
                return None;
            },
        }
        i = i + 1;
    }
    Some(vs)
}

/// The values a `u16` group list stands for.
pub open spec fn spec_u16_values(vs: Seq<u16>) -> Seq<int> {
    vs.map_values(|v: u16| v as int)
}

/// Pack left groups, a zero gap, and right groups into one 128-bit
/// value; see [`spec_groups_value`].
fn pack_groups(left: &Vec<u16>, zeros: usize, right: &Vec<u16>) -> (r: u128)
    requires
        left@.len() + zeros + right@.len() == 8,
    ensures
        r == spec_groups_value(
            spec_u16_values(left@) + spec_zero_groups(zeros as int) + spec_u16_values(right@),
        ),
{
    let ghost all = spec_u16_values(left@) + spec_zero_groups(zeros as int) + spec_u16_values(
        right@,
    );
    proof {
        assert(all.len() == 8);
        assert forall|i: int| 0 <= i < all.len() implies 0 <= #[trigger] all[i] < 0x10000 by {
            if i < left@.len() {
                assert(all[i] == left@[i] as int);
            } else if i < left@.len() + zeros {
                assert(all[i] == 0);
            } else {
                assert(all[i] == right@[i - left@.len() - zeros] as int);
            }
        }
    }
    let mut acc: u128 = 0;
    let ghost mut pos: int = 0;
    let mut i: usize = 0;
    let nl = left.len();
    while i < nl
        invariant
            0 <= i <= nl,
            nl == left@.len(),
            left@.len() + zeros + right@.len() == 8,
            pos == i,
            all == spec_u16_values(left@) + spec_zero_groups(zeros as int) + spec_u16_values(
                right@,
            ),
            all.len() == 8,
            forall|k: int| 0 <= k < all.len() ==> 0 <= #[trigger] all[k] < 0x10000,
            acc == spec_groups_value(all.take(pos)),
            acc < spec_pow65536(pos),
        decreases nl - i,
    {
        proof {
            assert(all.take(pos + 1).drop_last() =~= all.take(pos));
            assert(all.take(pos + 1).last() == all[pos]);
            assert(all[pos] == left@[pos] as int);
            lemma_pack_step(acc as int, all[pos], pos);
        }
        acc = acc * 0x10000 + (left[i] as u128);
        i = i + 1;
        proof {
            pos = pos + 1;
        }
    }
    let mut z: usize = 0;
    while z < zeros
        invariant
            0 <= z <= zeros,
            nl == left@.len(),
            left@.len() + zeros + right@.len() == 8,
            pos == nl + z,
            all == spec_u16_values(left@) + spec_zero_groups(zeros as int) + spec_u16_values(
                right@,
            ),
            all.len() == 8,
            forall|k: int| 0 <= k < all.len() ==> 0 <= #[trigger] all[k] < 0x10000,
            acc == spec_groups_value(all.take(pos)),
            acc < spec_pow65536(pos),
        decreases zeros - z,
    {
        proof {
            assert(all.take(pos + 1).drop_last() =~= all.take(pos));
            assert(all.take(pos + 1).last() == all[pos]);
            assert(all[pos] == 0);
            lemma_pack_step(acc as int, all[pos], pos);
        }
        acc = acc * 0x10000;
        z = z + 1;
        proof {
            pos = pos + 1;
        }
    }
    let nr = right.len();
    let mut j: usize = 0;
    while j < nr
        invariant
            0 <= j <= nr,
            nr == right@.len(),
            nl == left@.len(),
            left@.len() + zeros + right@.len() == 8,
            pos == nl + zeros + j,
            all == spec_u16_values(left@) + spec_zero_groups(zeros as int) + spec_u16_values(
                right@,
            ),
            all.len() == 8,
            forall|k: int| 0 <= k < all.len() ==> 0 <= #[trigger] all[k] < 0x10000,
            acc == spec_groups_value(all.take(pos)),
            acc < spec_pow65536(pos),
        decreases nr - j,
    {
        proof {
            assert(all.take(pos + 1).drop_last() =~= all.take(pos));
            assert(all.take(pos + 1).last() == all[pos]);
            assert(all[pos] == right@[j as int] as int);
            lemma_pack_step(acc as int, all[pos], pos);
        }
        acc = acc * 0x10000 + (right[j] as u128);
        j = j + 1;
        proof {
            pos = pos + 1;
        }
    }
    proof {
        assert(all.take(8) =~= all);
    }
    acc
}

/// One packing step stays in range.
proof fn lemma_pack_step(acc: int, v: int, pos: int)
    requires
        0 <= pos <= 7,
        0 <= acc < spec_pow65536(pos),
        0 <= v < 0x10000,
    ensures
        0 <= acc * 0x10000 + v < spec_pow65536(pos + 1),
        acc * 0x10000 + v < 0x100000000000000000000000000000000,
{
    assert(acc * 0x10000 + v < spec_pow65536(pos) * 0x10000) by (nonlinear_arith)
        requires
            0 <= acc < spec_pow65536(pos),
            0 <= v < 0x10000,
            spec_pow65536(pos) >= 1,
    {
        lemma_pow65536_pos(pos);
    }
    lemma_pow65536_le(pos + 1, 8);
    assert(spec_pow65536(8) == 0x100000000000000000000000000000000) by {
        assert(spec_pow65536(0) == 1);
        assert(spec_pow65536(1) == 0x10000);
        assert(spec_pow65536(2) == 0x100000000);
        assert(spec_pow65536(3) == 0x1000000000000);
        assert(spec_pow65536(4) == 0x10000000000000000);
        assert(spec_pow65536(5) == 0x100000000000000000000);
        assert(spec_pow65536(6) == 0x1000000000000000000000000);
        assert(spec_pow65536(7) == 0x10000000000000000000000000000);
    }
    assert(acc * 0x10000 >= 0) by (nonlinear_arith)
        requires
            acc >= 0,
    ;
}

proof fn lemma_pow65536_le(a: int, b: int)
    requires
        a <= b,
    ensures
        spec_pow65536(a) <= spec_pow65536(b),
    decreases b - a,
{
    lemma_pow65536_pos(a);
    if a < b {
        lemma_pow65536_le(a, b - 1);
        lemma_pow65536_pos(b - 1);
        if b > 0 {
            assert(spec_pow65536(b) == 0x10000 * spec_pow65536(b - 1));
        }
    }
}

/// Parse a textual IPv6 address; see [`spec_parse_ipv6`].
pub fn parse_ipv6(s: &str) -> (r: Option<u128>)
    ensures
        r == spec_parse_ipv6(s@),
{
    let n = s.unicode_len();
    let dc = find_double_colon(s);
    match dc {
        None => {
            let parts = split_colon(s);
            if parts.len() != 8 {
                return None;
            }
            match parse_groups(&parts) {
                None => None,
                Some(vs) => {
                    let empty: Vec<u16> = Vec::new();
                    let r = pack_groups(&vs, 0, &empty);
                    proof {
                        let gs = spec_split_colon(s@);
                        assert(spec_u16_values(vs@) + spec_zero_groups(0) + spec_u16_values(
                            empty@,
                        ) =~= spec_group_values(gs));
                        lemma_groups_value_bound(spec_group_values(gs));
                    }
                    Some(r)
                },
            }
        },
        Some(i) => {
            let left = s.substring_char(0, i);
            let right = s.substring_char(i + 2, n);
            proof {
                assert(left@ =~= s@.take(i as int));
                assert(right@ =~= s@.skip(i + 2));
            }
            let lparts: Vec<String> = if left.unicode_len() == 0 {
                Vec::new()
            } else {
                split_colon(left)
            };
            let rparts: Vec<String> = if right.unicode_len() == 0 {
                Vec::new()
            } else {
                split_colon(right)
            };
            proof {
                if left@.len() == 0 {
                    assert(spec_views(lparts@) =~= Seq::<Seq<char>>::empty());
                }
                if right@.len() == 0 {
                    assert(spec_views(rparts@) =~= Seq::<Seq<char>>::empty());
                }
            }
            let lv = match parse_groups(&lparts) {
                None => {
                    return None;
                },
                Some(lv) => lv,
            };
            let rv = match parse_groups(&rparts) {
                None => {
                    return None;
                },
                Some(rv) => rv,
            };
            if lv.len() > 7 || rv.len() > 7 - lv.len() {
                return None;
            }
            let zeros = 8 - lv.len() - rv.len();
            let r = pack_groups(&lv, zeros, &rv);
            proof {
                let lg = spec_views(lparts@);
                let rg = spec_views(rparts@);
                let vs = spec_group_values(lg) + spec_zero_groups(8 - lg.len() - rg.len())
                    + spec_group_values(rg);
                assert(spec_u16_values(lv@) + spec_zero_groups(zeros as int) + spec_u16_values(
                    rv@,
                ) =~= vs);
                assert forall|k: int| 0 <= k < vs.len() implies 0 <= #[trigger] vs[k]
                    < 0x10000 by {
                    if k < lg.len() {
                        assert(vs[k] == lv@[k] as int);
                    } else if k < lg.len() + (8 - lg.len() - rg.len()) {
                        assert(vs[k] == 0);
                    } else {
                        assert(vs[k] == rv@[k - lg.len() - (8 - lg.len() - rg.len())] as int);
                    }
                }
                lemma_groups_value_bound(vs);
            }
            Some(r)
        },
    }
}

/// First `::` in `s`, as [`spec_find_double_colon`] defines it.
fn find_double_colon(s: &str) -> (r: Option<usize>)
    ensures
        match r {
            Some(i) => i + 1 < s@.len() && spec_find_double_colon(s@) == Some(i as int),
            None => spec_find_double_colon(s@) is None,
        },
{
    let n = s.unicode_len();
    if n < 2 {
        proof {
            lemma_find_double_colon_characterization(s@);
        }
        return None;
    }
    let mut i: usize = 0;
    while i < n - 1
        invariant
            0 <= i <= n - 1,
            n == s@.len(),
            n >= 2,
            forall|j: int| 0 <= j < i ==> !((#[trigger] s@[j]) == ':' && s@[j + 1] == ':'),
        decreases n - i,
    {
        if s.get_char(i) == ':' && s.get_char(i + 1) == ':' {
            proof {
                lemma_find_double_colon_unique(s@, i as int);
            }
            return Some(i);
        }
        i = i + 1;
    }
    proof {
        lemma_find_double_colon_characterization(s@);
        if spec_find_double_colon(s@) is Some {
            let k = spec_find_double_colon(s@)->0;
            assert(!(s@[k] == ':' && s@[k + 1] == ':'));
        }
    }
    None
}

/// Parse a dotted-quad IPv4 address; see [`spec_parse_ipv4`].
pub fn parse_ipv4(s: &str) -> (r: Option<u32>)
    ensures
        r == spec_parse_ipv4(s@),
{
    let n = s.unicode_len();
    let i = match find_char(s, '.') {
        None => {
            return None;
        },
        Some(i) => i,
    };
    let rest1 = s.substring_char(i + 1, n);
    let n1 = rest1.unicode_len();
    let j = match find_char(rest1, '.') {
        None => {
            return None;
        },
        Some(j) => j,
    };
    let rest2 = rest1.substring_char(j + 1, n1);
    let n2 = rest2.unicode_len();
    let k = match find_char(rest2, '.') {
        None => {
            return None;
        },
        Some(k) => k,
    };
    let a = parse_decimal(s.substring_char(0, i), 255);
    let b = parse_decimal(rest1.substring_char(0, j), 255);
    let c = parse_decimal(rest2.substring_char(0, k), 255);
    let d = parse_decimal(rest2.substring_char(k + 1, n2), 255);
    proof {
        assert(s@.take(i as int) =~= s@.subrange(0, i as int));
        assert(rest1@.take(j as int) =~= rest1@.subrange(0, j as int));
        assert(rest2@.take(k as int) =~= rest2@.subrange(0, k as int));
        assert(rest1@ =~= s@.skip(i + 1));
        assert(rest2@ =~= rest1@.skip(j + 1));
        assert(rest2@.skip(k + 1) =~= rest2@.subrange(k + 1, n2 as int));
    }
    match (a, b, c, d) {
        (Some(a), Some(b), Some(c), Some(d)) => {
            let v: u32 = (a as u32) * 0x1000000 + (b as u32) * 0x10000 + (c as u32) * 0x100 + (
            d as u32);
            Some(v)
        },
        _ => None,
    }
}

/// Parse `ipv4:port` or `[ipv6]:port`; see
/// [`spec_parse_sock_addr`].
pub fn parse_sock_addr(s: &str) -> (r: Option<SockAddr>)
    ensures
        r == spec_parse_sock_addr(s@),
{
    let n = s.unicode_len();
    if n > 0 && s.get_char(0) == '[' {
        let j = match find_char(s, ']') {
            None => {
                return None;
            },
            Some(j) => j,
        };
        if j + 1 >= n || s.get_char(j + 1) != ':' {
            return None;
        }
        let inner = s.substring_char(1, j);
        let port_text = s.substring_char(j + 2, n);
        proof {
            assert(inner@ =~= s@.subrange(1, j as int));
            assert(port_text@ =~= s@.skip(j + 2));
        }
        let ip = parse_ipv6(inner);
        let port = parse_decimal(port_text, 65535);
        return match (ip, port) {
            (Some(ip), Some(port)) => Some(SockAddr { ip: IpAddr::V6(ip), port: port as u16 }),
            _ => None,
        };
    }
    let i = match find_char(s, ':') {
        None => {
            return None;
        },
        Some(i) => i,
    };
    let ip = parse_ipv4(s.substring_char(0, i));
    let port = parse_decimal(s.substring_char(i + 1, n), 65535);
    proof {
        assert(s@.take(i as int) =~= s@.subrange(0, i as int));
        assert(s@.skip(i + 1) =~= s@.subrange(i + 1, n as int));
    }
    match (ip, port) {
        (Some(ip), Some(port)) => Some(SockAddr { ip: IpAddr::V4(ip), port: port as u16 }),
        _ => None,
    }
}

} // verus!
