//! Network addresses: dotted-decimal IPv4, colon-grouped IPv6, and an
//! address-with-prefix pair whose prefix is bounded by the address family.

use vstd::prelude::*;

use crate::text::{
    all_digits, all_hex, contains_lit, contains_seq, dec_value, digit_char, digit_val, find_char,
    find_char_from, find_from, find_lit_from, hex_val, hex_value, is_digit_char, is_hex_char,
    is_digit_dot_char, lemma_all_class_concat, lemma_find_char_exact, lemma_find_char_from,
    lemma_find_from, lemma_split_char_prepend, lemma_split_char_whole, matches_at, split_char_all,
    split_char_from,
};
use crate::mac::{hex_digit_char, lemma_hex_digit_char};

verus! {

/// A 4-byte IPv4 address.
#[derive(Debug, Clone, Copy, PartialEq, Eq)]
pub struct V4Addr {
    pub o0: u8,
    pub o1: u8,
    pub o2: u8,
    pub o3: u8,
}

/// An 8-group IPv6 address.
#[derive(Debug, Clone, Copy, PartialEq, Eq)]
pub struct V6Addr {
    pub g0: u16,
    pub g1: u16,
    pub g2: u16,
    pub g3: u16,
    pub g4: u16,
    pub g5: u16,
    pub g6: u16,
    pub g7: u16,
}

/// An IP address of either family.
#[derive(Debug, Clone, Copy, PartialEq, Eq)]
pub enum IpAddress {
    V4(V4Addr),
    V6(V6Addr),
}

// ---------------------------------------------------------------------------
// Digit-run values
// ---------------------------------------------------------------------------

pub proof fn lemma_dec_value_take_step(t: Seq<char>, i: int)
    requires
        0 <= i < t.len(),
    ensures
        dec_value(t.take(i + 1)) == dec_value(t.take(i)) * 10 + digit_val(t[i]),
{
    assert(t.take(i + 1).drop_last() =~= t.take(i));
    assert(t.take(i + 1).last() == t[i]);
}

pub proof fn lemma_hex_value_take_step(t: Seq<char>, i: int)
    requires
        0 <= i < t.len(),
    ensures
        hex_value(t.take(i + 1)) == hex_value(t.take(i)) * 16 + hex_val(t[i]),
{
    assert(t.take(i + 1).drop_last() =~= t.take(i));
    assert(t.take(i + 1).last() == t[i]);
}

pub proof fn lemma_dec_value_bound(t: Seq<char>)
    requires
        all_digits(t),
        t.len() <= 3,
    ensures
        0 <= dec_value(t),
        t.len() <= 1 ==> dec_value(t) < 10,
        t.len() <= 2 ==> dec_value(t) < 100,
        dec_value(t) < 1000,
    decreases t.len(),
{
    if t.len() > 0 {
        assert(all_digits(t.drop_last())) by {
            assert(forall|i: int| 0 <= i < t.len() - 1 ==> t.drop_last()[i] == t[i]);
        }
        lemma_dec_value_bound(t.drop_last());
    }
}

pub proof fn lemma_hex_value_bound(t: Seq<char>)
    requires
        all_hex(t),
        t.len() <= 4,
    ensures
        0 <= hex_value(t),
        t.len() <= 1 ==> hex_value(t) < 0x10,
        t.len() <= 2 ==> hex_value(t) < 0x100,
        t.len() <= 3 ==> hex_value(t) < 0x1000,
        hex_value(t) < 0x10000,
    decreases t.len(),
{
    if t.len() > 0 {
        assert(all_hex(t.drop_last())) by {
            assert(forall|i: int| 0 <= i < t.len() - 1 ==> t.drop_last()[i] == t[i]);
        }
        lemma_hex_value_bound(t.drop_last());
    }
}

// ---------------------------------------------------------------------------
// IPv4
// ---------------------------------------------------------------------------

/// One octet of a dotted-decimal address: one to three digits, no leading
/// zero, value at most 255.
pub open spec fn is_octet_text(t: Seq<char>) -> bool {
    1 <= t.len() <= 3 && all_digits(t) && (t.len() > 1 ==> t[0] != '0') && dec_value(t) <= 255
}

/// What parsing a dotted-decimal IPv4 text yields.
pub open spec fn parse_ipv4_text(t: Seq<char>) -> Option<V4Addr> {
    let parts = split_char_from(t, '.', 0);
    if parts.len() == 4 && (forall|i: int| 0 <= i < 4 ==> is_octet_text(#[trigger] parts[i])) {
        Some(
            V4Addr {
                o0: dec_value(parts[0]) as u8,
                o1: dec_value(parts[1]) as u8,
                o2: dec_value(parts[2]) as u8,
                o3: dec_value(parts[3]) as u8,
            },
        )
    } else {
        None
    }
}

fn parse_octet(part: &str) -> (r: Option<u8>)
    ensures
        match r {
            Some(b) => is_octet_text(part@) && b as int == dec_value(part@),
            None => !is_octet_text(part@),
        },
{
    let n = part.unicode_len();
    if n < 1 || n > 3 {
        return None;
    }
    let mut acc: u32 = 0;
    let mut i: usize = 0;
    while i < n
        invariant
            0 <= i <= n,
            1 <= n <= 3,
            n == part@.len(),
            all_digits(part@.take(i as int)),
            acc as int == dec_value(part@.take(i as int)),
            acc < 1000,
        decreases n - i,
    {
        let c = part.get_char(i);
        if !digit_char(c) {
            assert(!all_digits(part@)) by {
                assert(!is_digit_char(part@[i as int]));
            }
            return None;
        }
        proof {
            lemma_dec_value_take_step(part@, i as int);
            lemma_dec_value_bound(part@.take(i as int));
        }
        acc = acc * 10 + ((c as u32) - ('0' as u32));
        i = i + 1;
        proof {
            assert(all_digits(part@.take(i as int)));
            lemma_dec_value_bound(part@.take(i as int));
        }
    }
    proof {
        assert(part@.take(n as int) =~= part@);
    }
    if n > 1 && part.get_char(0) == '0' {
        return None;
    }
    if acc > 255 {
        return None;
    }
    Some(acc as u8)
}

fn parse_ipv4(value: &str) -> (r: Option<V4Addr>)
    ensures
        r == parse_ipv4_text(value@),
{
    let parts = split_char_all(value, '.');
    proof {
        assert(parts.deep_view().len() == parts@.len());
    }
    if parts.len() != 4 {
        return None;
    }
    proof {
        assert(forall|i: int| 0 <= i < 4 ==> parts.deep_view()[i] == parts@[i]@);
    }
    let g0 = parse_octet(parts[0].as_str());
    let g1 = parse_octet(parts[1].as_str());
    let g2 = parse_octet(parts[2].as_str());
    let g3 = parse_octet(parts[3].as_str());
    match (g0, g1, g2, g3) {
        (Some(o0), Some(o1), Some(o2), Some(o3)) => Some(V4Addr { o0, o1, o2, o3 }),
        _ => None,
    }
}

// ---------------------------------------------------------------------------
// IPv6
// ---------------------------------------------------------------------------

/// One colon-separated group of an IPv6 address: one to four hex digits.
pub open spec fn is_group_text(t: Seq<char>) -> bool {
    1 <= t.len() <= 4 && all_hex(t)
}

pub open spec fn all_groups(parts: Seq<Seq<char>>) -> bool {
    forall|i: int| 0 <= i < parts.len() ==> is_group_text(#[trigger] parts[i])
}

/// The group at position `i` of the full 8-group form, where `l` are the
/// groups before a gap, `r` those after it, and the gap holds zeros.
pub open spec fn fill_group(l: Seq<u16>, r: Seq<u16>, i: int) -> u16 {
    if i < l.len() {
        l[i]
    } else if i >= 8 - r.len() {
        r[i - (8 - r.len())]
    } else {
        0
    }
}

pub open spec fn v6_of(l: Seq<u16>, r: Seq<u16>) -> V6Addr {
    V6Addr {
        g0: fill_group(l, r, 0),
        g1: fill_group(l, r, 1),
        g2: fill_group(l, r, 2),
        g3: fill_group(l, r, 3),
        g4: fill_group(l, r, 4),
        g5: fill_group(l, r, 5),
        g6: fill_group(l, r, 6),
        g7: fill_group(l, r, 7),
    }
}

pub open spec fn group_values(parts: Seq<Seq<char>>) -> Seq<u16> {
    parts.map_values(|p: Seq<char>| hex_value(p) as u16)
}

pub open spec fn gap() -> Seq<char> {
    seq![':', ':']
}

/// The two groups an embedded dotted quad stands for: the final 32 bits.
pub open spec fn quad_groups(a: V4Addr) -> Seq<u16> {
    seq![
        ((a.o0 as int) * 256 + (a.o1 as int)) as u16,
        ((a.o2 as int) * 256 + (a.o3 as int)) as u16,
    ]
}

pub open spec fn has_dot(p: Seq<char>) -> bool {
    exists|i: int| 0 <= i < p.len() && p[i] == '.'
}

/// The groups a run of colon-separated pieces denotes: hex groups
/// throughout, or hex groups ending in one embedded dotted quad (a piece
/// holding a dot must be the last and read as a dotted-decimal address,
/// standing for two groups).
pub open spec fn pieces_groups(parts: Seq<Seq<char>>) -> Option<Seq<u16>> {
    if parts.len() >= 1 && has_dot(parts.last()) {
        if all_groups(parts.drop_last()) && parse_ipv4_text(parts.last()) is Some {
            Some(
                group_values(parts.drop_last()) + quad_groups(
                    parse_ipv4_text(parts.last()).unwrap(),
                ),
            )
        } else {
            None
        }
    } else {
        if all_groups(parts) {
            Some(group_values(parts))
        } else {
            None
        }
    }
}

/// What parsing an IPv6 text yields: eight groups — hex, or ending in an
/// embedded dotted quad — or fewer with one `::` gap standing for at
/// least one zero group; with a gap, the quad may only end the right part.
pub open spec fn parse_ipv6_text(t: Seq<char>) -> Option<V6Addr> {
    let d = find_from(t, gap(), 0);
    if d < 0 {
        let parts = split_char_from(t, ':', 0);
        match pieces_groups(parts) {
            Some(gs) => if gs.len() == 8 {
                Some(v6_of(gs, Seq::empty()))
            } else {
                None
            },
            None => None,
        }
    } else {
        let left = t.subrange(0, d);
        let right = t.subrange(d + 2, t.len() as int);
        if contains_seq(right, gap()) {
            None
        } else {
            let pl = if left.len() == 0 {
                Seq::<Seq<char>>::empty()
            } else {
                split_char_from(left, ':', 0)
            };
            let pr = if right.len() == 0 {
                Seq::<Seq<char>>::empty()
            } else {
                split_char_from(right, ':', 0)
            };
            match pieces_groups(pr) {
                Some(gr) => if all_groups(pl) && pl.len() + gr.len() <= 7 {
                    Some(v6_of(group_values(pl), gr))
                } else {
                    None
                },
                None => None,
            }
        }
    }
}

fn str_has_dot(s: &str) -> (b: bool)
    ensures
        b == has_dot(s@),
{
    proof {
        lemma_find_char_from(s@, '.', 0);
    }
    match find_char(s, '.', 0) {
        Some(k) => {
            assert(s@[k as int] == '.');
            true
        },
        None => {
            assert(!has_dot(s@));
            false
        },
    }
}

fn parse_hex_group(part: &str) -> (r: Option<u16>)
    ensures
        match r {
            Some(v) => is_group_text(part@) && v as int == hex_value(part@),
            None => !is_group_text(part@),
        },
{
    let n = part.unicode_len();
    if n < 1 || n > 4 {
        return None;
    }
    let mut acc: u32 = 0;
    let mut i: usize = 0;
    while i < n
        invariant
            0 <= i <= n,
            1 <= n <= 4,
            n == part@.len(),
            all_hex(part@.take(i as int)),
            acc as int == hex_value(part@.take(i as int)),
            acc < 0x10000,
        decreases n - i,
    {
        let c = part.get_char(i);
        let v = match crate::mac::hex_digit_value(c) {
            Some(v) => v,
            None => {
                assert(!all_hex(part@)) by {
                    assert(!is_hex_char(part@[i as int]));
                }
                return None;
            },
        };
        proof {
            lemma_hex_value_take_step(part@, i as int);
            lemma_hex_value_bound(part@.take(i as int));
        }
        acc = acc * 16 + (v as u32);
        i = i + 1;
        proof {
            assert(all_hex(part@.take(i as int)));
            lemma_hex_value_bound(part@.take(i as int));
        }
    }
    proof {
        assert(part@.take(n as int) =~= part@);
    }
    Some(acc as u16)
}

fn parse_groups_upto(parts: &Vec<String>, end: usize) -> (r: Option<Vec<u16>>)
    requires
        end <= parts@.len(),
    ensures
        match r {
            Some(v) => all_groups(parts.deep_view().take(end as int)) && v@ == group_values(
                parts.deep_view().take(end as int),
            ),
            None => !all_groups(parts.deep_view().take(end as int)),
        },
{
    let mut out: Vec<u16> = Vec::new();
    let mut i: usize = 0;
    proof {
        assert(parts.deep_view().len() == parts@.len());
        assert(forall|k: int|
            0 <= k < parts@.len() ==> parts.deep_view()[k] == #[trigger] parts@[k]@);
    }
    while i < end
        invariant
            0 <= i <= end <= parts@.len(),
            parts.deep_view().len() == parts@.len(),
            forall|k: int| 0 <= k < parts@.len() ==> parts.deep_view()[k] == #[trigger] parts@[k]@,
            out@.len() == i,
            forall|k: int| 0 <= k < i ==> is_group_text(#[trigger] parts.deep_view()[k]),
            forall|k: int|
                0 <= k < i ==> #[trigger] out@[k] as int == hex_value(parts.deep_view()[k]),
        decreases end - i,
    {
        match parse_hex_group(parts[i].as_str()) {
            Some(v) => {
                out.push(v);
            },
            None => {
                proof {
                    assert(parts.deep_view().take(end as int)[i as int] == parts.deep_view()[
                        i as int
                    ]);
                }
                return None;
            },
        }
        i = i + 1;
    }
    proof {
        assert(forall|k: int|
            0 <= k < end ==> parts.deep_view().take(end as int)[k] == #[trigger] parts.deep_view()[
                k
            ]);
        assert(out@ =~= group_values(parts.deep_view().take(end as int)));
    }
    Some(out)
}

/// The groups of a run of pieces, embedded dotted quad included.
fn pieces_to_groups(parts: &Vec<String>) -> (r: Option<Vec<u16>>)
    ensures
        match r {
            Some(v) => pieces_groups(parts.deep_view()) == Some(v@),
            None => pieces_groups(parts.deep_view()) is None,
        },
{
    let np = parts.len();
    let ghost dv = parts.deep_view();
    proof {
        assert(dv.len() == parts@.len());
        assert(forall|k: int| 0 <= k < parts@.len() ==> dv[k] == #[trigger] parts@[k]@);
    }
    if np >= 1 && str_has_dot(parts[np - 1].as_str()) {
        proof {
            assert(dv.last() == parts@[np - 1]@);
            assert(dv.drop_last() =~= dv.take(np - 1));
        }
        let head = match parse_groups_upto(parts, np - 1) {
            Some(head) => head,
            None => {
                return None;
            },
        };
        match parse_ipv4(parts[np - 1].as_str()) {
            Some(a) => {
                let mut out = head;
                out.push((a.o0 as u16) * 256 + (a.o1 as u16));
                out.push((a.o2 as u16) * 256 + (a.o3 as u16));
                proof {
                    assert(out@ =~= group_values(dv.drop_last()) + quad_groups(a));
                }
                Some(out)
            },
            None => None,
        }
    } else {
        proof {
            if np >= 1 {
                assert(dv.last() == parts@[np - 1]@);
            }
            assert(dv.take(np as int) =~= dv);
        }
        parse_groups_upto(parts, np)
    }
}

fn fill_group_of(l: &Vec<u16>, r: &Vec<u16>, i: usize) -> (g: u16)
    requires
        l@.len() + r@.len() <= 8,
        i < 8,
    ensures
        g == fill_group(l@, r@, i as int),
{
    if i < l.len() {
        l[i]
    } else if i >= 8 - r.len() {
        r[i - (8 - r.len())]
    } else {
        0
    }
}

fn v6_from_parts(l: &Vec<u16>, r: &Vec<u16>) -> (a: V6Addr)
    requires
        l@.len() + r@.len() <= 8,
    ensures
        a == v6_of(l@, r@),
{
    V6Addr {
        g0: fill_group_of(l, r, 0),
        g1: fill_group_of(l, r, 1),
        g2: fill_group_of(l, r, 2),
        g3: fill_group_of(l, r, 3),
        g4: fill_group_of(l, r, 4),
        g5: fill_group_of(l, r, 5),
        g6: fill_group_of(l, r, 6),
        g7: fill_group_of(l, r, 7),
    }
}

fn parse_ipv6(value: &str) -> (r: Option<V6Addr>)
    ensures
        r == parse_ipv6_text(value@),
{
    proof {
        reveal_strlit("::");
        assert("::"@ =~= gap());
    }
    let n = value.unicode_len();
    match find_lit_from(value, "::", 0) {
        None => {
            let parts = split_char_all(value, ':');
            let vals = match pieces_to_groups(&parts) {
                Some(vals) => vals,
                None => {
                    return None;
                },
            };
            if vals.len() != 8 {
                return None;
            }
            let empty: Vec<u16> = Vec::new();
            proof {
                assert(empty@ =~= Seq::<u16>::empty());
            }
            Some(v6_from_parts(&vals, &empty))
        },
        Some(d) => {
            let left = value.substring_char(0, d);
            let right = value.substring_char(d + 2, n);
            if contains_lit(right, "::") {
                return None;
            }
            let pl = if left.unicode_len() == 0 {
                Vec::new()
            } else {
                split_char_all(left, ':')
            };
            let pr = if right.unicode_len() == 0 {
                Vec::new()
            } else {
                split_char_all(right, ':')
            };
            proof {
                assert(pl.deep_view().len() == pl@.len());
                assert(pr.deep_view().len() == pr@.len());
                if left@.len() == 0 {
                    assert(pl.deep_view() =~= Seq::<Seq<char>>::empty());
                }
                if right@.len() == 0 {
                    assert(pr.deep_view() =~= Seq::<Seq<char>>::empty());
                }
            }
            let rv = match pieces_to_groups(&pr) {
                Some(rv) => rv,
                None => {
                    return None;
                },
            };
            let lv = match parse_groups_upto(&pl, pl.len()) {
                Some(lv) => lv,
                None => {
                    proof {
                        assert(pl.deep_view().take(pl@.len() as int) =~= pl.deep_view());
                    }
                    return None;
                },
            };
            proof {
                assert(pl.deep_view().take(pl@.len() as int) =~= pl.deep_view());
            }
            if pl.len() > 7 || rv.len() > 7 || pl.len() + rv.len() > 7 {
                return None;
            }
            Some(v6_from_parts(&lv, &rv))
        },
    }
}

/// What parsing a bare address text yields: the dotted-decimal reading where
/// it applies, else the IPv6 reading.
pub open spec fn parse_ip_addr_text(t: Seq<char>) -> Option<IpAddress> {
    if parse_ipv4_text(t) is Some {
        Some(IpAddress::V4(parse_ipv4_text(t).unwrap()))
    } else if parse_ipv6_text(t) is Some {
        Some(IpAddress::V6(parse_ipv6_text(t).unwrap()))
    } else {
        None
    }
}

pub fn parse_ip_addr(value: &str) -> (r: Option<IpAddress>)
    ensures
        r == parse_ip_addr_text(value@),
{
    match parse_ipv4(value) {
        Some(a) => Some(IpAddress::V4(a)),
        None => match parse_ipv6(value) {
            Some(a) => Some(IpAddress::V6(a)),
            None => None,
        },
    }
}

// ---------------------------------------------------------------------------
// Prefix lengths and masks
// ---------------------------------------------------------------------------

/// The digits of a prefix-length text, after the optional leading plus
/// sign that an unsigned decimal parse accepts.
pub open spec fn prefix_digits(t: Seq<char>) -> Seq<char> {
    if t.len() >= 1 && t[0] == '+' {
        t.subrange(1, t.len() as int)
    } else {
        t
    }
}

/// A prefix-length text, as an unsigned byte parse accepts it: an optional
/// plus sign, then decimal digits whose value fits in a byte.
pub open spec fn is_prefix_text(t: Seq<char>) -> bool {
    let d = prefix_digits(t);
    d.len() >= 1 && all_digits(d) && dec_value(d) <= 255
}

/// The value a prefix-length text denotes.
pub open spec fn prefix_value(t: Seq<char>) -> int {
    dec_value(prefix_digits(t))
}

/// Parse a decimal prefix length; a leading plus sign and leading zeros
/// are allowed, values above 255 are rejected.
pub fn parse_prefix(part: &str) -> (r: Option<u8>)
    ensures
        match r {
            Some(b) => is_prefix_text(part@) && b as int == prefix_value(part@),
            None => !is_prefix_text(part@),
        },
{
    let n = part.unicode_len();
    let start: usize = if n >= 1 && part.get_char(0) == '+' {
        1
    } else {
        0
    };
    let ghost d = prefix_digits(part@);
    proof {
        assert(d =~= part@.subrange(start as int, n as int));
    }
    if start >= n {
        return None;
    }
    let mut acc: u32 = 0;
    let mut i: usize = start;
    while i < n
        invariant
            start <= i <= n,
            start < n,
            n == part@.len(),
            d == prefix_digits(part@),
            d == part@.subrange(start as int, n as int),
            all_digits(d.take(i - start)),
            (acc as int == dec_value(d.take(i - start)) && acc <= 255) || (acc == 300
                && dec_value(d.take(i - start)) > 255),
        decreases n - i,
    {
        let c = part.get_char(i);
        if !digit_char(c) {
            proof {
                assert(d[i - start] == part@[i as int]);
                assert(!is_digit_char(d[i - start]));
                assert(!all_digits(d));
            }
            return None;
        }
        proof {
            assert(d[i - start] == part@[i as int]);
            lemma_dec_value_take_step(d, i - start);
        }
        if acc > 255 {
            acc = 300;
        } else {
            acc = acc * 10 + ((c as u32) - ('0' as u32));
            if acc > 255 {
                acc = 300;
            }
        }
        i = i + 1;
    }
    proof {
        assert(d.take(n - start) =~= d);
    }
    if acc > 255 {
        None
    } else {
        Some(acc as u8)
    }
}

/// The number of set bits in a byte.
pub open spec fn bit_count(b: u8) -> int {
    ((b >> 0u8) & 1) as int + ((b >> 1u8) & 1) as int + ((b >> 2u8) & 1) as int + ((b >> 3u8)
        & 1) as int + ((b >> 4u8) & 1) as int + ((b >> 5u8) & 1) as int + ((b >> 6u8) & 1) as int
        + ((b >> 7u8) & 1) as int
}

pub proof fn lemma_bit_count_bound(b: u8)
    ensures
        0 <= bit_count(b) <= 8,
{
    assert((b >> 0u8) & 1 <= 1) by (bit_vector);
    assert((b >> 1u8) & 1 <= 1) by (bit_vector);
    assert((b >> 2u8) & 1 <= 1) by (bit_vector);
    assert((b >> 3u8) & 1 <= 1) by (bit_vector);
    assert((b >> 4u8) & 1 <= 1) by (bit_vector);
    assert((b >> 5u8) & 1 <= 1) by (bit_vector);
    assert((b >> 6u8) & 1 <= 1) by (bit_vector);
    assert((b >> 7u8) & 1 <= 1) by (bit_vector);
}

/// The total popcount of the four octets of a dotted-decimal mask.
pub open spec fn mask_prefix_length(m: V4Addr) -> int {
    bit_count(m.o0) + bit_count(m.o1) + bit_count(m.o2) + bit_count(m.o3)
}

fn bit_count_of(b: u8) -> (r: u8)
    ensures
        r as int == bit_count(b),
{
    proof {
        lemma_bit_count_bound(b);
        assert((b >> 0u8) & 1 <= 1) by (bit_vector);
        assert((b >> 1u8) & 1 <= 1) by (bit_vector);
        assert((b >> 2u8) & 1 <= 1) by (bit_vector);
        assert((b >> 3u8) & 1 <= 1) by (bit_vector);
        assert((b >> 4u8) & 1 <= 1) by (bit_vector);
        assert((b >> 5u8) & 1 <= 1) by (bit_vector);
        assert((b >> 6u8) & 1 <= 1) by (bit_vector);
        assert((b >> 7u8) & 1 <= 1) by (bit_vector);
    }
    ((b >> 0u8) & 1) + ((b >> 1u8) & 1) + ((b >> 2u8) & 1) + ((b >> 3u8) & 1) + ((b >> 4u8) & 1)
        + ((b >> 5u8) & 1) + ((b >> 6u8) & 1) + ((b >> 7u8) & 1)
}

// ---------------------------------------------------------------------------
// CIDR: an address with a prefix length
// ---------------------------------------------------------------------------

/// An IP address paired with a prefix length, bounded by the address family.
#[derive(Debug, Clone, Copy, PartialEq, Eq)]
pub struct CIDR(pub IpAddress, pub u8);

impl CIDR {
    /// The prefix length is within the range of the address family.
    pub open spec fn well_formed(self) -> bool {
        match self.0 {
            IpAddress::V4(_) => self.1 <= 32,
            IpAddress::V6(_) => self.1 <= 128,
        }
    }

    /// Pair an address with the prefix length derived from a dotted-decimal
    /// mask: the total popcount of the mask's four octets.
    pub fn new(ip: IpAddress, mask: V4Addr) -> (r: CIDR)
        ensures
            r.0 == ip,
            r.1 as int == mask_prefix_length(mask),
            r.well_formed(),
    {
        proof {
            lemma_bit_count_bound(mask.o0);
            lemma_bit_count_bound(mask.o1);
            lemma_bit_count_bound(mask.o2);
            lemma_bit_count_bound(mask.o3);
        }
        CIDR(
            ip,
            bit_count_of(mask.o0) + bit_count_of(mask.o1) + bit_count_of(mask.o2) + bit_count_of(
                mask.o3,
            ),
        )
    }
}

/// What parsing an address-with-prefix text yields: an address text and a
/// prefix text joined by a single slash, both well formed, the prefix within
/// the range of the address family.
pub open spec fn parse_cidr_text(t: Seq<char>) -> Option<CIDR> {
    let sl = find_char_from(t, '/', 0);
    if sl < 0 || find_char_from(t, '/', sl + 1) >= 0 {
        None
    } else {
        let addr = t.subrange(0, sl);
        let ptext = t.subrange(sl + 1, t.len() as int);
        match parse_ip_addr_text(addr) {
            None => None,
            Some(ip) => {
                if is_prefix_text(ptext) {
                    let p = prefix_value(ptext);
                    match ip {
                        IpAddress::V4(_) => if p <= 32 {
                            Some(CIDR(ip, p as u8))
                        } else {
                            None
                        },
                        IpAddress::V6(_) => if p <= 128 {
                            Some(CIDR(ip, p as u8))
                        } else {
                            None
                        },
                    }
                } else {
                    None
                }
            },
        }
    }
}

impl CIDR {
    /// Parse the `address/prefix` form.
    pub fn try_from(value: &str) -> (r: Option<CIDR>)
        ensures
            r == parse_cidr_text(value@),
            r is Some ==> r.unwrap().well_formed(),
    {
        let n = value.unicode_len();
        let sl = match find_char(value, '/', 0) {
            None => {
                return None;
            },
            Some(sl) => sl,
        };
        match find_char(value, '/', sl + 1) {
            Some(_) => {
                return None;
            },
            None => {},
        }
        let addr = value.substring_char(0, sl);
        let ptext = value.substring_char(sl + 1, n);
        let ip = match parse_ip_addr(addr) {
            None => {
                return None;
            },
            Some(ip) => ip,
        };
        let p = match parse_prefix(ptext) {
            None => {
                return None;
            },
            Some(p) => p,
        };
        match ip {
            IpAddress::V4(_) => if p <= 32 {
                Some(CIDR(ip, p))
            } else {
                None
            },
            IpAddress::V6(_) => if p <= 128 {
                Some(CIDR(ip, p))
            } else {
                None
            },
        }
    }
}


// ---------------------------------------------------------------------------
// Formatting
// ---------------------------------------------------------------------------

/// Decimal text of a byte value: one to three digits, no leading zeros.
pub open spec fn dec_byte_text(n: int) -> Seq<char> {
    if n < 10 {
        seq![hex_digit_char(n)]
    } else if n < 100 {
        seq![hex_digit_char(n / 10), hex_digit_char(n % 10)]
    } else {
        seq![hex_digit_char(n / 100), hex_digit_char((n / 10) % 10), hex_digit_char(n % 10)]
    }
}

/// Lowercase hex text of a group value: one to four digits, no leading
/// zeros.
pub open spec fn hex_group_text(n: int) -> Seq<char> {
    if n < 0x10 {
        seq![hex_digit_char(n)]
    } else if n < 0x100 {
        seq![hex_digit_char(n / 16), hex_digit_char(n % 16)]
    } else if n < 0x1000 {
        seq![hex_digit_char(n / 256), hex_digit_char((n / 16) % 16), hex_digit_char(n % 16)]
    } else {
        seq![
            hex_digit_char(n / 4096),
            hex_digit_char((n / 256) % 16),
            hex_digit_char((n / 16) % 16),
            hex_digit_char(n % 16),
        ]
    }
}

/// The dotted-decimal text of an IPv4 address.
pub open spec fn v4_text(a: V4Addr) -> Seq<char> {
    dec_byte_text(a.o0 as int) + seq!['.'] + dec_byte_text(a.o1 as int) + seq!['.']
        + dec_byte_text(a.o2 as int) + seq!['.'] + dec_byte_text(a.o3 as int)
}

/// The eight-group lowercase hex text of an IPv6 address, uncompressed.
pub open spec fn v6_text(a: V6Addr) -> Seq<char> {
    hex_group_text(a.g0 as int) + seq![':'] + hex_group_text(a.g1 as int) + seq![':']
        + hex_group_text(a.g2 as int) + seq![':'] + hex_group_text(a.g3 as int) + seq![':']
        + hex_group_text(a.g4 as int) + seq![':'] + hex_group_text(a.g5 as int) + seq![':']
        + hex_group_text(a.g6 as int) + seq![':'] + hex_group_text(a.g7 as int)
}

pub open spec fn addr_text(ip: IpAddress) -> Seq<char> {
    match ip {
        IpAddress::V4(a) => v4_text(a),
        IpAddress::V6(a) => v6_text(a),
    }
}

/// The `address/prefix` text of an address-with-prefix pair.
pub open spec fn cidr_text(c: CIDR) -> Seq<char> {
    addr_text(c.0) + seq!['/'] + dec_byte_text(c.1 as int)
}

fn push_dec_byte(out: &mut String, b: u8)
    ensures
        final(out)@ == old(out)@ + dec_byte_text(b as int),
{
    if b < 10 {
        out.append(crate::mac::hex_digit_str(b));
    } else if b < 100 {
        out.append(crate::mac::hex_digit_str(b / 10));
        out.append(crate::mac::hex_digit_str(b % 10));
    } else {
        out.append(crate::mac::hex_digit_str(b / 100));
        out.append(crate::mac::hex_digit_str((b / 10) % 10));
        out.append(crate::mac::hex_digit_str(b % 10));
    }
    proof {
        assert(final(out)@ =~= old(out)@ + dec_byte_text(b as int));
    }
}

fn push_hex_group(out: &mut String, g: u16)
    ensures
        final(out)@ == old(out)@ + hex_group_text(g as int),
{
    if g < 0x10 {
        out.append(crate::mac::hex_digit_str(g as u8));
    } else if g < 0x100 {
        out.append(crate::mac::hex_digit_str((g / 16) as u8));
        out.append(crate::mac::hex_digit_str((g % 16) as u8));
    } else if g < 0x1000 {
        out.append(crate::mac::hex_digit_str((g / 256) as u8));
        out.append(crate::mac::hex_digit_str(((g / 16) % 16) as u8));
        out.append(crate::mac::hex_digit_str((g % 16) as u8));
    } else {
        out.append(crate::mac::hex_digit_str((g / 4096) as u8));
        out.append(crate::mac::hex_digit_str(((g / 256) % 16) as u8));
        out.append(crate::mac::hex_digit_str(((g / 16) % 16) as u8));
        out.append(crate::mac::hex_digit_str((g % 16) as u8));
    }
    proof {
        assert(final(out)@ =~= old(out)@ + hex_group_text(g as int));
    }
}

fn push_v4_text(out: &mut String, a: &V4Addr)
    ensures
        final(out)@ == old(out)@ + v4_text(*a),
{
    proof {
        reveal_strlit(".");
        assert("."@ =~= seq!['.']);
    }
    push_dec_byte(out, a.o0);
    out.append(".");
    push_dec_byte(out, a.o1);
    out.append(".");
    push_dec_byte(out, a.o2);
    out.append(".");
    push_dec_byte(out, a.o3);
    proof {
        assert(final(out)@ =~= old(out)@ + v4_text(*a));
    }
}

fn push_v6_text(out: &mut String, a: &V6Addr)
    ensures
        final(out)@ == old(out)@ + v6_text(*a),
{
    proof {
        reveal_strlit(":");
        assert(":"@ =~= seq![':']);
    }
    push_hex_group(out, a.g0);
    out.append(":");
    push_hex_group(out, a.g1);
    out.append(":");
    push_hex_group(out, a.g2);
    out.append(":");
    push_hex_group(out, a.g3);
    out.append(":");
    push_hex_group(out, a.g4);
    out.append(":");
    push_hex_group(out, a.g5);
    out.append(":");
    push_hex_group(out, a.g6);
    out.append(":");
    push_hex_group(out, a.g7);
    proof {
        assert(final(out)@ =~= old(out)@ + v6_text(*a));
    }
}

impl CIDR {
    /// The `address/prefix` text of this pair: dotted decimal for IPv4,
    /// eight uncompressed lowercase hex groups for IPv6.
    pub fn format(&self) -> (r: String)
        ensures
            r@ == cidr_text(*self),
    {
        let mut out = String::new();
        match &self.0 {
            IpAddress::V4(a) => {
                push_v4_text(&mut out, a);
            },
            IpAddress::V6(a) => {
                push_v6_text(&mut out, a);
            },
        }
        out.append("/");
        push_dec_byte(&mut out, self.1);
        proof {
            reveal_strlit("/");
            assert(out@ =~= cidr_text(*self));
        }
        out
    }
}


// ---------------------------------------------------------------------------
// Formatting round-trips
// ---------------------------------------------------------------------------

proof fn lemma_dec_value_small(x: char, y: char, z: char)
    ensures
        dec_value(seq![x]) == digit_val(x),
        dec_value(seq![x, y]) == digit_val(x) * 10 + digit_val(y),
        dec_value(seq![x, y, z]) == (digit_val(x) * 10 + digit_val(y)) * 10 + digit_val(z),
{
    reveal_with_fuel(dec_value, 4);
    assert(dec_value(Seq::<char>::empty()) == 0);
    assert(seq![x].drop_last() =~= Seq::<char>::empty());
    assert(seq![x].last() == x);
    assert(seq![x, y].drop_last() =~= seq![x]);
    assert(seq![x, y].last() == y);
    assert(seq![x, y, z].drop_last() =~= seq![x, y]);
    assert(seq![x, y, z].last() == z);
}

proof fn lemma_hex_value_small(x: char, y: char, z: char, w: char)
    ensures
        hex_value(seq![x]) == hex_val(x),
        hex_value(seq![x, y]) == hex_val(x) * 16 + hex_val(y),
        hex_value(seq![x, y, z]) == (hex_val(x) * 16 + hex_val(y)) * 16 + hex_val(z),
        hex_value(seq![x, y, z, w]) == ((hex_val(x) * 16 + hex_val(y)) * 16 + hex_val(z)) * 16
            + hex_val(w),
{
    reveal_with_fuel(hex_value, 5);
    assert(hex_value(Seq::<char>::empty()) == 0);
    assert(seq![x].drop_last() =~= Seq::<char>::empty());
    assert(seq![x].last() == x);
    assert(seq![x, y].drop_last() =~= seq![x]);
    assert(seq![x, y].last() == y);
    assert(seq![x, y, z].drop_last() =~= seq![x, y]);
    assert(seq![x, y, z].last() == z);
    assert(seq![x, y, z, w].drop_last() =~= seq![x, y, z]);
    assert(seq![x, y, z, w].last() == w);
}

proof fn lemma_dec_byte_text(n: int)
    requires
        0 <= n <= 255,
    ensures
        is_octet_text(dec_byte_text(n)),
        dec_value(dec_byte_text(n)) == n,
        forall|i: int|
            0 <= i < dec_byte_text(n).len() ==> is_digit_char(#[trigger] dec_byte_text(n)[i]),
{
    let t = dec_byte_text(n);
    if n < 10 {
        lemma_hex_digit_char(n);
        lemma_dec_value_small(t[0], t[0], t[0]);
    } else if n < 100 {
        lemma_hex_digit_char(n / 10);
        lemma_hex_digit_char(n % 10);
        lemma_dec_value_small(t[0], t[1], t[1]);
    } else {
        lemma_hex_digit_char(n / 100);
        lemma_hex_digit_char((n / 10) % 10);
        lemma_hex_digit_char(n % 10);
        lemma_dec_value_small(t[0], t[1], t[2]);
    }
}

proof fn lemma_hex_group_text(n: int)
    requires
        0 <= n < 0x10000,
    ensures
        is_group_text(hex_group_text(n)),
        hex_value(hex_group_text(n)) == n,
        forall|i: int|
            0 <= i < hex_group_text(n).len() ==> is_hex_char(#[trigger] hex_group_text(n)[i]),
{
    let t = hex_group_text(n);
    if n < 0x10 {
        lemma_hex_digit_char(n);
        lemma_hex_value_small(t[0], t[0], t[0], t[0]);
    } else if n < 0x100 {
        lemma_hex_digit_char(n / 16);
        lemma_hex_digit_char(n % 16);
        lemma_hex_value_small(t[0], t[1], t[1], t[1]);
    } else if n < 0x1000 {
        lemma_hex_digit_char(n / 256);
        lemma_hex_digit_char((n / 16) % 16);
        lemma_hex_digit_char(n % 16);
        lemma_hex_value_small(t[0], t[1], t[2], t[2]);
    } else {
        lemma_hex_digit_char(n / 4096);
        lemma_hex_digit_char((n / 256) % 16);
        lemma_hex_digit_char((n / 16) % 16);
        lemma_hex_digit_char(n % 16);
        lemma_hex_value_small(t[0], t[1], t[2], t[3]);
    }
}

#[verifier::rlimit(80)]
#[verifier::spinoff_prover]
proof fn lemma_v4_text_parses(a: V4Addr)
    ensures
        parse_ipv4_text(v4_text(a)) == Some(a),
        forall|i: int|
            0 <= i < v4_text(a).len() ==> is_digit_dot_char(#[trigger] v4_text(a)[i]),
{
    let t0 = dec_byte_text(a.o0 as int);
    let t1 = dec_byte_text(a.o1 as int);
    let t2 = dec_byte_text(a.o2 as int);
    let t3 = dec_byte_text(a.o3 as int);
    lemma_dec_byte_text(a.o0 as int);
    lemma_dec_byte_text(a.o1 as int);
    lemma_dec_byte_text(a.o2 as int);
    lemma_dec_byte_text(a.o3 as int);
    let t = v4_text(a);
    let rest1 = t2 + seq!['.'] + t3;
    let rest0 = t1 + seq!['.'] + rest1;
    assert(t =~= t0 + seq!['.'] + rest0);
    lemma_split_char_prepend(t0, '.', rest0);
    lemma_split_char_prepend(t1, '.', rest1);
    lemma_split_char_prepend(t2, '.', t3);
    lemma_split_char_whole(t3, '.');
    let parts = split_char_from(t, '.', 0);
    assert(parts =~= seq![t0, t1, t2, t3]);
    assert(forall|i: int| 0 <= i < 4 ==> is_octet_text(#[trigger] parts[i]));
    assert(parse_ipv4_text(t) == Some(
        V4Addr {
            o0: dec_value(t0) as u8,
            o1: dec_value(t1) as u8,
            o2: dec_value(t2) as u8,
            o3: dec_value(t3) as u8,
        },
    ));
    let dd = |c: char| is_digit_dot_char(c);
    assert(forall|i: int| 0 <= i < seq!['.'].len() ==> dd(#[trigger] seq!['.'][i]));
    assert(forall|i: int| 0 <= i < t0.len() ==> dd(#[trigger] t0[i]));
    assert(forall|i: int| 0 <= i < t1.len() ==> dd(#[trigger] t1[i]));
    assert(forall|i: int| 0 <= i < t2.len() ==> dd(#[trigger] t2[i]));
    assert(forall|i: int| 0 <= i < t3.len() ==> dd(#[trigger] t3[i]));
    lemma_all_class_concat(t0, seq!['.'], dd);
    lemma_all_class_concat(t0 + seq!['.'], t1, dd);
    lemma_all_class_concat(t0 + seq!['.'] + t1, seq!['.'], dd);
    lemma_all_class_concat(t0 + seq!['.'] + t1 + seq!['.'], t2, dd);
    lemma_all_class_concat(t0 + seq!['.'] + t1 + seq!['.'] + t2, seq!['.'], dd);
    lemma_all_class_concat(t0 + seq!['.'] + t1 + seq!['.'] + t2 + seq!['.'], t3, dd);
    assert(forall|i: int| 0 <= i < t.len() ==> dd(#[trigger] t[i]));
}


proof fn lemma_gap_free_prepend(h: Seq<char>, rest: Seq<char>)
    requires
        h.len() >= 1,
        forall|i: int| 0 <= i < h.len() ==> h[i] != ':',
        rest.len() >= 1,
        rest[0] != ':',
        forall|k: int| 0 <= k < rest.len() - 1 ==> !(#[trigger] rest[k] == ':' && rest[k + 1] == ':'),
    ensures
        (h + seq![':'] + rest).len() >= 1,
        (h + seq![':'] + rest)[0] != ':',
        forall|k: int|
            0 <= k < (h + seq![':'] + rest).len() - 1 ==> !(#[trigger] (h + seq![':'] + rest)[k]
                == ':' && (h + seq![':'] + rest)[k + 1] == ':'),
{
    let t = h + seq![':'] + rest;
    assert forall|k: int| 0 <= k < t.len() - 1 implies !(#[trigger] t[k] == ':' && t[k + 1]
        == ':') by {
        if k + 1 < h.len() {
            assert(t[k] == h[k]);
        } else if k + 1 == h.len() {
            assert(t[k] == h[k]);
        } else if k == h.len() {
            assert(t[k + 1] == rest[0]);
        } else {
            assert(t[k] == rest[k - h.len() - 1]);
            assert(t[k + 1] == rest[k - h.len()]);
        }
    }
}

proof fn lemma_gap_free_no_find(t: Seq<char>)
    requires
        forall|k: int| 0 <= k < t.len() - 1 ==> !(#[trigger] t[k] == ':' && t[k + 1] == ':'),
    ensures
        find_from(t, gap(), 0) == -1,
{
    lemma_find_from(t, gap(), 0);
    let f = find_from(t, gap(), 0);
    if f >= 0 {
        assert(matches_at(t, f, gap()));
        assert(t.subrange(f, f + gap().len()) == gap());
        assert(t[f] == t.subrange(f, f + gap().len())[0]);
        assert(t[f + 1] == t.subrange(f, f + gap().len())[1]);
        assert(false);
    }
}

/// The class of characters an IPv6 text holds: hex digits and colons.
pub open spec fn is_hex_colon_char(c: char) -> bool {
    is_hex_char(c) || c == ':'
}

#[verifier::rlimit(100)]
#[verifier::spinoff_prover]
proof fn lemma_v6_text_chars(a: V6Addr)
    ensures
        forall|i: int|
            0 <= i < v6_text(a).len() ==> is_hex_colon_char(#[trigger] v6_text(a)[i]),
{
    let h0 = hex_group_text(a.g0 as int);
    let h1 = hex_group_text(a.g1 as int);
    let h2 = hex_group_text(a.g2 as int);
    let h3 = hex_group_text(a.g3 as int);
    let h4 = hex_group_text(a.g4 as int);
    let h5 = hex_group_text(a.g5 as int);
    let h6 = hex_group_text(a.g6 as int);
    let h7 = hex_group_text(a.g7 as int);
    lemma_hex_group_text(a.g0 as int);
    lemma_hex_group_text(a.g1 as int);
    lemma_hex_group_text(a.g2 as int);
    lemma_hex_group_text(a.g3 as int);
    lemma_hex_group_text(a.g4 as int);
    lemma_hex_group_text(a.g5 as int);
    lemma_hex_group_text(a.g6 as int);
    lemma_hex_group_text(a.g7 as int);
    let hc = |c: char| is_hex_colon_char(c);
    assert(forall|i: int| 0 <= i < seq![':'].len() ==> hc(#[trigger] seq![':'][i]));
    lemma_all_class_concat(h0, seq![':'], hc);
    lemma_all_class_concat(h0 + seq![':'], h1, hc);
    lemma_all_class_concat(h0 + seq![':'] + h1, seq![':'], hc);
    lemma_all_class_concat(h0 + seq![':'] + h1 + seq![':'], h2, hc);
    lemma_all_class_concat(h0 + seq![':'] + h1 + seq![':'] + h2, seq![':'], hc);
    lemma_all_class_concat(h0 + seq![':'] + h1 + seq![':'] + h2 + seq![':'], h3, hc);
    lemma_all_class_concat(h0 + seq![':'] + h1 + seq![':'] + h2 + seq![':'] + h3, seq![':'], hc);
    lemma_all_class_concat(
        h0 + seq![':'] + h1 + seq![':'] + h2 + seq![':'] + h3 + seq![':'],
        h4,
        hc,
    );
    lemma_all_class_concat(
        h0 + seq![':'] + h1 + seq![':'] + h2 + seq![':'] + h3 + seq![':'] + h4,
        seq![':'],
        hc,
    );
    lemma_all_class_concat(
        h0 + seq![':'] + h1 + seq![':'] + h2 + seq![':'] + h3 + seq![':'] + h4 + seq![':'],
        h5,
        hc,
    );
    lemma_all_class_concat(
        h0 + seq![':'] + h1 + seq![':'] + h2 + seq![':'] + h3 + seq![':'] + h4 + seq![':'] + h5,
        seq![':'],
        hc,
    );
    lemma_all_class_concat(
        h0 + seq![':'] + h1 + seq![':'] + h2 + seq![':'] + h3 + seq![':'] + h4 + seq![':'] + h5
            + seq![':'],
        h6,
        hc,
    );
    lemma_all_class_concat(
        h0 + seq![':'] + h1 + seq![':'] + h2 + seq![':'] + h3 + seq![':'] + h4 + seq![':'] + h5
            + seq![':'] + h6,
        seq![':'],
        hc,
    );
    lemma_all_class_concat(
        h0 + seq![':'] + h1 + seq![':'] + h2 + seq![':'] + h3 + seq![':'] + h4 + seq![':'] + h5
            + seq![':'] + h6 + seq![':'],
        h7,
        hc,
    );
}

#[verifier::rlimit(100)]
#[verifier::spinoff_prover]
proof fn lemma_v6_structure(a: V6Addr)
    ensures
        split_char_from(v6_text(a), ':', 0) == seq![
            hex_group_text(a.g0 as int),
            hex_group_text(a.g1 as int),
            hex_group_text(a.g2 as int),
            hex_group_text(a.g3 as int),
            hex_group_text(a.g4 as int),
            hex_group_text(a.g5 as int),
            hex_group_text(a.g6 as int),
            hex_group_text(a.g7 as int),
        ],
        find_from(v6_text(a), gap(), 0) == -1,
{
    let h0 = hex_group_text(a.g0 as int);
    let h1 = hex_group_text(a.g1 as int);
    let h2 = hex_group_text(a.g2 as int);
    let h3 = hex_group_text(a.g3 as int);
    let h4 = hex_group_text(a.g4 as int);
    let h5 = hex_group_text(a.g5 as int);
    let h6 = hex_group_text(a.g6 as int);
    let h7 = hex_group_text(a.g7 as int);
    lemma_hex_group_text(a.g0 as int);
    lemma_hex_group_text(a.g1 as int);
    lemma_hex_group_text(a.g2 as int);
    lemma_hex_group_text(a.g3 as int);
    lemma_hex_group_text(a.g4 as int);
    lemma_hex_group_text(a.g5 as int);
    lemma_hex_group_text(a.g6 as int);
    lemma_hex_group_text(a.g7 as int);
    let t = v6_text(a);
    let s6 = h6 + seq![':'] + h7;
    let s5 = h5 + seq![':'] + s6;
    let s4 = h4 + seq![':'] + s5;
    let s3 = h3 + seq![':'] + s4;
    let s2 = h2 + seq![':'] + s3;
    let s1 = h1 + seq![':'] + s2;
    let s0 = h0 + seq![':'] + s1;
    assert(t =~= s0);
    // no `::` gap occurs in the text
    lemma_gap_free_prepend(h6, h7);
    lemma_gap_free_prepend(h5, s6);
    lemma_gap_free_prepend(h4, s5);
    lemma_gap_free_prepend(h3, s4);
    lemma_gap_free_prepend(h2, s3);
    lemma_gap_free_prepend(h1, s2);
    lemma_gap_free_prepend(h0, s1);
    lemma_gap_free_no_find(s0);
    // the colon split yields exactly the eight group texts
    lemma_split_char_prepend(h0, ':', s1);
    lemma_split_char_prepend(h1, ':', s2);
    lemma_split_char_prepend(h2, ':', s3);
    lemma_split_char_prepend(h3, ':', s4);
    lemma_split_char_prepend(h4, ':', s5);
    lemma_split_char_prepend(h5, ':', s6);
    lemma_split_char_prepend(h6, ':', h7);
    lemma_split_char_whole(h7, ':');
    assert(split_char_from(t, ':', 0) =~= seq![h0, h1, h2, h3, h4, h5, h6, h7]);
}

#[verifier::rlimit(100)]
#[verifier::spinoff_prover]
proof fn lemma_v6_text_parses(a: V6Addr)
    ensures
        parse_ipv6_text(v6_text(a)) == Some(a),
        parse_ipv4_text(v6_text(a)) is None,
{
    lemma_v6_structure(a);
    lemma_v6_text_chars(a);
    lemma_hex_group_text(a.g0 as int);
    lemma_hex_group_text(a.g1 as int);
    lemma_hex_group_text(a.g2 as int);
    lemma_hex_group_text(a.g3 as int);
    lemma_hex_group_text(a.g4 as int);
    lemma_hex_group_text(a.g5 as int);
    lemma_hex_group_text(a.g6 as int);
    lemma_hex_group_text(a.g7 as int);
    let t = v6_text(a);
    let h7 = hex_group_text(a.g7 as int);
    let parts = split_char_from(t, ':', 0);
    // a pure hex run: no embedded dotted quad, every piece a group
    assert(parts.last() == h7);
    assert(!has_dot(h7));
    assert(forall|i: int| 0 <= i < 8 ==> is_group_text(#[trigger] parts[i]));
    assert(pieces_groups(parts) == Some(group_values(parts)));
    let gs = group_values(parts);
    assert(gs =~= seq![a.g0, a.g1, a.g2, a.g3, a.g4, a.g5, a.g6, a.g7]);
    assert(v6_of(gs, Seq::empty()) == a);
    // a colon-holding text is never a dotted-decimal address
    assert forall|i: int| 0 <= i < t.len() implies #[trigger] t[i] != '.' by {
        assert(is_hex_colon_char(t[i]));
    }
    lemma_split_char_whole(t, '.');
    assert(split_char_from(t, '.', 0).len() == 1);
}


/// Formatting an address-with-prefix pair and re-parsing the formatted
/// text yields the identical pair, for every well-formed value.
#[verifier::rlimit(100)]
#[verifier::spinoff_prover]
pub proof fn lemma_cidr_round_trip(c: CIDR)
    requires
        c.well_formed(),
    ensures
        parse_cidr_text(cidr_text(c)) == Some(c),
{
    let at = addr_text(c.0);
    let pt = dec_byte_text(c.1 as int);
    let t = cidr_text(c);
    lemma_dec_byte_text(c.1 as int);
    // the address text holds no slash and no plus sign
    match c.0 {
        IpAddress::V4(a) => {
            lemma_v4_text_parses(a);
            assert forall|i: int| 0 <= i < at.len() implies #[trigger] at[i] != '/' && at[i]
                != '+' by {
                assert(is_digit_dot_char(at[i]));
            }
        },
        IpAddress::V6(a) => {
            lemma_v6_text_parses(a);
            lemma_v6_text_chars(a);
            assert forall|i: int| 0 <= i < at.len() implies #[trigger] at[i] != '/' && at[i]
                != '+' by {
                assert(is_hex_colon_char(at[i]));
            }
        },
    }
    // the one slash stands between address and prefix
    assert(t[at.len() as int] == '/');
    assert(forall|m: int| 0 <= m < at.len() ==> t[m] == #[trigger] at[m]);
    lemma_find_char_exact(t, '/', 0, at.len() as int);
    lemma_find_char_from(t, '/', at.len() as int + 1);
    let f2 = find_char_from(t, '/', at.len() as int + 1);
    if f2 >= 0 {
        assert(t[f2] == pt[f2 - at.len() - 1]);
        assert(is_digit_char(t[f2]));
        assert(false);
    }
    assert(t.subrange(0, at.len() as int) =~= at);
    assert(t.subrange(at.len() as int + 1, t.len() as int) =~= pt);
    // the address side re-parses to the same address
    match c.0 {
        IpAddress::V4(a) => {
            assert(parse_ip_addr_text(at) == Some(c.0));
        },
        IpAddress::V6(a) => {
            assert(parse_ip_addr_text(at) == Some(c.0));
        },
    }
    // the prefix side re-parses to the same length, within range
    assert(pt[0] != '+');
    assert(prefix_digits(pt) == pt);
    assert(is_prefix_text(pt));
    assert(prefix_value(pt) == c.1 as int);
    assert(CIDR(c.0, c.1) == c);
}

} // verus!
