//! Hardware addresses: a 6-byte MAC, parsed from and formatted in the
//! colon-separated hexadecimal form.

use vstd::prelude::*;

use crate::ip::lemma_hex_value_take_step;
use crate::text::{
    all_hex, digit_char, digit_val, find_char_from, hex_val, hex_value, is_digit_char,
    is_hex_char, lemma_find_char_exact, lemma_find_char_from, split_char_all, split_char_from,
};

verus! {

/// A 6-byte hardware (MAC) address.
#[derive(Debug, Clone, Copy, PartialEq, Eq)]
pub struct MAC {
    pub b0: u8,
    pub b1: u8,
    pub b2: u8,
    pub b3: u8,
    pub b4: u8,
    pub b5: u8,
}

/// The digits of one colon-separated group, after the optional leading
/// plus sign that a base-16 byte parse accepts.
pub open spec fn mac_group_digits(t: Seq<char>) -> Seq<char> {
    if t.len() >= 1 && t[0] == '+' {
        t.subrange(1, t.len() as int)
    } else {
        t
    }
}

/// One colon-separated group of a hardware address, as a base-16 byte
/// parse accepts it: an optional plus sign, then hex digits — any number
/// of them, leading zeros included — whose value fits a byte.
pub open spec fn is_mac_part(t: Seq<char>) -> bool {
    let d = mac_group_digits(t);
    d.len() >= 1 && all_hex(d) && hex_value(d) <= 255
}

/// The byte a group denotes.
pub open spec fn mac_part_value(t: Seq<char>) -> int {
    hex_value(mac_group_digits(t))
}

/// What parsing a hardware-address text yields: six colon-separated groups,
/// each a byte in base 16, or nothing.
pub open spec fn parse_mac_text(t: Seq<char>) -> Option<MAC> {
    let parts = split_char_from(t, ':', 0);
    if parts.len() == 6 && (forall|i: int| 0 <= i < 6 ==> is_mac_part(#[trigger] parts[i])) {
        Some(
            MAC {
                b0: mac_part_value(parts[0]) as u8,
                b1: mac_part_value(parts[1]) as u8,
                b2: mac_part_value(parts[2]) as u8,
                b3: mac_part_value(parts[3]) as u8,
                b4: mac_part_value(parts[4]) as u8,
                b5: mac_part_value(parts[5]) as u8,
            },
        )
    } else {
        None
    }
}

/// The lowercase hex digit for a value below 16.
pub open spec fn hex_digit_char(v: int) -> char {
    if v == 0 {
        '0'
    } else if v == 1 {
        '1'
    } else if v == 2 {
        '2'
    } else if v == 3 {
        '3'
    } else if v == 4 {
        '4'
    } else if v == 5 {
        '5'
    } else if v == 6 {
        '6'
    } else if v == 7 {
        '7'
    } else if v == 8 {
        '8'
    } else if v == 9 {
        '9'
    } else if v == 10 {
        'a'
    } else if v == 11 {
        'b'
    } else if v == 12 {
        'c'
    } else if v == 13 {
        'd'
    } else if v == 14 {
        'e'
    } else {
        'f'
    }
}

pub proof fn lemma_hex_digit_char(v: int)
    requires
        0 <= v < 16,
    ensures
        is_hex_char(hex_digit_char(v)),
        hex_val(hex_digit_char(v)) == v,
        hex_digit_char(v) != ':',
        hex_digit_char(v) != '+',
        hex_digit_char(v) != '.',
        hex_digit_char(v) != '/',
        v < 10 ==> is_digit_char(hex_digit_char(v)) && digit_val(hex_digit_char(v)) == v,
        v != 0 ==> hex_digit_char(v) != '0',
{
}

/// The canonical lower-hex-colon text of a hardware address.
pub open spec fn mac_text(m: MAC) -> Seq<char> {
    seq![
        hex_digit_char(m.b0 as int / 16),
        hex_digit_char(m.b0 as int % 16),
        ':',
        hex_digit_char(m.b1 as int / 16),
        hex_digit_char(m.b1 as int % 16),
        ':',
        hex_digit_char(m.b2 as int / 16),
        hex_digit_char(m.b2 as int % 16),
        ':',
        hex_digit_char(m.b3 as int / 16),
        hex_digit_char(m.b3 as int % 16),
        ':',
        hex_digit_char(m.b4 as int / 16),
        hex_digit_char(m.b4 as int % 16),
        ':',
        hex_digit_char(m.b5 as int / 16),
        hex_digit_char(m.b5 as int % 16),
    ]
}

pub(crate) fn hex_digit_value(c: char) -> (r: Option<u8>)
    ensures
        match r {
            Some(v) => is_hex_char(c) && v as int == hex_val(c),
            None => !is_hex_char(c),
        },
{
    if digit_char(c) {
        Some(((c as u32) - ('0' as u32)) as u8)
    } else if 'a' <= c && c <= 'f' {
        Some(((c as u32) - ('a' as u32) + 10) as u8)
    } else if 'A' <= c && c <= 'F' {
        Some(((c as u32) - ('A' as u32) + 10) as u8)
    } else {
        None
    }
}

proof fn lemma_hex_value_one(x: char)
    ensures
        hex_value(seq![x]) == hex_val(x),
{
    assert(seq![x].drop_last() =~= Seq::<char>::empty());
    assert(hex_value(Seq::<char>::empty()) == 0);
    assert(seq![x].last() == x);
}

proof fn lemma_hex_value_pair(x: char, y: char)
    ensures
        hex_value(seq![x, y]) == hex_val(x) * 16 + hex_val(y),
{
    assert(seq![x, y].drop_last() =~= seq![x]);
    lemma_hex_value_one(x);
}

/// A group as a byte: an optional plus sign, then hex digits whose value
/// fits a byte, leading zeros allowed.
fn parse_hex_byte(part: &str) -> (r: Option<u8>)
    ensures
        match r {
            Some(b) => is_mac_part(part@) && b as int == mac_part_value(part@),
            None => !is_mac_part(part@),
        },
{
    let n = part.unicode_len();
    let start: usize = if n >= 1 && part.get_char(0) == '+' {
        1
    } else {
        0
    };
    let ghost d = mac_group_digits(part@);
    proof {
        assert(d =~= part@.subrange(start as int, n as int));
    }
    if start >= n {
        return None;
    }
    let mut acc: u32 = 0;
    let mut i: usize = start;
    while i < n
        invariant
            start <= i <= n,
            start < n,
            n == part@.len(),
            d == mac_group_digits(part@),
            d == part@.subrange(start as int, n as int),
            all_hex(d.take(i - start)),
            (acc <= 255 && acc as int == hex_value(d.take(i - start))) || (acc == 300
                && hex_value(d.take(i - start)) > 255),
        decreases n - i,
    {
        let c = part.get_char(i);
        let v = match hex_digit_value(c) {
            Some(v) => v,
            None => {
                proof {
                    assert(d[i - start] == part@[i as int]);
                    assert(!is_hex_char(d[i - start]));
                    assert(0 <= i - start < d.len());
                    assert(!all_hex(d));
                    assert(!is_mac_part(part@));
                }
                return None;
            },
        };
        proof {
            assert(d[i - start] == part@[i as int]);
            lemma_hex_value_take_step(d, i - start);
        }
        if acc > 255 {
            acc = 300;
        } else {
            acc = acc * 16 + (v as u32);
            if acc > 255 {
                acc = 300;
            }
        }
        i = i + 1;
    }
    proof {
        assert(d.take(n - start) =~= d);
    }
    if acc > 255 {
        None
    } else {
        Some(acc as u8)
    }
}

impl MAC {
    /// Parse the colon-separated hexadecimal form of a hardware address.
    pub fn try_from(value: &str) -> (r: Option<MAC>)
        ensures
            r == parse_mac_text(value@),
    {
        let parts = split_char_all(value, ':');
        proof {
            assert(parts.deep_view().len() == parts@.len());
        }
        if parts.len() != 6 {
            return None;
        }
        proof {
            assert(forall|i: int| 0 <= i < 6 ==> parts.deep_view()[i] == parts@[i]@);
        }
        let g0 = parse_hex_byte(parts[0].as_str());
        let g1 = parse_hex_byte(parts[1].as_str());
        let g2 = parse_hex_byte(parts[2].as_str());
        let g3 = parse_hex_byte(parts[3].as_str());
        let g4 = parse_hex_byte(parts[4].as_str());
        let g5 = parse_hex_byte(parts[5].as_str());
        match (g0, g1, g2, g3, g4, g5) {
            (Some(b0), Some(b1), Some(b2), Some(b3), Some(b4), Some(b5)) => Some(
                MAC { b0, b1, b2, b3, b4, b5 },
            ),
            _ => None,
        }
    }

    /// The canonical lower-hex-colon text of this address.
    pub fn format(&self) -> (r: String)
        ensures
            r@ == mac_text(*self),
    {
        let mut out = String::new();
        push_hex_byte(&mut out, self.b0);
        out.append(":");
        push_hex_byte(&mut out, self.b1);
        out.append(":");
        push_hex_byte(&mut out, self.b2);
        out.append(":");
        push_hex_byte(&mut out, self.b3);
        out.append(":");
        push_hex_byte(&mut out, self.b4);
        out.append(":");
        push_hex_byte(&mut out, self.b5);
        proof {
            reveal_strlit(":");
            assert(out@ =~= mac_text(*self));
        }
        out
    }
}

/// The lowercase hex digit for a value below 16, as text.
pub(crate) fn hex_digit_str(v: u8) -> (r: &'static str)
    requires
        v < 16,
    ensures
        r@ =~= seq![hex_digit_char(v as int)],
{
    proof {
        reveal_strlit("0");
        reveal_strlit("1");
        reveal_strlit("2");
        reveal_strlit("3");
        reveal_strlit("4");
        reveal_strlit("5");
        reveal_strlit("6");
        reveal_strlit("7");
        reveal_strlit("8");
        reveal_strlit("9");
        reveal_strlit("a");
        reveal_strlit("b");
        reveal_strlit("c");
        reveal_strlit("d");
        reveal_strlit("e");
        reveal_strlit("f");
    }
    match v {
        0 => "0",
        1 => "1",
        2 => "2",
        3 => "3",
        4 => "4",
        5 => "5",
        6 => "6",
        7 => "7",
        8 => "8",
        9 => "9",
        10 => "a",
        11 => "b",
        12 => "c",
        13 => "d",
        14 => "e",
        _ => "f",
    }
}

fn push_hex_byte(out: &mut String, b: u8)
    ensures
        final(out)@ == old(out)@ + seq![
            hex_digit_char(b as int / 16),
            hex_digit_char(b as int % 16),
        ],
{
    out.append(hex_digit_str(b / 16));
    out.append(hex_digit_str(b % 16));
    proof {
        assert(final(out)@ =~= old(out)@ + seq![
            hex_digit_char(b as int / 16),
            hex_digit_char(b as int % 16),
        ]);
    }
}

/// Formatting a 6-byte hardware address and re-parsing the formatted text
/// yields the identical bytes, for every address value.
pub proof fn lemma_mac_round_trip(m: MAC)
    ensures
        parse_mac_text(mac_text(m)) == Some(m),
{
    let s = mac_text(m);
    assert forall|v: int| 0 <= v < 16 implies is_hex_char(hex_digit_char(v)) && hex_val(
        hex_digit_char(v),
    ) == v && hex_digit_char(v) != ':' by {
        lemma_hex_digit_char(v);
    }
    lemma_find_char_exact(s, ':', 0, 2);
    lemma_find_char_exact(s, ':', 3, 5);
    lemma_find_char_exact(s, ':', 6, 8);
    lemma_find_char_exact(s, ':', 9, 11);
    lemma_find_char_exact(s, ':', 12, 14);
    lemma_find_char_from(s, ':', 15);
    assert(find_char_from(s, ':', 15) == -1);
    let parts = split_char_from(s, ':', 0);
    assert(split_char_from(s, ':', 15) == seq![s.subrange(15, 17)]);
    assert(split_char_from(s, ':', 12) == seq![s.subrange(12, 14)] + split_char_from(s, ':', 15));
    assert(split_char_from(s, ':', 9) == seq![s.subrange(9, 11)] + split_char_from(s, ':', 12));
    assert(split_char_from(s, ':', 6) == seq![s.subrange(6, 8)] + split_char_from(s, ':', 9));
    assert(split_char_from(s, ':', 3) == seq![s.subrange(3, 5)] + split_char_from(s, ':', 6));
    assert(split_char_from(s, ':', 0) == seq![s.subrange(0, 2)] + split_char_from(s, ':', 3));
    assert(parts =~= seq![
        s.subrange(0, 2),
        s.subrange(3, 5),
        s.subrange(6, 8),
        s.subrange(9, 11),
        s.subrange(12, 14),
        s.subrange(15, 17),
    ]);
    assert(s.subrange(0, 2) =~= seq![s[0], s[1]]);
    assert(s.subrange(3, 5) =~= seq![s[3], s[4]]);
    assert(s.subrange(6, 8) =~= seq![s[6], s[7]]);
    assert(s.subrange(9, 11) =~= seq![s[9], s[10]]);
    assert(s.subrange(12, 14) =~= seq![s[12], s[13]]);
    assert(s.subrange(15, 17) =~= seq![s[15], s[16]]);
    lemma_hex_value_pair(s[0], s[1]);
    lemma_hex_value_pair(s[3], s[4]);
    lemma_hex_value_pair(s[6], s[7]);
    lemma_hex_value_pair(s[9], s[10]);
    lemma_hex_value_pair(s[12], s[13]);
    lemma_hex_value_pair(s[15], s[16]);
    assert(forall|i: int| 0 <= i < 6 ==> mac_group_digits(#[trigger] parts[i]) == parts[i]);
    assert(forall|i: int| 0 <= i < 6 ==> is_mac_part(#[trigger] parts[i]));
    assert(mac_part_value(parts[0]) == m.b0 as int);
    assert(mac_part_value(parts[1]) == m.b1 as int);
    assert(mac_part_value(parts[2]) == m.b2 as int);
    assert(mac_part_value(parts[3]) == m.b3 as int);
    assert(mac_part_value(parts[4]) == m.b4 as int);
    assert(mac_part_value(parts[5]) == m.b5 as int);
}

} // verus!
