//! Reading the text of an IP address.
//!
//! A dotted address is four decimal numbers up to 255, without leading zeros. A
//! colon address is eight groups of one to four hexadecimal digits; `::` may stand
//! once for one or more groups of zeros, and the last two groups may be written as
//! a dotted address.

use crate::digits;
use crate::net::{AddrParseError, IpAddr};
use vstd::arithmetic::power::*;
use vstd::prelude::*;

verus! {

/// The bytes that an address is written with.
pub const DOT: u8 = 46;

pub const COLON: u8 = 58;

pub const ZERO: u8 = 48;

pub const NINE: u8 = 57;

pub const UPPER_A: u8 = 65;

pub const UPPER_F: u8 = 70;

pub const LOWER_A: u8 = 97;

pub const LOWER_F: u8 = 102;

/// The pieces of `b` between the separators.
pub open spec fn split(b: Seq<u8>, sep: u8) -> Seq<Seq<u8>>
    decreases b.len(),
{
    if b.len() == 0 {
        seq![Seq::empty()]
    } else {
        let init = split(b.drop_last(), sep);
        if b.last() == sep {
            init.push(Seq::empty())
        } else {
            init.drop_last().push(init.last().push(b.last()))
        }
    }
}

/// What a digit stands for, in bases up to sixteen; 16 for any other byte.
pub open spec fn digit_of(c: u8) -> u16 {
    if ZERO <= c <= NINE {
        (c - ZERO) as u16
    } else if LOWER_A <= c <= LOWER_F {
        (c - LOWER_A + 10) as u16
    } else if UPPER_A <= c <= UPPER_F {
        (c - UPPER_A + 10) as u16
    } else {
        16
    }
}

/// What each byte stands for as a digit.
pub open spec fn digits_of(b: Seq<u8>) -> Seq<u16> {
    Seq::new(b.len(), |i: int| digit_of(b[i]))
}

/// The number written in `base` with one to `max` digits.
pub open spec fn number(b: Seq<u8>, base: nat, max: nat) -> Option<u16> {
    if 1 <= b.len() <= max && forall|i: int|
        0 <= i < b.len() ==> (#[trigger] digits_of(b)[i]) < base {
        Some(digits::place_value(digits_of(b), base) as u16)
    } else {
        None
    }
}

/// One number of a dotted address.
pub open spec fn octet(b: Seq<u8>) -> Option<u16> {
    match number(b, 10, 3) {
        Some(v) => if v <= 255 && (b[0] == ZERO ==> b.len() == 1) {
            Some(v)
        } else {
            None
        },
        None => None,
    }
}

/// One group of a colon address.
pub open spec fn group(b: Seq<u8>) -> Option<u16> {
    number(b, 16, 4)
}

/// The four numbers of a dotted address.
pub open spec fn dotted(b: Seq<u8>) -> Option<Seq<u16>> {
    let parts = split(b, DOT);
    if parts.len() == 4 && forall|i: int| 0 <= i < 4 ==> octet(#[trigger] parts[i]) is Some {
        Some(Seq::new(4, |i: int| octet(parts[i])->0))
    } else {
        None
    }
}

/// Whether every piece is a group.
pub open spec fn all_groups(parts: Seq<Seq<u8>>) -> bool {
    forall|i: int| 0 <= i < parts.len() ==> group(#[trigger] parts[i]) is Some
}

/// The numbers of pieces that are groups.
pub open spec fn group_values(parts: Seq<Seq<u8>>) -> Seq<u16> {
    Seq::new(parts.len(), |i: int| group(parts[i])->0)
}

/// The two groups that the four numbers of a dotted address make.
pub open spec fn packed(o: Seq<u16>) -> Seq<u16> {
    seq![(o[0] * 256 + o[1]) as u16, (o[2] * 256 + o[3]) as u16]
}

/// The groups that the pieces make; with `dotted_end` the last piece may be a dotted address.
pub open spec fn groups(parts: Seq<Seq<u8>>, dotted_end: bool) -> Option<Seq<u16>> {
    if all_groups(parts) {
        Some(group_values(parts))
    } else if dotted_end && parts.len() > 0 && all_groups(parts.drop_last()) && dotted(
        parts.last(),
    ) is Some {
        Some(group_values(parts.drop_last()) + packed(dotted(parts.last())->0))
    } else {
        None
    }
}

/// The pieces of one side of `::`, of which there may be none.
pub open spec fn side(b: Seq<u8>) -> Seq<Seq<u8>> {
    if b.len() == 0 {
        Seq::empty()
    } else {
        split(b, COLON)
    }
}

/// Whether `::` stands at `k`.
pub open spec fn gap_at(b: Seq<u8>, k: int) -> bool {
    0 <= k && k + 1 < b.len() && b[k] == COLON && b[k + 1] == COLON
}

/// Whether `k` is the first place where `::` stands.
pub open spec fn first_gap(b: Seq<u8>, k: int) -> bool {
    gap_at(b, k) && forall|j: int| 0 <= j < k ==> !gap_at(b, j)
}

/// The groups of an address with `::` at `k`.
pub open spec fn groups_around(b: Seq<u8>, k: int) -> Option<Seq<u16>> {
    let head = groups(side(b.take(k)), false);
    let tail = groups(side(b.skip(k + 2)), true);
    match (head, tail) {
        (Some(h), Some(t)) => if h.len() + t.len() <= 7 {
            Some(h + Seq::new((8 - h.len() - t.len()) as nat, |i: int| 0u16) + t)
        } else {
            None
        },
        _ => None,
    }
}

/// The eight groups of a colon address.
pub open spec fn coloned(b: Seq<u8>) -> Option<Seq<u16>> {
    if exists|k: int| first_gap(b, k) {
        groups_around(b, choose|k: int| first_gap(b, k))
    } else {
        match groups(split(b, COLON), true) {
            Some(g) => if g.len() == 8 {
                Some(g)
            } else {
                None
            },
            None => None,
        }
    }
}

/// The address that the bytes of a text write out.
pub open spec fn ip_of_bytes(b: Seq<u8>) -> Option<IpAddr> {
    match dotted(b) {
        Some(o) => Some(crate::net::ipv4_of(o)),
        None => match coloned(b) {
            Some(g) => Some(crate::net::ipv6_of(g)),
            None => None,
        },
    }
}

/// The address that a text writes out.
#[verifier::opaque]
pub open spec fn ip_of_text(text: Seq<char>) -> Option<IpAddr> {
    ip_of_bytes(vstd::utf8::encode_utf8(text))
}

/// What slices of bytes hold.
spec fn contents(parts: Seq<&[u8]>) -> Seq<Seq<u8>> {
    Seq::new(parts.len(), |i: int| parts[i]@)
}

/// Cuts `b` at every separator.
fn split_bytes(b: &[u8], sep: u8) -> (parts: Vec<&[u8]>)
    ensures
        contents(parts@) == split(b@, sep),
{
    let mut parts: Vec<&[u8]> = Vec::new();
    let mut start: usize = 0;
    let mut i: usize = 0;
    assert(b@.subrange(0, 0) =~= Seq::empty());
    assert(split(b@.take(0), sep) =~= contents(parts@).push(b@.subrange(0, 0)));
    while i < b.len()
        invariant
            start <= i <= b@.len(),
            split(b@.take(i as int), sep) == contents(parts@).push(
                b@.subrange(start as int, i as int),
            ),
        decreases b@.len() - i,
    {
        let ghost before = contents(parts@);
        let ghost piece = b@.subrange(start as int, i as int);
        assert(b@.take(i + 1).drop_last() =~= b@.take(i as int));
        assert(before.push(piece).drop_last() =~= before);
        if b[i] == sep {
            parts.push(&b[start..i]);
            start = i + 1;
            assert(contents(parts@) =~= before.push(piece));
            assert(b@.subrange(start as int, i + 1) =~= Seq::empty());
        } else {
            assert(b@.subrange(start as int, i + 1) =~= piece.push(b@[i as int]));
        }
        i = i + 1;
    }
    let ghost before = contents(parts@);
    parts.push(&b[start..i]);
    assert(b@.take(i as int) =~= b@);
    assert(contents(parts@) =~= before.push(b@.subrange(start as int, i as int)));
    parts
}

/// What a digit stands for.
fn digit_value(c: u8) -> (d: u16)
    ensures
        d == digit_of(c),
{
    if ZERO <= c && c <= NINE {
        (c - ZERO) as u16
    } else if LOWER_A <= c && c <= LOWER_F {
        (c - LOWER_A + 10) as u16
    } else if UPPER_A <= c && c <= UPPER_F {
        (c - UPPER_A + 10) as u16
    } else {
        16
    }
}

/// Reads a number of one to `max` digits in `base`.
fn read_number(b: &[u8], base: u32, max: usize) -> (r: Option<u16>)
    requires
        2 <= base <= 16,
        pow(base as int, max as nat) <= 0x1_0000,
    ensures
        r == number(b@, base as nat, max as nat),
{
    if b.len() == 0 || b.len() > max {
        return None;
    }
    let mut v: u32 = 0;
    let mut i: usize = 0;
    while i < b.len()
        invariant
            i <= b@.len() <= max,
            2 <= base <= 16,
            pow(base as int, max as nat) <= 0x1_0000,
            forall|k: int| 0 <= k < i ==> (#[trigger] digits_of(b@)[k]) < base,
            v == digits::place_value(digits_of(b@).take(i as int), base as nat),
            v < 0x1_0000,
        decreases b@.len() - i,
    {
        let d: u16 = digit_value(b[i]);
        assert(digits_of(b@)[i as int] == d);
        if d as u32 >= base {
            return None;
        }
        proof {
            let next = digits_of(b@).take(i + 1);
            assert(next.drop_last() =~= digits_of(b@).take(i as int));
            digits::lemma_place_value_bound(next, base as nat);
            lemma_pow_increases(base as nat, (i + 1) as nat, max as nat);
            assert(0 <= v * base) by (nonlinear_arith);
        }
        v = v * base + d as u32;
        i = i + 1;
    }
    assert(digits_of(b@).take(i as int) =~= digits_of(b@));
    Some(v as u16)
}

/// Reads one number of a dotted address.
fn read_octet(b: &[u8]) -> (r: Option<u16>)
    ensures
        r == octet(b@),
{
    proof {
        reveal(pow);
        reveal_with_fuel(pow, 4);
        assert(pow(10, 3) == 1000);
    }
    match read_number(b, 10, 3) {
        Some(v) => {
            if v <= 255 && (b[0] != ZERO || b.len() == 1) {
                Some(v)
            } else {
                None
            }
        },
        None => None,
    }
}

/// Reads one group of a colon address.
fn read_group(b: &[u8]) -> (r: Option<u16>)
    ensures
        r == group(b@),
{
    proof {
        reveal(pow);
        reveal_with_fuel(pow, 5);
        assert(pow(16, 4) == 0x1_0000);
    }
    read_number(b, 16, 4)
}

/// Reads the four numbers of a dotted address.
fn read_dotted(b: &[u8]) -> (r: Option<Vec<u16>>)
    ensures
        match r {
            Some(o) => dotted(b@) == Some(o@),
            None => dotted(b@) is None,
        },
{
    let parts: Vec<&[u8]> = split_bytes(b, DOT);
    let ghost p = split(b@, DOT);
    if parts.len() != 4 {
        return None;
    }
    let mut o: Vec<u16> = Vec::new();
    let mut i: usize = 0;
    while i < 4
        invariant
            i <= 4,
            parts@.len() == 4,
            contents(parts@) == p,
            p == split(b@, DOT),
            o@.len() == i,
            forall|k: int| 0 <= k < i ==> octet(#[trigger] p[k]) == Some(o@[k]),
        decreases 4 - i,
    {
        assert(p[i as int] == parts@[i as int]@);
        match read_octet(parts[i]) {
            Some(v) => {
                o.push(v);
            },
            None => {
                return None;
            },
        }
        i = i + 1;
    }
    assert(o@ =~= dotted(b@)->0);
    Some(o)
}

/// Reads the groups of the pieces of a colon address.
fn read_groups(parts: &Vec<&[u8]>, dotted_end: bool) -> (r: Option<Vec<u16>>)
    ensures
        match r {
            Some(g) => groups(contents(parts@), dotted_end) == Some(g@),
            None => groups(contents(parts@), dotted_end) is None,
        },
{
    let ghost p = contents(parts@);
    let mut g: Vec<u16> = Vec::new();
    let mut i: usize = 0;
    while i < parts.len()
        invariant
            i <= parts@.len(),
            p == contents(parts@),
            g@.len() == i,
            forall|k: int| 0 <= k < i ==> group(#[trigger] p[k]) == Some(g@[k]),
        decreases parts@.len() - i,
    {
        assert(p[i as int] == parts@[i as int]@);
        match read_group(parts[i]) {
            Some(v) => {
                g.push(v);
            },
            None => {
                assert(!all_groups(p));
                if dotted_end && i + 1 == parts.len() {
                    let ghost init = p.drop_last();
                    assert forall|k: int| 0 <= k < init.len() implies group(
                        #[trigger] init[k],
                    ) is Some by {
                        assert(init[k] == p[k]);
                    }
                    assert(g@ =~= group_values(init));
                    match read_dotted(parts[i]) {
                        Some(o) => {
                            let ghost before = g@;
                            proof {
                                lemma_dotted(p.last());
                            }
                            g.push(o[0] * 256 + o[1]);
                            g.push(o[2] * 256 + o[3]);
                            assert(g@ =~= before + packed(o@));
                            return Some(g);
                        },
                        None => {
                            return None;
                        },
                    }
                } else {
                    assert(dotted_end ==> !all_groups(p.drop_last())) by {
                        if dotted_end {
                            assert(p.drop_last()[i as int] == p[i as int]);
                        }
                    }
                    return None;
                }
            },
        }
        i = i + 1;
    }
    assert(g@ =~= group_values(p));
    Some(g)
}

/// Finds the first `::`.
fn find_gap(b: &[u8]) -> (r: Option<usize>)
    ensures
        match r {
            Some(k) => first_gap(b@, k as int),
            None => forall|k: int| !first_gap(b@, k),
        },
{
    let mut i: usize = 0;
    while i < b.len()
        invariant
            i <= b@.len(),
            forall|j: int| 0 <= j < i ==> !gap_at(b@, j),
        decreases b@.len() - i,
    {
        if i + 1 < b.len() && b[i] == COLON && b[i + 1] == COLON {
            return Some(i);
        }
        i = i + 1;
    }
    None
}

/// Reads one side of `::`.
fn read_side(b: &[u8], dotted_end: bool) -> (r: Option<Vec<u16>>)
    ensures
        match r {
            Some(g) => groups(side(b@), dotted_end) == Some(g@),
            None => groups(side(b@), dotted_end) is None,
        },
{
    if b.len() == 0 {
        let none: Vec<u16> = Vec::new();
        assert(group_values(side(b@)) =~= none@);
        Some(none)
    } else {
        read_groups(&split_bytes(b, COLON), dotted_end)
    }
}

/// Reads the eight groups of a colon address.
fn read_coloned(b: &[u8]) -> (r: Option<Vec<u16>>)
    ensures
        match r {
            Some(g) => coloned(b@) == Some(g@),
            None => coloned(b@) is None,
        },
{
    match find_gap(b) {
        Some(k) => {
            assert((choose|j: int| first_gap(b@, j)) == k) by {
                let j = choose|j: int| first_gap(b@, j);
                assert(first_gap(b@, j));
                assert(gap_at(b@, j) && gap_at(b@, k as int));
            }
            assert(b@.subrange(0, k as int) =~= b@.take(k as int));
            assert(b@.subrange(k + 2, b@.len() as int) =~= b@.skip(k + 2));
            let len: usize = b.len();
            let head: Option<Vec<u16>> = read_side(&b[0..k], false);
            let tail: Option<Vec<u16>> = read_side(&b[k + 2..len], true);
            match (head, tail) {
                (Some(h), Some(t)) => {
                    if h.len() > 7 || t.len() > 7 - h.len() {
                        return None;
                    }
                    let mut g: Vec<u16> = Vec::new();
                    let mut i: usize = 0;
                    while i < h.len()
                        invariant
                            i <= h@.len(),
                            g@ == h@.take(i as int),
                        decreases h@.len() - i,
                    {
                        g.push(h[i]);
                        i = i + 1;
                        assert(g@ =~= h@.take(i as int));
                    }
                    let zeros: usize = 8 - h.len() - t.len();
                    i = 0;
                    assert(g@ =~= h@ + Seq::new(0, |k: int| 0u16));
                    while i < zeros
                        invariant
                            i <= zeros,
                            g@ == h@ + Seq::new(i as nat, |k: int| 0u16),
                        decreases zeros - i,
                    {
                        g.push(0);
                        i = i + 1;
                        assert(g@ =~= h@ + Seq::new(i as nat, |k: int| 0u16));
                    }
                    let ghost front = g@;
                    i = 0;
                    assert(g@ =~= front + t@.take(0));
                    while i < t.len()
                        invariant
                            i <= t@.len(),
                            g@ == front + t@.take(i as int),
                        decreases t@.len() - i,
                    {
                        g.push(t[i]);
                        i = i + 1;
                        assert(g@ =~= front + t@.take(i as int));
                    }
                    assert(t@.take(i as int) =~= t@);
                    Some(g)
                },
                _ => None,
            }
        },
        None => {
            match read_groups(&split_bytes(b, COLON), true) {
                Some(g) => {
                    if g.len() == 8 {
                        Some(g)
                    } else {
                        None
                    }
                },
                None => None,
            }
        },
    }
}

/// The four numbers of a dotted address are octets.
pub proof fn lemma_dotted(b: Seq<u8>)
    requires
        dotted(b) is Some,
    ensures
        (dotted(b)->0).len() == 4,
        forall|k: int| 0 <= k < 4 ==> (#[trigger] (dotted(b)->0)[k]) <= 255,
{
    let p = split(b, DOT);
    assert forall|k: int| 0 <= k < 4 implies (#[trigger] (dotted(b)->0)[k]) <= 255 by {
        assert(octet(p[k]) is Some);
    }
}

impl IpAddr {
    /// Reads an address of either family.
    pub fn parse(text: &str) -> (r: Result<IpAddr, AddrParseError>)
        ensures
            match r {
                Ok(ip) => ip_of_text(text@) == Some(ip),
                Err(_) => ip_of_text(text@) is None,
            },
    {
        let b: &[u8] = text.as_bytes();
        proof {
            reveal(ip_of_text);
            reveal(pow);
            reveal_with_fuel(pow, 9);
            assert(pow(256, 4) == 0x1_0000_0000);
            assert(pow(0x1_0000, 8) == u128::MAX + 1);
        }
        match read_dotted(b) {
            Some(o) => {
                proof {
                    lemma_dotted(b@);
                    digits::lemma_place_value_bound(o@, 256);
                }
                Ok(IpAddr::V4(digits::from_places(&o, 256) as u32))
            },
            None => {
                match read_coloned(b) {
                    Some(g) => Ok(IpAddr::V6(digits::from_places(&g, 0x1_0000))),
                    None => Err(AddrParseError),
                }
            },
        }
    }
}

} // verus!
