//! Which texts write an address out, and how an address is written, from the pieces up.

use crate::data_laws;
use crate::digits;
use crate::ip_laws;
use crate::ip_parse;
use crate::ip_text;
use crate::net;
use crate::net::{IpAddr, SocketAddr};
use vstd::arithmetic::div_mod::*;
use vstd::arithmetic::power::*;
use vstd::prelude::*;

verus! {

/// A number below its base is one digit, and a longer one is what stands before its last digit
/// followed by that digit.
pub proof fn law_numeral(n: nat, base: nat)
    requires
        base == 10 || base == 16,
    ensures
        n < base ==> digits::numeral(n, base).len() == 1,
        n < base && n < 10 ==> digits::numeral(n, base)[0] as int == 48 + n,
        n < base && n >= 10 ==> digits::numeral(n, base)[0] as int == 97 + (n - 10),
        n >= base ==> digits::numeral(n, base) == digits::numeral(n / base, base)
            + digits::numeral(n % base, base),
{
    if n >= base {
        lemma_mod_bound(n as int, base as int);
        assert(digits::numeral(n, base) =~= digits::numeral(n / base, base) + digits::numeral(
            n % base,
            base,
        ));
    }
}

/// Joined numbers: none are nothing, one is its numeral, and more have the separator between
/// any two parts of them.
pub proof fn law_joined(a: Seq<u16>, b: Seq<u16>, base: nat, sep: char)
    ensures
        a.len() == 0 ==> ip_text::joined(a, base, sep).len() == 0,
        a.len() == 1 ==> ip_text::joined(a, base, sep) == digits::numeral(a[0] as nat, base),
        a.len() > 0 && b.len() > 0 ==> ip_text::joined(a + b, base, sep) == ip_text::joined(
            a,
            base,
            sep,
        ) + seq![sep] + ip_text::joined(b, base, sep),
    decreases b.len(),
{
    if a.len() > 0 && b.len() > 0 {
        assert((a + b).drop_last() =~= a + b.drop_last());
        if b.len() == 1 {
            assert(a + b.drop_last() =~= a);
        } else {
            law_joined(a, b.drop_last(), base, sep);
        }
        assert(ip_text::joined(a + b, base, sep) =~= ip_text::joined(a, base, sep) + seq![sep]
            + ip_text::joined(b, base, sep));
    }
}

/// A dotted address is its four bytes in decimal, the most significant first.
pub proof fn law_dotted_text(a: u8, b: u8, c: u8, d: u8, v: u32)
    requires
        v == a * 0x100_0000 + b * 0x1_0000 + c * 0x100 + d,
    ensures
        ip_text::ip_text(IpAddr::V4(v)) == digits::numeral(a as nat, 10) + seq!['.']
            + digits::numeral(b as nat, 10) + seq!['.'] + digits::numeral(c as nat, 10) + seq![
            '.',
        ] + digits::numeral(d as nat, 10),
{
    let o = seq![a as u16, b as u16, c as u16, d as u16];
    let o3 = o.drop_last();
    let o2 = o3.drop_last();
    let o1 = o2.drop_last();
    reveal_with_fuel(digits::place_value, 5);
    assert(o3 =~= seq![a as u16, b as u16, c as u16]);
    assert(o2 =~= seq![a as u16, b as u16]);
    assert(o1 =~= seq![a as u16]);
    assert(digits::place_value(o, 256) == v);
    digits::lemma_digits_of_value(o, 256);
    assert(net::octets(v) == o);
    reveal_with_fuel(ip_text::joined, 4);
    assert(ip_text::joined(o, 10, '.') =~= digits::numeral(a as nat, 10) + seq!['.']
        + digits::numeral(b as nat, 10) + seq!['.'] + digits::numeral(c as nat, 10) + seq!['.']
        + digits::numeral(d as nat, 10));
}

/// Whether `g` are the eight groups of the bits of `v`, the most significant first.
pub open spec fn groups_are(g: Seq<u16>, v: u128) -> bool {
    &&& g.len() == 8
    &&& forall|i: int|
        0 <= i < 8 ==> (#[trigger] g[i]) == (v as int / pow(65536, (7 - i) as nat)) % 65536
}

/// The groups are those of the address, and of no other.
proof fn lemma_groups_are(g: Seq<u16>, v: u128)
    ensures
        groups_are(g, v) <==> g == net::segments(v),
{
    let s = net::segments(v);
    assert forall|i: int| 0 <= i < 8 implies s.len() == 8 && (#[trigger] s[i]) == (v as int / pow(
        65536,
        (7 - i) as nat,
    )) % 65536 by {
        data_laws::lemma_place_digit(v as nat, 0x1_0000, 8, i);
    }
    digits::lemma_place_digits(v as nat, 0x1_0000, 8);
    if groups_are(g, v) {
        assert forall|i: int| 0 <= i < 8 implies g[i] == s[i] by {}
        assert(g =~= s);
    }
}

/// Whether zeros stand from `start` on, `len` of them.
pub open spec fn zeros_at(g: Seq<u16>, start: int, len: int) -> bool {
    0 <= start && 0 <= len && start + len <= g.len() && forall|i: int|
        start <= i < start + len ==> g[i] == 0
}

/// A colon address that maps no dotted one is written with `::` in place of the longest run of
/// two or more zeros, the first of its length, and without where no two zeros stand together.
pub proof fn law_colon_text(v: u128, g: Seq<u16>, start: int, len: int)
    requires
        groups_are(g, v),
        v as int / 0x1_0000_0000 != 0xffff,
        zeros_at(g, start, len),
        forall|a: int, n: int| #[trigger]
            zeros_at(g, a, n) ==> n < len || (n == len && start <= a),
    ensures
        len > 1 ==> ip_text::ip_text(IpAddr::V6(v)) == ip_text::joined(g.take(start), 16, ':')
            + seq![':', ':'] + ip_text::joined(g.skip(start + len), 16, ':'),
        len <= 1 ==> ip_text::ip_text(IpAddr::V6(v)) == ip_text::joined(g, 16, ':'),
{
    lemma_groups_are(g, v);
    assert forall|a: int, n: int| ip_text::zero_run(g, a, n) == zeros_at(g, a, n) by {}
    assert(ip_text::longest_zero_run(g, start, len)) by {
        assert forall|a: int, n: int| #[trigger] ip_text::zero_run(g, a, n) implies n < len || (n
            == len && start <= a) by {
            assert(zeros_at(g, a, n));
        }
    }
    let found = (start, len);
    assert(ip_text::longest_zero_run(g, found.0, found.1));
    let run = choose|run: (int, int)| #[trigger] ip_text::longest_zero_run(g, run.0, run.1);
    assert(ip_text::zero_run(g, run.0, run.1) && ip_text::zero_run(g, start, len));
    assert(run == found);
    reveal_strlit("::");
    assert("::"@ =~= seq![':', ':']);
}

/// An address that maps a dotted one shows it.
pub proof fn law_mapped_text(v: u128)
    requires
        v as int / 0x1_0000_0000 == 0xffff,
    ensures
        ip_text::ip_text(IpAddr::V6(v)) == seq![':', ':', 'f', 'f', 'f', 'f', ':']
            + ip_text::ip_text(IpAddr::V4((v as int % 0x1_0000_0000) as u32)),
{
    reveal_strlit("::ffff:");
    assert("::ffff:"@ =~= seq![':', ':', 'f', 'f', 'f', 'f', ':']);
}

/// The text of a socket address: a colon address stands in brackets, with its scope where it
/// has one, and the port follows.
pub proof fn law_socket_text(addr: SocketAddr)
    ensures
        match addr {
            SocketAddr::V4(a) => ip_text::socket_text(addr) == ip_text::ip_text(IpAddr::V4(a.ip))
                + seq![':'] + digits::numeral(a.port as nat, 10),
            SocketAddr::V6(a) => {
                let inside = if a.scope_id == 0 {
                    ip_text::ip_text(IpAddr::V6(a.ip))
                } else {
                    ip_text::ip_text(IpAddr::V6(a.ip)) + seq!['%'] + digits::numeral(
                        a.scope_id as nat,
                        10,
                    )
                };
                ip_text::socket_text(addr) == seq!['['] + inside + seq![']', ':']
                    + digits::numeral(a.port as nat, 10)
            },
        },
{
    reveal_strlit(":");
    reveal_strlit("%");
    reveal_strlit("[");
    reveal_strlit("]:");
    assert(":"@ =~= seq![':']);
    assert("%"@ =~= seq!['%']);
    assert("["@ =~= seq!['[']);
    assert("]:"@ =~= seq![']', ':']);
    if let SocketAddr::V6(a) = addr {
        if a.scope_id == 0 {
            assert(ip_text::socket_text(addr) =~= seq!['['] + ip_text::ip_text(IpAddr::V6(a.ip))
                + seq![']', ':'] + digits::numeral(a.port as nat, 10));
        } else {
            assert(ip_text::socket_text(addr) =~= seq!['['] + (ip_text::ip_text(IpAddr::V6(a.ip))
                + seq!['%'] + digits::numeral(a.scope_id as nat, 10)) + seq![']', ':']
                + digits::numeral(a.port as nat, 10));
        }
    }
}

/// Pieces with a separator between them.
pub open spec fn glued(parts: Seq<Seq<u8>>, sep: u8) -> Seq<u8>
    decreases parts.len(),
{
    if parts.len() == 0 {
        Seq::empty()
    } else if parts.len() == 1 {
        parts[0]
    } else {
        glued(parts.drop_last(), sep).push(sep) + parts.last()
    }
}

/// Pieces that were cut apart make the whole again.
proof fn lemma_glue_split(b: Seq<u8>, sep: u8)
    ensures
        glued(ip_parse::split(b, sep), sep) == b,
    decreases b.len(),
{
    let all = ip_parse::split(b, sep);
    if b.len() == 0 {
        assert(all[0] =~= b);
    } else {
        let init = ip_parse::split(b.drop_last(), sep);
        lemma_glue_split(b.drop_last(), sep);
        ip_laws::lemma_split_some(b.drop_last(), sep);
        let c = b.last();
        if c == sep {
            assert(all.drop_last() =~= init);
            assert(all.last() =~= Seq::empty());
            assert(glued(all, sep) =~= b.drop_last().push(c));
        } else if init.len() == 1 {
            assert(all =~= seq![init[0].push(c)]);
            assert(glued(all, sep) == b.drop_last().push(c));
        } else {
            assert(all.drop_last() =~= init.drop_last());
            assert(all.last() == init.last().push(c));
            assert(glued(all, sep) =~= glued(init, sep).push(c));
        }
        assert(b.drop_last().push(c) =~= b);
    }
}

/// Pieces without separators come apart again.
proof fn lemma_split_glue(parts: Seq<Seq<u8>>, sep: u8)
    requires
        parts.len() >= 1,
        forall|i: int, j: int|
            0 <= i < parts.len() && 0 <= j < parts[i].len() ==> #[trigger] parts[i][j] != sep,
    ensures
        ip_parse::split(glued(parts, sep), sep) == parts,
    decreases parts.len(),
{
    let last = parts[parts.len() - 1];
    assert forall|j: int| 0 <= j < last.len() implies last[j] != sep by {
        assert(parts[parts.len() - 1][j] != sep);
    }
    if parts.len() == 1 {
        ip_laws::lemma_split_one(last, sep);
        assert(parts =~= seq![last]);
    } else {
        let front = parts.drop_last();
        assert forall|i: int, j: int|
            0 <= i < front.len() && 0 <= j < front[i].len() implies #[trigger] front[i][j]
            != sep by {
            assert(parts[i][j] != sep);
        }
        lemma_split_glue(front, sep);
        ip_laws::lemma_split_next(glued(front, sep), last, sep);
        assert(parts =~= front.push(last));
    }
}

/// A decimal digit has one byte.
proof fn lemma_decimal_digit(c: u8)
    requires
        ip_parse::digit_of(c) < 10,
    ensures
        digits::digit_char(ip_parse::digit_of(c) as nat) as u8 == c,
{
}

/// Digits without a needless zero in front are the numeral of their number.
proof fn lemma_decimal(b: Seq<u8>)
    requires
        b.len() >= 1,
        ip_laws::all_digits(b, 10),
        b[0] == ip_parse::ZERO ==> b.len() == 1,
    ensures
        ip_laws::ascii(
            digits::numeral(digits::place_value(ip_parse::digits_of(b), 10), 10),
        ) == b,
        b[0] != ip_parse::ZERO ==> digits::place_value(ip_parse::digits_of(b), 10) >= 1,
    decreases b.len(),
{
    let ds = ip_parse::digits_of(b);
    let n = digits::place_value(ds, 10);
    let d = ds.last() as nat;
    assert(ds[b.len() - 1] < 10);
    lemma_decimal_digit(b.last());
    reveal_with_fuel(digits::place_value, 2);
    if b.len() == 1 {
        assert(ds.drop_last() =~= Seq::empty());
        assert(n == d);
        assert(ip_laws::ascii(digits::numeral(n, 10)) =~= b);
    } else {
        let c = b.drop_last();
        let cs = ip_parse::digits_of(c);
        assert(ds.drop_last() =~= cs);
        assert forall|i: int| 0 <= i < c.len() implies (#[trigger] cs[i]) < 10 by {
            assert(ds[i] < 10);
        }
        lemma_decimal(c);
        let m = digits::place_value(cs, 10);
        assert(n == m * 10 + d);
        lemma_fundamental_div_mod_converse(n as int, 10, m as int, d as int);
        assert(digits::numeral(n, 10) == digits::numeral(m, 10).push(digits::digit_char(d)));
        let t = digits::numeral(n, 10);
        let t0 = digits::numeral(m, 10);
        assert(ip_laws::ascii(t) =~= ip_laws::ascii(t0).push(b.last()));
        assert(b =~= c.push(b.last()));
    }
}

/// The bytes of numbers that are joined.
proof fn lemma_joined_bytes(numbers: Seq<u16>, base: nat, sep: char)
    ensures
        ip_laws::ascii(ip_text::joined(numbers, base, sep)) == glued(
            ip_laws::pieces(numbers, base),
            sep as u8,
        ),
    decreases numbers.len(),
{
    let parts = ip_laws::pieces(numbers, base);
    if numbers.len() > 1 {
        lemma_joined_bytes(numbers.drop_last(), base, sep);
        assert(parts.drop_last() =~= ip_laws::pieces(numbers.drop_last(), base));
    }
    assert(ip_laws::ascii(ip_text::joined(numbers, base, sep)) =~= glued(parts, sep as u8));
}

/// What reads as a dotted address is the text of that address.
proof fn lemma_dotted_is_text(b: Seq<u8>) -> (v: u32)
    requires
        ip_parse::dotted(b) is Some,
    ensures
        net::ipv4_of(ip_parse::dotted(b)->0) == IpAddr::V4(v),
        ip_parse::dotted(b)->0 == net::octets(v),
        b == ip_laws::ascii(ip_text::ipv4_text(v)),
{
    let o = ip_parse::dotted(b)->0;
    let parts = ip_parse::split(b, ip_parse::DOT);
    ip_parse::lemma_dotted(b);
    digits::lemma_place_value_bound(o, 256);
    reveal(pow);
    reveal_with_fuel(pow, 5);
    assert(pow(256, 4) == 0x1_0000_0000);
    let v = digits::place_value(o, 256) as u32;
    digits::lemma_digits_of_value(o, 256);
    assert forall|i: int| 0 <= i < 4 implies parts[i] == ip_laws::pieces(o, 10)[i] by {
        let p = parts[i];
        assert(ip_parse::octet(p) == Some(o[i]));
        lemma_decimal(p);
        lemma_small_number(p, 10, 3);
    }
    assert(parts =~= ip_laws::pieces(o, 10));
    lemma_glue_split(b, ip_parse::DOT);
    lemma_joined_bytes(o, 10, '.');
    v
}

/// A number of few digits is small.
proof fn lemma_small_number(b: Seq<u8>, base: nat, max: nat)
    requires
        (base == 10 && max == 3) || (base == 16 && max == 4),
        b.len() <= max,
        ip_laws::all_digits(b, base),
    ensures
        digits::place_value(ip_parse::digits_of(b), base) < 0x1_0000,
{
    let ds = ip_parse::digits_of(b);
    digits::lemma_place_value_bound(ds, base);
    lemma_pow_increases(base, b.len(), max);
    reveal(pow);
    reveal_with_fuel(pow, 5);
    assert(pow(10, 3) == 1000);
    assert(pow(16, 4) == 0x1_0000);
}

/// A text reads as a dotted address exactly where it is the text of that address: there is one
/// way to write each.
pub proof fn law_dotted_texts(t: Seq<char>, v: u32)
    ensures
        ip_parse::ip_of_text(t) == Some(IpAddr::V4(v)) <==> t == ip_text::ip_text(IpAddr::V4(v)),
{
    ip_laws::law_text_reads_back(IpAddr::V4(v));
    if ip_parse::ip_of_text(t) == Some(IpAddr::V4(v)) {
        reveal(ip_parse::ip_of_text);
        let b = vstd::utf8::encode_utf8(t);
        let w = lemma_dotted_is_text(b);
        assert(v == w);
        let s = ip_text::ipv4_text(v);
        ip_laws::lemma_dotted_text(v);
        vstd::utf8::is_ascii_chars_encode_utf8(s);
        assert(vstd::utf8::encode_utf8(s) =~= ip_laws::ascii(s));
        vstd::utf8::encode_utf8_decode_utf8(s);
        vstd::utf8::encode_utf8_decode_utf8(t);
    }
}

/// What a hexadecimal digit stands for, in either case; nothing for any other byte.
pub open spec fn hex_digit(c: u8) -> Option<nat> {
    if 48 <= c <= 57 {
        Some((c - 48) as nat)
    } else if 65 <= c <= 70 {
        Some((c - 55) as nat)
    } else if 97 <= c <= 102 {
        Some((c - 87) as nat)
    } else {
        None
    }
}

/// The number that hexadecimal digits write.
pub open spec fn hex_number(b: Seq<u8>) -> nat
    decreases b.len(),
{
    if b.len() == 0 {
        0
    } else {
        hex_number(b.drop_last()) * 16 + hex_digit(b.last())->0
    }
}

/// Whether one to four hexadecimal digits write the group.
pub open spec fn is_word(b: Seq<u8>, x: u16) -> bool {
    &&& 1 <= b.len() <= 4
    &&& forall|i: int| 0 <= i < b.len() ==> hex_digit(#[trigger] b[i]) is Some
    &&& hex_number(b) == x
}

/// Whether a dotted address writes the two groups.
pub open spec fn is_quad(b: Seq<u8>, hi: u16, lo: u16) -> bool {
    exists|low: u32|
        low == hi * 65536 + lo && b == vstd::utf8::encode_utf8(
            #[trigger] ip_text::ip_text(IpAddr::V4(low)),
        )
}

/// Whether the pieces are words for the groups, one for each.
pub open spec fn are_words(parts: Seq<Seq<u8>>, g: Seq<u16>) -> bool {
    parts.len() == g.len() && forall|i: int| 0 <= i < g.len() ==> is_word(#[trigger] parts[i], g[i])
}

/// Whether `b` writes the groups with colons between them; with `quad` the last two may be
/// written as a dotted address.
#[verifier::opaque]
pub open spec fn spells(b: Seq<u8>, g: Seq<u16>, quad: bool) -> bool {
    ||| exists|parts: Seq<Seq<u8>>| #[trigger] are_words(parts, g) && b == glued(parts, 58)
    ||| quad && g.len() >= 2 && exists|parts: Seq<Seq<u8>>, last: Seq<u8>|
        #![trigger parts.push(last)]
        are_words(parts, g.take(g.len() - 2)) && is_quad(last, g[g.len() - 2], g[g.len() - 1]) && b
            == glued(parts.push(last), 58)
}

/// Whether `b` writes the eight groups: all of them, or with `::` in place of one or more zeros.
pub open spec fn spells_address(b: Seq<u8>, g: Seq<u16>) -> bool {
    &&& g.len() == 8
    &&& spells(b, g, true) || exists|h: Seq<u8>, e: Seq<u8>, gh: Seq<u16>, ge: Seq<u16>|
        #![trigger spells(h, gh, false), spells(e, ge, true)]
        spells(h, gh, false) && spells(e, ge, true) && gh.len() + ge.len() <= 7 && b == h + seq![
            58u8,
            58u8,
        ] + e && g == gh + Seq::new((8 - gh.len() - ge.len()) as nat, |i: int| 0u16) + ge
}

/// A digit is read the same.
proof fn lemma_hex_digit(c: u8)
    ensures
        hex_digit(c) is Some <==> ip_parse::digit_of(c) < 16,
        hex_digit(c) is Some ==> hex_digit(c)->0 == ip_parse::digit_of(c),
        hex_digit(c) is Some ==> c != 58 && c != 46,
{
}

/// A number is read the same.
proof fn lemma_hex_number(b: Seq<u8>)
    requires
        ip_laws::all_digits(b, 16),
    ensures
        hex_number(b) == digits::place_value(ip_parse::digits_of(b), 16),
    decreases b.len(),
{
    let ds = ip_parse::digits_of(b);
    if b.len() > 0 {
        let c = b.drop_last();
        assert(ds.drop_last() =~= ip_parse::digits_of(c));
        assert forall|i: int| 0 <= i < c.len() implies (#[trigger] ip_parse::digits_of(c)[i])
            < 16 by {
            assert(ds[i] < 16);
        }
        assert(ds[b.len() - 1] < 16);
        lemma_hex_digit(b.last());
        lemma_hex_number(c);
    }
}

/// A group is a word, and holds neither colon nor dot.
proof fn lemma_group_is_word(b: Seq<u8>, x: u16)
    ensures
        ip_parse::group(b) == Some(x) <==> is_word(b, x),
        is_word(b, x) ==> forall|i: int| 0 <= i < b.len() ==> b[i] != 58 && b[i] != 46,
{
    assert forall|i: int| 0 <= i < b.len() implies (hex_digit(#[trigger] b[i]) is Some
        <==> ip_parse::digits_of(b)[i] < 16) && (hex_digit(b[i]) is Some ==> b[i] != 58 && b[i]
        != 46) by {
        lemma_hex_digit(b[i]);
    }
    if ip_parse::group(b) is Some || is_word(b, x) {
        assert(ip_laws::all_digits(b, 16)) by {
            assert forall|i: int| 0 <= i < b.len() implies (#[trigger] ip_parse::digits_of(b)[i])
                < 16 by {
                assert(hex_digit(b[i]) is Some <==> ip_parse::digits_of(b)[i] < 16);
            }
        }
        lemma_hex_number(b);
        lemma_small_number(b, 16, 4);
        if ip_parse::group(b) is Some {
            assert forall|i: int| 0 <= i < b.len() implies hex_digit(#[trigger] b[i]) is Some by {
                assert(ip_parse::digits_of(b)[i] < 16);
            }
        }
    }
}

/// The bytes of a dotted address.
proof fn lemma_quad_bytes(low: u32)
    ensures
        vstd::utf8::encode_utf8(ip_text::ip_text(IpAddr::V4(low))) == ip_laws::ascii(
            ip_text::ipv4_text(low),
        ),
{
    let s = ip_text::ipv4_text(low);
    ip_laws::lemma_dotted_text(low);
    vstd::utf8::is_ascii_chars_encode_utf8(s);
    assert(vstd::utf8::encode_utf8(s) =~= ip_laws::ascii(s));
}

/// A dotted address is a quad, holds no colon, and is no group.
proof fn lemma_dotted_is_quad(b: Seq<u8>, hi: u16, lo: u16)
    ensures
        (ip_parse::dotted(b) matches Some(o) && ip_parse::packed(o) == seq![hi, lo]) <==> is_quad(
            b,
            hi,
            lo,
        ),
        is_quad(b, hi, lo) ==> ip_parse::group(b) is None,
        is_quad(b, hi, lo) ==> forall|i: int| 0 <= i < b.len() ==> b[i] != 58,
{
    if ip_parse::dotted(b) matches Some(o) && ip_parse::packed(o) == seq![hi, lo] {
        let low = lemma_dotted_is_text(b);
        ip_laws::lemma_packed(low);
        lemma_quad_bytes(low);
        let g = ip_parse::packed(net::octets(low));
        assert(g[0] == hi && g[1] == lo);
        assert(low == hi * 65536 + lo);
        assert(b == vstd::utf8::encode_utf8(ip_text::ip_text(IpAddr::V4(low))));
    }
    if is_quad(b, hi, lo) {
        let low = choose|low: u32|
            low == hi * 65536 + lo && b == vstd::utf8::encode_utf8(
                #[trigger] ip_text::ip_text(IpAddr::V4(low)),
            );
        lemma_quad_bytes(low);
        ip_laws::lemma_dotted_text(low);
        ip_laws::lemma_packed(low);
        let o = net::octets(low);
        let g = ip_parse::packed(o);
        assert(g[0] == hi && g[1] == lo);
        assert(g =~= seq![hi, lo]);
        assert forall|i: int| 0 <= i < b.len() implies b[i] != 58 by {
            if b[i] == 58 {
                ip_laws::lemma_colon_not_dotted(b, i);
            }
        }
        assert(ip_parse::group(b) is None) by {
            let text = ip_text::ipv4_text(low);
            let dot = ip_text::joined(o.drop_last(), 10, '.').len() as int;
            assert(text[dot] == '.');
            assert(ip_parse::digits_of(b)[dot] == 16);
        }
    }
}

/// Words are groups.
proof fn lemma_words(parts: Seq<Seq<u8>>, g: Seq<u16>)
    ensures
        are_words(parts, g) <==> ip_parse::all_groups(parts) && ip_parse::group_values(parts) == g,
        are_words(parts, g) ==> forall|i: int, j: int|
            0 <= i < parts.len() && 0 <= j < parts[i].len() ==> #[trigger] parts[i][j] != 58,
        are_words(parts, g) ==> forall|i: int|
            0 <= i < parts.len() ==> (#[trigger] parts[i]).len() >= 1,
{
    if are_words(parts, g) {
        assert forall|i: int| 0 <= i < parts.len() implies ip_parse::group(#[trigger] parts[i])
            == Some(g[i]) by {
            lemma_group_is_word(parts[i], g[i]);
        }
        assert(ip_parse::group_values(parts) =~= g);
        assert forall|i: int, j: int|
            0 <= i < parts.len() && 0 <= j < parts[i].len() implies #[trigger] parts[i][j]
            != 58 by {
            lemma_group_is_word(parts[i], g[i]);
        }
        assert forall|i: int| 0 <= i < parts.len() implies (#[trigger] parts[i]).len() >= 1 by {
            assert(is_word(parts[i], g[i]));
        }
    }
    if ip_parse::all_groups(parts) && ip_parse::group_values(parts) == g {
        assert forall|i: int| 0 <= i < g.len() implies is_word(#[trigger] parts[i], g[i]) by {
            assert(ip_parse::group(parts[i]) is Some);
            lemma_group_is_word(parts[i], g[i]);
        }
    }
}

/// What reads as groups spells them.
proof fn lemma_groups_spell(b: Seq<u8>, g: Seq<u16>, quad: bool)
    requires
        ip_parse::groups(ip_parse::split(b, ip_parse::COLON), quad) == Some(g),
    ensures
        spells(b, g, quad),
{
    reveal(spells);
    let parts = ip_parse::split(b, ip_parse::COLON);
    lemma_glue_split(b, ip_parse::COLON);
    if ip_parse::all_groups(parts) {
        lemma_words(parts, g);
        assert(are_words(parts, g));
    } else {
        let front = parts.drop_last();
        let last = parts.last();
        let o = ip_parse::dotted(last)->0;
        let pair = ip_parse::packed(o);
        let n = g.len() as int;
        assert(g.take(n - 2) =~= ip_parse::group_values(front));
        assert(pair =~= seq![g[n - 2], g[n - 1]]);
        lemma_words(front, g.take(n - 2));
        lemma_dotted_is_quad(last, g[n - 2], g[n - 1]);
        assert(parts =~= front.push(last));
        assert(are_words(front, g.take(n - 2)) && is_quad(last, g[n - 2], g[n - 1]));
    }
}

/// What spells groups reads as them; it has no empty piece.
proof fn lemma_spelled_reads(b: Seq<u8>, g: Seq<u16>, quad: bool)
    requires
        spells(b, g, quad),
        g.len() >= 1,
    ensures
        ip_parse::groups(ip_parse::split(b, ip_parse::COLON), quad) == Some(g),
        forall|k: int| !ip_parse::gap_at(b, k),
        b.len() >= 1,
        b.last() != 58,
{
    reveal(spells);
    if exists|parts: Seq<Seq<u8>>| #[trigger] are_words(parts, g) && b == glued(parts, 58) {
        let parts = choose|parts: Seq<Seq<u8>>| #[trigger]
            are_words(parts, g) && b == glued(parts, 58);
        lemma_words(parts, g);
        lemma_pieces(parts, b);
    } else {
        let n = g.len() as int;
        let (front, last) = choose|front: Seq<Seq<u8>>, last: Seq<u8>|
            #![trigger front.push(last)]
            are_words(front, g.take(n - 2)) && is_quad(last, g[n - 2], g[n - 1]) && b == glued(
                front.push(last),
                58,
            );
        let parts = front.push(last);
        lemma_words(front, g.take(n - 2));
        lemma_dotted_is_quad(last, g[n - 2], g[n - 1]);
        assert(last.len() >= 1) by {
            if last.len() == 0 {
                assert(ip_parse::split(last, ip_parse::DOT).len() == 1);
            }
        }
        assert forall|i: int, j: int|
            0 <= i < parts.len() && 0 <= j < parts[i].len() implies #[trigger] parts[i][j]
            != 58 by {
            if i < front.len() {
                assert(front[i][j] != 58);
            }
        }
        assert forall|i: int| 0 <= i < parts.len() implies (#[trigger] parts[i]).len() >= 1 by {
            if i < front.len() {
                assert(front[i].len() >= 1);
            }
        }
        lemma_pieces(parts, b);
        assert(parts.drop_last() =~= front);
        assert(!ip_parse::all_groups(parts)) by {
            assert(parts[front.len() as int] == last);
        }
        assert(g.take(n - 2) + seq![g[n - 2], g[n - 1]] =~= g);
    }
}

/// Glued pieces that are not empty and hold no colon come apart, without a gap.
proof fn lemma_pieces(parts: Seq<Seq<u8>>, b: Seq<u8>)
    requires
        parts.len() >= 1,
        b == glued(parts, 58),
        forall|i: int, j: int|
            0 <= i < parts.len() && 0 <= j < parts[i].len() ==> #[trigger] parts[i][j] != 58,
        forall|i: int| 0 <= i < parts.len() ==> (#[trigger] parts[i]).len() >= 1,
    ensures
        ip_parse::split(b, ip_parse::COLON) == parts,
        forall|k: int| !ip_parse::gap_at(b, k),
        b.len() >= 1,
        b.last() != 58,
        parts.len() >= 2 ==> exists|k: int| 0 <= k < b.len() && b[k] == 58,
{
    lemma_split_glue(parts, 58);
    assert forall|k: int| !ip_parse::gap_at(b, k) by {
        if ip_parse::gap_at(b, k) {
            ip_laws::lemma_gap_is_empty_piece(b, k);
            let i = choose|i: int|
                0 <= i < parts.len() && #[trigger] parts[i] == Seq::<u8>::empty();
            assert(parts[i].len() >= 1);
        }
    }
    let last = parts[parts.len() - 1];
    assert(last.len() >= 1);
    assert(parts[parts.len() - 1][last.len() - 1] != 58);
    assert(b.last() == last.last());
    if parts.len() >= 2 {
        let k = glued(parts.drop_last(), 58).len() as int;
        assert(b[k] == 58);
    }
}

/// Nothing spells no groups but nothing.
proof fn lemma_spells_none(b: Seq<u8>, quad: bool)
    ensures
        spells(b, Seq::empty(), quad) <==> b.len() == 0,
{
    reveal(spells);
    let none = Seq::<u16>::empty();
    if b.len() == 0 {
        let parts = Seq::<Seq<u8>>::empty();
        assert(are_words(parts, none));
        assert(b =~= glued(parts, 58));
    }
}

/// One side of `::` reads as what it spells.
proof fn lemma_side_spells(b: Seq<u8>, g: Seq<u16>, quad: bool)
    ensures
        ip_parse::groups(ip_parse::side(b), quad) == Some(g) <==> spells(b, g, quad),
{
    if b.len() == 0 {
        let none = ip_parse::side(b);
        assert(ip_parse::group_values(none) =~= Seq::<u16>::empty());
        lemma_spells_none(b, quad);
        if spells(b, g, quad) && g.len() >= 1 {
            lemma_spelled_reads(b, g, quad);
        }
        if g.len() == 0 {
            assert(g =~= Seq::empty());
        }
    } else {
        if ip_parse::groups(ip_parse::side(b), quad) == Some(g) {
            lemma_groups_spell(b, g, quad);
        }
        if spells(b, g, quad) {
            if g.len() == 0 {
                assert(g =~= Seq::empty());
                lemma_spells_none(b, quad);
            } else {
                lemma_spelled_reads(b, g, quad);
            }
        }
    }
}

/// What reads as a colon address spells it.
proof fn lemma_coloned_is_spelled(b: Seq<u8>, g: Seq<u16>)
    requires
        ip_parse::coloned(b) == Some(g),
        g.len() == 8,
    ensures
        spells_address(b, g),
{
    if exists|k: int| ip_parse::first_gap(b, k) {
        let k = choose|k: int| ip_parse::first_gap(b, k);
        assert(ip_parse::first_gap(b, k));
        let h = b.take(k);
        let e = b.skip(k + 2);
        let gh = ip_parse::groups(ip_parse::side(h), false)->0;
        let ge = ip_parse::groups(ip_parse::side(e), true)->0;
        lemma_side_spells(h, gh, false);
        lemma_side_spells(e, ge, true);
        assert(b =~= h + seq![58u8, 58u8] + e);
        assert(spells(h, gh, false) && spells(e, ge, true));
    } else {
        lemma_groups_spell(b, g, true);
    }
}

/// After what spells groups, `::` comes for the first time.
proof fn lemma_gap_after(h: Seq<u8>, gh: Seq<u16>, e: Seq<u8>, b: Seq<u8>)
    requires
        spells(h, gh, false),
        b == h + seq![58u8, 58u8] + e,
    ensures
        ip_parse::first_gap(b, h.len() as int),
{
    let k = h.len() as int;
    assert(b[k] == 58 && b[k + 1] == 58);
    if gh.len() == 0 {
        assert(gh =~= Seq::empty());
        lemma_spells_none(h, false);
    } else {
        lemma_spelled_reads(h, gh, false);
        assert forall|j: int| 0 <= j < k implies !ip_parse::gap_at(b, j) by {
            assert(!ip_parse::gap_at(h, j));
            if j == k - 1 {
                assert(h.last() == b[j]);
            }
        }
    }
}

/// What two sides of `::` spell reads as their groups, with zeros between.
proof fn lemma_around_reads(h: Seq<u8>, e: Seq<u8>, gh: Seq<u16>, ge: Seq<u16>, b: Seq<u8>)
    requires
        spells(h, gh, false),
        spells(e, ge, true),
        gh.len() + ge.len() <= 7,
        b == h + seq![58u8, 58u8] + e,
    ensures
        ip_parse::coloned(b) == Some(
            gh + Seq::new((8 - gh.len() - ge.len()) as nat, |i: int| 0u16) + ge,
        ),
{
    let k = h.len() as int;
    lemma_side_spells(h, gh, false);
    lemma_side_spells(e, ge, true);
    assert(b.take(k) =~= h);
    assert(b.skip(k + 2) =~= e);
    lemma_gap_after(h, gh, e, b);
    ip_laws::lemma_chosen_gap(b, k);
}

/// A colon address reads as what it spells.
proof fn lemma_coloned_spells(b: Seq<u8>, g: Seq<u16>)
    ensures
        ip_parse::coloned(b) == Some(g) && g.len() == 8 <==> spells_address(b, g),
{
    if ip_parse::coloned(b) == Some(g) && g.len() == 8 {
        lemma_coloned_is_spelled(b, g);
    }
    if spells_address(b, g) {
        if spells(b, g, true) {
            lemma_spelled_reads(b, g, true);
        } else {
            let (h, e, gh, ge) = choose|h: Seq<u8>, e: Seq<u8>, gh: Seq<u16>, ge: Seq<u16>|
                #![trigger spells(h, gh, false), spells(e, ge, true)]
                spells(h, gh, false) && spells(e, ge, true) && gh.len() + ge.len() <= 7 && b == h
                    + seq![58u8, 58u8] + e && g == gh + Seq::new(
                    (8 - gh.len() - ge.len()) as nat,
                    |i: int| 0u16,
                ) + ge;
            lemma_around_reads(h, e, gh, ge, b);
        }
    }
}

/// What spells an address holds a colon.
proof fn lemma_spelled_has_colon(b: Seq<u8>, g: Seq<u16>)
    requires
        spells_address(b, g),
    ensures
        ip_parse::dotted(b) is None,
{
    if spells(b, g, true) {
        lemma_spelled_reads(b, g, true);
        let parts = ip_parse::split(b, 58);
        lemma_glue_split(b, 58);
        assert(parts.len() >= 7);
        let k = glued(parts.drop_last(), 58).len() as int;
        assert(b[k] == 58);
        ip_laws::lemma_colon_not_dotted(b, k);
    } else {
        let (h, e, gh, ge) = choose|h: Seq<u8>, e: Seq<u8>, gh: Seq<u16>, ge: Seq<u16>|
            #![trigger spells(h, gh, false), spells(e, ge, true)]
            spells(h, gh, false) && spells(e, ge, true) && gh.len() + ge.len() <= 7 && b == h
                + seq![58u8, 58u8] + e && g == gh + Seq::new(
                (8 - gh.len() - ge.len()) as nat,
                |i: int| 0u16,
            ) + ge;
        assert(b[h.len() as int] == 58);
        ip_laws::lemma_colon_not_dotted(b, h.len() as int);
    }
}

/// Groups of colon addresses are eight.
proof fn lemma_coloned_is_eight(b: Seq<u8>)
    ensures
        ip_parse::coloned(b) matches Some(g) ==> g.len() == 8,
{
}

/// A text reads as a colon address exactly where it spells the eight groups of its bits.
pub proof fn law_colon_texts(t: Seq<char>, v: u128)
    ensures
        ip_parse::ip_of_text(t) == Some(IpAddr::V6(v)) <==> exists|g: Seq<u16>| #[trigger]
            spells_address(vstd::utf8::encode_utf8(t), g) && groups_are(g, v),
{
    reveal(ip_parse::ip_of_text);
    let b = vstd::utf8::encode_utf8(t);
    if ip_parse::ip_of_text(t) == Some(IpAddr::V6(v)) {
        let g = ip_parse::coloned(b)->0;
        lemma_coloned_is_eight(b);
        lemma_coloned_spells(b, g);
        digits::lemma_place_value_bound(g, 0x1_0000);
        reveal(pow);
        reveal_with_fuel(pow, 9);
        assert(pow(0x1_0000, 8) == u128::MAX + 1);
        digits::lemma_digits_of_value(g, 0x1_0000);
        assert(g == net::segments(v));
        lemma_groups_are(g, v);
        assert(spells_address(b, g) && groups_are(g, v));
    }
    if exists|g: Seq<u16>| #[trigger] spells_address(b, g) && groups_are(g, v) {
        let g = choose|g: Seq<u16>| #[trigger] spells_address(b, g) && groups_are(g, v);
        lemma_groups_are(g, v);
        lemma_coloned_spells(b, g);
        lemma_spelled_has_colon(b, g);
        ip_laws::lemma_segments(v);
    }
}

/// What [`IpAddr::parse`] gives: the address whose text it is, in whichever form, and the error
/// where there is none.
pub proof fn law_parse_call(text: &str, r: Result<IpAddr, crate::net::AddrParseError>)
    requires
        call_ensures(IpAddr::parse, (text,), r),
    ensures
        match r {
            Ok(IpAddr::V4(v)) => text@ == ip_text::ip_text(IpAddr::V4(v)),
            Ok(IpAddr::V6(v)) => exists|g: Seq<u16>| #[trigger]
                spells_address(vstd::utf8::encode_utf8(text@), g) && groups_are(g, v),
            Err(_) => {
                &&& forall|v: u32| text@ != #[trigger] ip_text::ip_text(IpAddr::V4(v))
                &&& forall|g: Seq<u16>, v: u128|
                    !(#[trigger] spells_address(vstd::utf8::encode_utf8(text@), g)
                        && #[trigger] groups_are(g, v))
            },
        },
{
    match r {
        Ok(IpAddr::V4(v)) => {
            law_dotted_texts(text@, v);
        },
        Ok(IpAddr::V6(v)) => {
            law_colon_texts(text@, v);
        },
        Err(_) => {
            assert forall|v: u32| text@ != #[trigger] ip_text::ip_text(IpAddr::V4(v)) by {
                law_dotted_texts(text@, v);
            }
            assert forall|g: Seq<u16>, v: u128|
                !(#[trigger] spells_address(vstd::utf8::encode_utf8(text@), g)
                    && #[trigger] groups_are(g, v)) by {
                law_colon_texts(text@, v);
            }
        },
    }
}

} // verus!
