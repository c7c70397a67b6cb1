//! Reading an address back from its text gives the address.

use crate::digits;
use crate::ip_parse;
use crate::ip_text;
use crate::net;
use crate::net::IpAddr;
use vstd::arithmetic::div_mod::*;
use vstd::arithmetic::mul::*;
use vstd::arithmetic::power::*;
use vstd::prelude::*;

verus! {

/// The bytes of characters that are one byte each.
pub open spec fn ascii(t: Seq<char>) -> Seq<u8> {
    Seq::new(t.len(), |i: int| t[i] as u8)
}

/// Whether every byte is a digit in `base`.
pub open spec fn all_digits(b: Seq<u8>, base: nat) -> bool {
    forall|i: int| 0 <= i < b.len() ==> (#[trigger] ip_parse::digits_of(b)[i]) < base
}

/// The byte of a digit stands for it.
proof fn lemma_digit_byte(d: nat)
    requires
        d < 16,
    ensures
        ip_parse::digit_of(digits::digit_char(d) as u8) == d,
        (digits::digit_char(d) as u32) < 128,
        digits::digit_char(d) as u8 == ip_parse::ZERO <==> d == 0,
{
}

/// A number that is written out reads back; it has no needless zero in front, and no more
/// digits than it takes.
pub proof fn lemma_numeral(n: nat, base: nat, max: nat)
    requires
        base == 10 || base == 16,
        max >= 1,
        n < pow(base as int, max),
    ensures
        1 <= digits::numeral(n, base).len() <= max,
        vstd::utf8::is_ascii_chars(digits::numeral(n, base)),
        all_digits(ascii(digits::numeral(n, base)), base),
        digits::place_value(ip_parse::digits_of(ascii(digits::numeral(n, base))), base) == n,
        ascii(digits::numeral(n, base))[0] == ip_parse::ZERO ==> n == 0,
        n < base ==> digits::numeral(n, base).len() == 1,
    decreases n,
{
    reveal(pow);
    let t = digits::numeral(n, base);
    let b = ascii(t);
    let ds = ip_parse::digits_of(b);
    if n < base {
        lemma_digit_byte(n);
        assert(ds.drop_last() =~= Seq::empty());
        reveal_with_fuel(digits::place_value, 2);
    } else {
        let q = n / base;
        let r = n % base;
        lemma_div_decreases(n as int, base as int);
        lemma_mod_bound(n as int, base as int);
        lemma_fundamental_div_mod(n as int, base as int);
        lemma_digit_byte(r);
        if max == 1 {
            assert(pow(base as int, 1) == base) by {
                reveal_with_fuel(pow, 2);
            }
        }
        let p = pow(base as int, (max - 1) as nat);
        assert(q < p) by (nonlinear_arith)
            requires
                n < base * p,
                q == n / base,
                base > 0,
        ;
        lemma_numeral(q, base, (max - 1) as nat);
        let t0 = digits::numeral(q, base);
        let b0 = ascii(t0);
        assert(t =~= t0.push(digits::digit_char(r)));
        assert(b.drop_last() =~= b0);
        assert(ds.drop_last() =~= ip_parse::digits_of(b0));
        assert(b[0] == b0[0]);
        assert forall|i: int| 0 <= i < b.len() implies (#[trigger] ds[i]) < base by {
            if i < b0.len() {
                assert(ip_parse::digits_of(b0)[i] == ds[i]);
            }
        }
        assert(q >= 1) by (nonlinear_arith)
            requires
                n >= base,
                q == n / base,
                base > 0,
        ;
        lemma_mul_is_commutative(base as int, q as int);
    }
}

/// One number of a dotted address reads back.
proof fn lemma_octet(v: u16)
    requires
        v <= 255,
    ensures
        ip_parse::octet(ascii(digits::numeral(v as nat, 10))) == Some(v),
{
    reveal(pow);
    reveal_with_fuel(pow, 4);
    assert(pow(10, 3) == 1000);
    lemma_numeral(v as nat, 10, 3);
    if v == 0 {
        lemma_numeral(v as nat, 10, 1);
    }
}

/// One group of a colon address reads back.
proof fn lemma_group(v: u16)
    ensures
        ip_parse::group(ascii(digits::numeral(v as nat, 16))) == Some(v),
{
    reveal(pow);
    reveal_with_fuel(pow, 5);
    assert(pow(16, 4) == 0x1_0000);
    lemma_numeral(v as nat, 16, 4);
}

/// Cutting leaves at least one piece.
pub proof fn lemma_split_some(b: Seq<u8>, sep: u8)
    ensures
        ip_parse::split(b, sep).len() >= 1,
    decreases b.len(),
{
    if b.len() > 0 {
        lemma_split_some(b.drop_last(), sep);
    }
}

/// Bytes without a separator go on with the last piece.
proof fn lemma_split_extends(a: Seq<u8>, p: Seq<u8>, sep: u8)
    requires
        forall|i: int| 0 <= i < p.len() ==> p[i] != sep,
    ensures
        ip_parse::split(a + p, sep) == ip_parse::split(a, sep).drop_last().push(
            ip_parse::split(a, sep).last() + p,
        ),
    decreases p.len(),
{
    let init = ip_parse::split(a, sep);
    lemma_split_some(a, sep);
    if p.len() == 0 {
        assert(a + p =~= a);
        assert(init.last() + p =~= init.last());
        assert(init =~= init.drop_last().push(init.last()));
    } else {
        let q = p.drop_last();
        lemma_split_extends(a, q, sep);
        assert((a + p).drop_last() =~= a + q);
        let before = ip_parse::split(a + q, sep);
        assert(before.drop_last() =~= init.drop_last());
        assert((init.last() + q).push(p.last()) =~= init.last() + p);
    }
}

/// A separator starts a new piece.
pub proof fn lemma_split_next(a: Seq<u8>, p: Seq<u8>, sep: u8)
    requires
        forall|i: int| 0 <= i < p.len() ==> p[i] != sep,
    ensures
        ip_parse::split(a.push(sep) + p, sep) == ip_parse::split(a, sep).push(p),
{
    lemma_split_extends(a.push(sep), p, sep);
    assert(a.push(sep).drop_last() =~= a);
    let pieces = ip_parse::split(a.push(sep), sep);
    assert(pieces.drop_last() =~= ip_parse::split(a, sep));
    assert(pieces.last() + p =~= p);
}

/// Without a separator there is one piece.
pub proof fn lemma_split_one(p: Seq<u8>, sep: u8)
    requires
        forall|i: int| 0 <= i < p.len() ==> p[i] != sep,
    ensures
        ip_parse::split(p, sep) == seq![p],
{
    lemma_split_extends(Seq::empty(), p, sep);
    assert(Seq::<u8>::empty() + p =~= p);
    assert(ip_parse::split(p, sep) =~= seq![p]);
}

/// The bytes of numbers that are written out.
pub open spec fn pieces(numbers: Seq<u16>, base: nat) -> Seq<Seq<u8>> {
    Seq::new(numbers.len(), |i: int| ascii(digits::numeral(numbers[i] as nat, base)))
}

/// Numbers that are joined fall apart into the numbers, and the text ends with a digit.
proof fn lemma_split_joined(numbers: Seq<u16>, base: nat, sep: char)
    requires
        base == 10 || base == 16,
        numbers.len() >= 1,
        sep == '.' || sep == ':',
    ensures
        ({
            let t = ip_text::joined(numbers, base, sep);
            &&& vstd::utf8::is_ascii_chars(t)
            &&& t.len() >= 1
            &&& ip_parse::digit_of(ascii(t).last()) < base
            &&& ip_parse::split(ascii(t), sep as u8) == pieces(numbers, base)
        }),
    decreases numbers.len(),
{
    let last = numbers.last();
    let word = digits::numeral(last as nat, base);
    let b = ascii(word);
    assert(pow(base as int, 5) > 0xffff) by {
        reveal(pow);
        reveal_with_fuel(pow, 6);
    }
    lemma_numeral(last as nat, base, 5);
    assert forall|i: int| 0 <= i < b.len() implies b[i] != sep as u8 by {
        assert(ip_parse::digits_of(b)[i] < base);
    }
    assert(ip_parse::digits_of(b)[b.len() - 1] < base);
    if numbers.len() == 1 {
        lemma_split_one(b, sep as u8);
        assert(pieces(numbers, base) =~= seq![b]);
    } else {
        let front = numbers.drop_last();
        let t0 = ip_text::joined(front, base, sep);
        let t = ip_text::joined(numbers, base, sep);
        lemma_split_joined(front, base, sep);
        assert(ascii(t) =~= ascii(t0).push(sep as u8) + b);
        lemma_split_next(ascii(t0), b, sep as u8);
        assert(pieces(numbers, base) =~= pieces(front, base).push(b));
    }
}

/// A dotted address reads back.
pub proof fn lemma_dotted_text(v: u32)
    ensures
        vstd::utf8::is_ascii_chars(ip_text::ipv4_text(v)),
        ip_parse::dotted(ascii(ip_text::ipv4_text(v))) == Some(net::octets(v)),
        net::octets(v).len() == 4,
        net::ipv4_of(net::octets(v)) == IpAddr::V4(v),
{
    let o = net::octets(v);
    digits::lemma_place_digits(v as nat, 256, 4);
    lemma_split_joined(o, 10, '.');
    let parts = pieces(o, 10);
    assert forall|i: int| 0 <= i < 4 implies ip_parse::octet(#[trigger] parts[i]) == Some(
        o[i],
    ) by {
        assert(o[i] < 256);
        lemma_octet(o[i]);
    }
    assert(ip_parse::dotted(ascii(ip_text::ipv4_text(v)))->0 =~= o);
    reveal(pow);
    reveal_with_fuel(pow, 5);
    assert(pow(256, 4) == 0x1_0000_0000);
    digits::lemma_value_of_digits(v as nat, 256, 4);
}

/// Every byte that is no separator stands in one of the pieces.
proof fn lemma_split_covers(b: Seq<u8>, sep: u8, k: int)
    requires
        0 <= k < b.len(),
        b[k] != sep,
    ensures
        exists|i: int, j: int|
            0 <= i < ip_parse::split(b, sep).len() && 0 <= j < ip_parse::split(b, sep)[i].len()
                && #[trigger] ip_parse::split(b, sep)[i][j] == b[k],
    decreases b.len(),
{
    let all = ip_parse::split(b, sep);
    let init = ip_parse::split(b.drop_last(), sep);
    lemma_split_some(b.drop_last(), sep);
    if k == b.len() - 1 {
        let i = all.len() - 1;
        let j = all[i].len() - 1;
        assert(all[i][j] == b[k]);
    } else {
        lemma_split_covers(b.drop_last(), sep, k);
        let (i, j) = choose|i: int, j: int|
            0 <= i < init.len() && 0 <= j < init[i].len() && #[trigger] init[i][j]
                == b.drop_last()[k];
        assert(all[i][j] == b[k]);
    }
}

/// What holds a colon is no dotted address.
pub proof fn lemma_colon_not_dotted(b: Seq<u8>, k: int)
    requires
        0 <= k < b.len(),
        b[k] == ip_parse::COLON,
    ensures
        ip_parse::dotted(b) is None,
{
    if ip_parse::dotted(b) is Some {
        let parts = ip_parse::split(b, ip_parse::DOT);
        lemma_split_covers(b, ip_parse::DOT, k);
        let (i, j) = choose|i: int, j: int|
            0 <= i < parts.len() && 0 <= j < parts[i].len() && #[trigger] parts[i][j] == b[k];
        assert(ip_parse::octet(parts[i]) is Some);
        assert(ip_parse::digits_of(parts[i])[j] < 10);
    }
}

/// A piece that is followed by another does not change any more.
proof fn lemma_split_settled(b: Seq<u8>, sep: u8, m: int, i: int)
    requires
        0 <= m <= b.len(),
        0 <= i < ip_parse::split(b.take(m), sep).len() - 1,
    ensures
        i < ip_parse::split(b, sep).len() - 1,
        ip_parse::split(b, sep)[i] == ip_parse::split(b.take(m), sep)[i],
    decreases b.len(),
{
    if m == b.len() {
        assert(b.take(m) =~= b);
    } else {
        assert(b.drop_last().take(m) =~= b.take(m));
        lemma_split_settled(b.drop_last(), sep, m, i);
    }
}

/// Two separators in a row have an empty piece between them.
pub proof fn lemma_gap_is_empty_piece(b: Seq<u8>, k: int)
    requires
        ip_parse::gap_at(b, k),
    ensures
        exists|i: int|
            0 <= i < ip_parse::split(b, ip_parse::COLON).len() && #[trigger] ip_parse::split(
                b,
                ip_parse::COLON,
            )[i] == Seq::<u8>::empty(),
{
    let sep = ip_parse::COLON;
    let one = b.take(k + 1);
    let two = b.take(k + 2);
    assert(two.drop_last() =~= one);
    lemma_split_some(b.take(k), sep);
    assert(one.drop_last() =~= b.take(k));
    let i = ip_parse::split(one, sep).len() - 1;
    assert(ip_parse::split(two, sep)[i] == Seq::<u8>::empty());
    lemma_split_settled(b, sep, k + 2, i);
}

/// Groups that are joined hold no `::`.
proof fn lemma_joined_has_no_gap(numbers: Seq<u16>, k: int)
    requires
        numbers.len() >= 1,
    ensures
        !ip_parse::gap_at(ascii(ip_text::joined(numbers, 16, ':')), k),
{
    let b = ascii(ip_text::joined(numbers, 16, ':'));
    lemma_split_joined(numbers, 16, ':');
    if ip_parse::gap_at(b, k) {
        lemma_gap_is_empty_piece(b, k);
        let parts = pieces(numbers, 16);
        let i = choose|i: int| 0 <= i < parts.len() && #[trigger] parts[i] == Seq::<u8>::empty();
        lemma_group(numbers[i]);
        assert(ip_parse::group(parts[i]) is Some);
    }
}

/// Groups that are joined read back as the groups.
proof fn lemma_groups_of_pieces(numbers: Seq<u16>, dotted_end: bool)
    ensures
        ip_parse::groups(pieces(numbers, 16), dotted_end) == Some(numbers),
{
    let parts = pieces(numbers, 16);
    assert forall|i: int| 0 <= i < parts.len() implies ip_parse::group(#[trigger] parts[i])
        == Some(numbers[i]) by {
        lemma_group(numbers[i]);
    }
    assert(ip_parse::all_groups(parts));
    assert(ip_parse::group_values(parts) =~= numbers);
}

/// One side of `::` reads back.
proof fn lemma_side(numbers: Seq<u16>, dotted_end: bool)
    ensures
        ip_parse::groups(
            ip_parse::side(ascii(ip_text::joined(numbers, 16, ':'))),
            dotted_end,
        ) == Some(numbers),
{
    let b = ascii(ip_text::joined(numbers, 16, ':'));
    if numbers.len() == 0 {
        assert(b =~= Seq::empty());
        assert(pieces(numbers, 16) =~= ip_parse::side(b));
    } else {
        lemma_split_joined(numbers, 16, ':');
    }
    lemma_groups_of_pieces(numbers, dotted_end);
}

/// The groups of an address are eight, and make the address.
pub proof fn lemma_segments(v: u128)
    ensures
        net::segments(v).len() == 8,
        net::ipv6_of(net::segments(v)) == IpAddr::V6(v),
{
    digits::lemma_place_digits(v as nat, 0x1_0000, 8);
    reveal(pow);
    reveal_with_fuel(pow, 9);
    assert(pow(0x1_0000, 8) == u128::MAX + 1);
    digits::lemma_value_of_digits(v as nat, 0x1_0000, 8);
}

/// The place of `::` is the one that is chosen.
pub proof fn lemma_chosen_gap(b: Seq<u8>, k: int)
    requires
        ip_parse::first_gap(b, k),
    ensures
        ip_parse::coloned(b) == ip_parse::groups_around(b, k),
{
    let j = choose|j: int| ip_parse::first_gap(b, j);
    assert(ip_parse::first_gap(b, j));
    assert(ip_parse::gap_at(b, j) && ip_parse::gap_at(b, k));
    assert(j == k);
}

/// After groups that are joined, the `::` that follows is the first.
proof fn lemma_gap_place(head: Seq<u16>, b: Seq<u8>, k: int)
    requires
        0 <= k <= b.len(),
        b.take(k) == ascii(ip_text::joined(head, 16, ':')),
        ip_parse::gap_at(b, k),
    ensures
        ip_parse::first_gap(b, k),
{
    let h = b.take(k);
    let t = ip_text::joined(head, 16, ':');
    assert(h.len() == k);
    assert(ascii(t).len() == t.len());
    assert forall|j: int| 0 <= j < k implies !ip_parse::gap_at(b, j) by {
        assert(head.len() > 0);
        lemma_split_joined(head, 16, ':');
        if j + 1 < k {
            lemma_joined_has_no_gap(head, j);
            assert(h[j] == b[j] && h[j + 1] == b[j + 1]);
        } else {
            assert(h.last() == b[j]);
        }
    }
}

/// Joined groups are plain characters.
proof fn lemma_joined_ascii(numbers: Seq<u16>)
    ensures
        vstd::utf8::is_ascii_chars(ip_text::joined(numbers, 16, ':')),
{
    if numbers.len() > 0 {
        lemma_split_joined(numbers, 16, ':');
    }
}

/// An address that is written with `::` reads back.
proof fn lemma_gap_text(s: Seq<u16>, start: int, len: int)
    requires
        s.len() == 8,
        ip_text::zero_run(s, start, len),
        len > 1,
    ensures
        ({
            let t = ip_text::groups_text(s, start, len);
            &&& vstd::utf8::is_ascii_chars(t)
            &&& ip_parse::dotted(ascii(t)) is None
            &&& ip_parse::coloned(ascii(t)) == Some(s)
        }),
{
    let head = s.take(start);
    let tail = s.skip(start + len);
    let h = ip_text::joined(head, 16, ':');
    let e = ip_text::joined(tail, 16, ':');
    let t = h + "::"@ + e;
    let b = ascii(t);
    let k = h.len() as int;
    reveal_strlit("::");
    lemma_joined_ascii(head);
    lemma_joined_ascii(tail);
    assert(t[k] == ':' && t[k + 1] == ':');
    assert(b.take(k) =~= ascii(h));
    assert(b.skip(k + 2) =~= ascii(e));
    assert(ip_parse::gap_at(b, k));
    lemma_colon_not_dotted(b, k);
    lemma_gap_place(head, b, k);
    lemma_chosen_gap(b, k);
    lemma_side(head, false);
    lemma_side(tail, true);
    assert(head + Seq::new((8 - head.len() - tail.len()) as nat, |i: int| 0u16) + tail =~= s);
}

/// An address that is written without `::` reads back.
proof fn lemma_plain_text(s: Seq<u16>)
    requires
        s.len() == 8,
    ensures
        ({
            let t = ip_text::joined(s, 16, ':');
            &&& vstd::utf8::is_ascii_chars(t)
            &&& ip_parse::dotted(ascii(t)) is None
            &&& ip_parse::coloned(ascii(t)) == Some(s)
        }),
{
    let t = ip_text::joined(s, 16, ':');
    let b = ascii(t);
    lemma_split_joined(s, 16, ':');
    let front = ip_text::joined(s.drop_last(), 16, ':');
    assert(t[front.len() as int] == ':');
    lemma_colon_not_dotted(b, front.len() as int);
    assert forall|k: int| !ip_parse::first_gap(b, k) by {
        lemma_joined_has_no_gap(s, k);
    }
    lemma_groups_of_pieces(s, true);
}

/// The group before a mapped address reads back.
proof fn lemma_mapped_prefix(word: Seq<u8>)
    requires
        word == seq![102u8, 102u8, 102u8, 102u8],
    ensures
        ip_parse::group(word) == Some(0xffffu16),
{
    let ds = ip_parse::digits_of(word);
    assert(ds =~= seq![15u16, 15u16, 15u16, 15u16]);
    reveal_with_fuel(digits::place_value, 5);
    assert(ds.drop_last() =~= seq![15u16, 15u16, 15u16]);
    assert(ds.drop_last().drop_last() =~= seq![15u16, 15u16]);
    assert(ds.drop_last().drop_last().drop_last() =~= seq![15u16]);
}

/// The four numbers of a dotted address make two groups.
pub proof fn lemma_packed(low: u32)
    ensures
        ({
            let g = ip_parse::packed(net::octets(low));
            low == g[0] * 0x1_0000 + g[1]
        }),
{
    let o = net::octets(low);
    digits::lemma_place_digits(low as nat, 256, 4);
    reveal(pow);
    reveal_with_fuel(pow, 5);
    assert(pow(256, 4) == 0x1_0000_0000);
    digits::lemma_value_of_digits(low as nat, 256, 4);
    reveal_with_fuel(digits::place_value, 5);
    assert(o.drop_last() =~= seq![o[0], o[1], o[2]]);
    assert(o.drop_last().drop_last() =~= seq![o[0], o[1]]);
    assert(o.drop_last().drop_last().drop_last() =~= seq![o[0]]);
    assert(o[0] < 256 && o[1] < 256 && o[2] < 256 && o[3] < 256);
}

/// The number of groups of which the first five are zeros.
proof fn lemma_three_groups(g: Seq<u16>, a: u16, hi: u16, lo: u16)
    requires
        g == Seq::new(5, |i: int| 0u16) + seq![a, hi, lo],
    ensures
        digits::place_value(g, 0x1_0000) == a * 0x1_0000_0000 + hi * 0x1_0000 + lo,
{
    reveal_with_fuel(digits::place_value, 5);
    let g7 = g.drop_last();
    let g6 = g7.drop_last();
    let g5 = g6.drop_last();
    assert(g5 =~= Seq::new(5, |i: int| 0u16));
    lemma_zeros(5);
}

/// Zeros make zero.
proof fn lemma_zeros(n: nat)
    ensures
        digits::place_value(Seq::new(n, |i: int| 0u16), 0x1_0000) == 0,
    decreases n,
{
    if n > 0 {
        assert(Seq::new(n, |i: int| 0u16).drop_last() =~= Seq::new((n - 1) as nat, |i: int| 0u16));
        lemma_zeros((n - 1) as nat);
    }
}

/// A group and a dotted address read back as three groups.
proof fn lemma_mapped_side(low: u32)
    ensures
        ({
            let word = seq![102u8, 102u8, 102u8, 102u8];
            let q = ascii(ip_text::ipv4_text(low));
            ip_parse::groups(ip_parse::side(word.push(ip_parse::COLON) + q), true) == Some(
                seq![0xffffu16] + ip_parse::packed(net::octets(low)),
            )
        }),
{
    let word: Seq<u8> = seq![102u8, 102u8, 102u8, 102u8];
    let quad = ip_text::ipv4_text(low);
    let q = ascii(quad);
    let o = net::octets(low);
    let sep = ip_parse::COLON;
    lemma_dotted_text(low);
    assert forall|i: int| 0 <= i < q.len() implies q[i] != sep by {
        if q[i] == sep {
            lemma_colon_not_dotted(q, i);
        }
    }
    lemma_split_one(word, sep);
    lemma_split_next(word, q, sep);
    let parts: Seq<Seq<u8>> = seq![word, q];
    assert(ip_parse::split(word.push(sep) + q, sep) =~= parts);
    lemma_mapped_prefix(word);
    assert(ip_parse::group(q) is None) by {
        let dot = ip_text::joined(o.drop_last(), 10, '.').len() as int;
        assert(quad[dot] == '.');
        assert(ip_parse::digits_of(q)[dot] == 16);
    }
    assert(!ip_parse::all_groups(parts)) by {
        assert(parts[1] == q);
    }
    assert(parts.drop_last() =~= seq![word]);
    assert(ip_parse::all_groups(parts.drop_last()));
    assert(ip_parse::group_values(parts.drop_last()) =~= seq![0xffffu16]);
}

/// An address that maps one of the older family reads back.
proof fn lemma_mapped_text(v: u128)
    requires
        v / 0x1_0000_0000 == 0xffff,
    ensures
        vstd::utf8::is_ascii_chars(ip_text::ipv6_text(v)),
        ip_parse::ip_of_bytes(ascii(ip_text::ipv6_text(v))) == Some(IpAddr::V6(v)),
{
    let low = (v % 0x1_0000_0000) as u32;
    let t = ip_text::ipv6_text(v);
    let q = ascii(ip_text::ipv4_text(low));
    let b = ascii(t);
    let word: Seq<u8> = seq![102u8, 102u8, 102u8, 102u8];
    let pair = ip_parse::packed(net::octets(low));
    reveal_strlit("::ffff:");
    lemma_dotted_text(low);
    assert(b[0] == ip_parse::COLON && b[1] == ip_parse::COLON);
    lemma_colon_not_dotted(b, 0);
    assert(ip_parse::first_gap(b, 0));
    lemma_chosen_gap(b, 0);
    assert(b.take(0) =~= Seq::empty());
    assert(ip_parse::side(b.take(0)) =~= pieces(Seq::empty(), 16));
    lemma_groups_of_pieces(Seq::empty(), false);
    assert(b.skip(2) =~= word.push(ip_parse::COLON) + q);
    lemma_mapped_side(low);
    let g = ip_parse::groups_around(b, 0)->0;
    assert(g =~= Seq::new(5, |i: int| 0u16) + seq![0xffffu16, pair[0], pair[1]]);
    lemma_three_groups(g, 0xffff, pair[0], pair[1]);
    lemma_packed(low);
}

/// Reading the text of an address gives the address.
pub proof fn law_text_reads_back(ip: IpAddr)
    ensures
        ip_parse::ip_of_text(ip_text::ip_text(ip)) == Some(ip),
{
    reveal(ip_parse::ip_of_text);
    let t = ip_text::ip_text(ip);
    match ip {
        IpAddr::V4(v) => {
            lemma_dotted_text(v);
        },
        IpAddr::V6(v) => {
            if v / 0x1_0000_0000 == 0xffff {
                lemma_mapped_text(v);
            } else {
                let s = net::segments(v);
                lemma_segments(v);
                lemma_longest_run_exists(s);
                let run = choose|run: (int, int)| #[trigger]
                    ip_text::longest_zero_run(s, run.0, run.1);
                if run.1 > 1 {
                    lemma_gap_text(s, run.0, run.1);
                } else {
                    lemma_plain_text(s);
                }
            }
        },
    }
    vstd::utf8::is_ascii_chars_encode_utf8(t);
    assert(vstd::utf8::encode_utf8(t) =~= ascii(t));
}

/// No two addresses have the same text.
pub proof fn law_texts_differ(a: IpAddr, b: IpAddr)
    requires
        ip_text::ip_text(a) == ip_text::ip_text(b),
    ensures
        a == b,
{
    law_text_reads_back(a);
    law_text_reads_back(b);
}

/// The longest run of zeros among the first `n` groups, the first of its length.
proof fn lemma_longest_run_within(s: Seq<u16>, n: int) -> (run: (int, int))
    requires
        0 <= n <= s.len(),
    ensures
        ip_text::zero_run(s, run.0, run.1),
        forall|a: int, m: int| #[trigger]
            ip_text::zero_run(s, a, m) && m <= n ==> m < run.1 || (m == run.1 && run.0 <= a),
    decreases n,
{
    if n == 0 {
        assert(ip_text::zero_run(s, 0, 0));
        (0, 0)
    } else {
        let before = lemma_longest_run_within(s, n - 1);
        if exists|a: int| ip_text::zero_run(s, a, n) {
            let first = lemma_first_run(s, n, choose|a: int| ip_text::zero_run(s, a, n));
            (first, n)
        } else {
            before
        }
    }
}

/// The first of the runs of one length.
proof fn lemma_first_run(s: Seq<u16>, n: int, a: int) -> (first: int)
    requires
        ip_text::zero_run(s, a, n),
    ensures
        ip_text::zero_run(s, first, n),
        forall|c: int| #[trigger] ip_text::zero_run(s, c, n) ==> first <= c,
    decreases a,
{
    if exists|c: int| c < a && #[trigger] ip_text::zero_run(s, c, n) {
        lemma_first_run(s, n, choose|c: int| c < a && #[trigger] ip_text::zero_run(s, c, n))
    } else {
        a
    }
}

/// There is a longest run of zeros, be it empty.
proof fn lemma_longest_run_exists(s: Seq<u16>)
    ensures
        exists|run: (int, int)| #[trigger] ip_text::longest_zero_run(s, run.0, run.1),
{
    let run = lemma_longest_run_within(s, s.len() as int);
    assert(ip_text::longest_zero_run(s, run.0, run.1));
}

} // verus!
