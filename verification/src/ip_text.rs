//! Writing addresses out as text.

use crate::digits;
use crate::net::{AddrParseError, IpAddr, SocketAddr};
use vstd::prelude::*;

verus! {

/// Numbers written in `base` with `sep` between them.
pub open spec fn joined(numbers: Seq<u16>, base: nat, sep: char) -> Seq<char>
    decreases numbers.len(),
{
    if numbers.len() == 0 {
        Seq::empty()
    } else if numbers.len() == 1 {
        digits::numeral(numbers[0] as nat, base)
    } else {
        joined(numbers.drop_last(), base, sep).push(sep) + digits::numeral(
            numbers.last() as nat,
            base,
        )
    }
}

/// Whether `len` zeros stand from `start` on.
pub open spec fn zero_run(s: Seq<u16>, start: int, len: int) -> bool {
    &&& 0 <= start
    &&& 0 <= len
    &&& start + len <= s.len()
    &&& forall|i: int| start <= i < start + len ==> s[i] == 0
}

/// Whether this is the longest run of zeros, and the first of its length.
pub open spec fn longest_zero_run(s: Seq<u16>, start: int, len: int) -> bool {
    &&& zero_run(s, start, len)
    &&& forall|a: int, n: int| #[trigger]
        zero_run(s, a, n) ==> n < len || (n == len && start <= a)
}

/// A dotted address.
pub open spec fn ipv4_text(v: u32) -> Seq<char> {
    joined(crate::net::octets(v), 10, '.')
}

/// The groups of a colon address, with `::` in place of a run of two or more zeros.
pub open spec fn groups_text(s: Seq<u16>, start: int, len: int) -> Seq<char> {
    if len > 1 {
        joined(s.take(start), 16, ':') + "::"@ + joined(s.skip(start + len), 16, ':')
    } else {
        joined(s, 16, ':')
    }
}

/// A colon address in its canonical form: `::` stands for the first longest run of
/// zeros, and an address that maps one of the older family shows that one.
pub open spec fn ipv6_text(v: u128) -> Seq<char> {
    if v / 0x1_0000_0000 == 0xffff {
        "::ffff:"@ + ipv4_text((v % 0x1_0000_0000) as u32)
    } else {
        let s = crate::net::segments(v);
        let run = choose|run: (int, int)| #[trigger] longest_zero_run(s, run.0, run.1);
        groups_text(s, run.0, run.1)
    }
}

/// The text of an address.
pub open spec fn ip_text(ip: IpAddr) -> Seq<char> {
    match ip {
        IpAddr::V4(v) => ipv4_text(v),
        IpAddr::V6(v) => ipv6_text(v),
    }
}

/// The text of a socket address; a colon address stands in brackets, with its scope.
pub open spec fn socket_text(addr: SocketAddr) -> Seq<char> {
    match addr {
        SocketAddr::V4(a) => ipv4_text(a.ip) + ":"@ + digits::numeral(a.port as nat, 10),
        SocketAddr::V6(a) => {
            let scope = if a.scope_id == 0 {
                Seq::empty()
            } else {
                "%"@ + digits::numeral(a.scope_id as nat, 10)
            };
            "["@ + ipv6_text(a.ip) + scope + "]:"@ + digits::numeral(a.port as nat, 10)
        },
    }
}

/// Appends numbers from `from` up to `to`, with the separator between them.
fn push_joined(out: &mut String, numbers: &Vec<u16>, from: usize, to: usize, base: u64, sep: &str)
    requires
        from <= to <= numbers@.len(),
        2 <= base <= 16,
        sep@.len() == 1,
    ensures
        final(out)@ == old(out)@ + joined(
            numbers@.subrange(from as int, to as int),
            base as nat,
            sep@[0],
        ),
{
    let mut i: usize = from;
    let ghost start = out@;
    assert(out@ =~= start + joined(numbers@.subrange(from as int, i as int), base as nat, sep@[0]));
    while i < to
        invariant
            from <= i <= to <= numbers@.len(),
            2 <= base <= 16,
            sep@.len() == 1,
            out@ == start + joined(
                numbers@.subrange(from as int, i as int),
                base as nat,
                sep@[0],
            ),
        decreases to - i,
    {
        let ghost done = numbers@.subrange(from as int, i as int);
        let ghost next = numbers@.subrange(from as int, i + 1);
        assert(next.drop_last() =~= done);
        if i > from {
            out.append(sep);
        }
        digits::push_numeral(out, numbers[i] as u64, base);
        assert(joined(next, base as nat, sep@[0]) =~= if done.len() == 0 {
            digits::numeral(numbers@[i as int] as nat, base as nat)
        } else {
            joined(done, base as nat, sep@[0]) + sep@ + digits::numeral(
                numbers@[i as int] as nat,
                base as nat,
            )
        });
        assert(out@ =~= start + joined(next, base as nat, sep@[0]));
        i = i + 1;
    }
}

/// Finds the longest run of zeros, and the first of its length.
fn find_longest_zero_run(s: &Vec<u16>) -> (r: (usize, usize))
    ensures
        longest_zero_run(s@, r.0 as int, r.1 as int),
{
    let mut best_start: usize = 0;
    let mut best_len: usize = 0;
    let mut start: usize = 0;
    let mut i: usize = 0;
    while i < s.len()
        invariant
            start <= i <= s@.len(),
            zero_run(s@, start as int, i - start),
            start > 0 ==> s@[start - 1] != 0,
            zero_run(s@, best_start as int, best_len as int),
            best_start + best_len <= i,
            forall|a: int, n: int| #[trigger]
                zero_run(s@, a, n) && a + n <= i ==> n < best_len || (n == best_len && best_start
                    <= a),
        decreases s@.len() - i,
    {
        if s[i] == 0 {
            if i + 1 - start > best_len {
                best_start = start;
                best_len = i + 1 - start;
            }
        } else {
            start = i + 1;
        }
        assert forall|a: int, n: int| #[trigger]
            zero_run(s@, a, n) && a + n <= i + 1 implies n < best_len || (n == best_len
            && best_start <= a) by {
            if n > 0 && a + n == i + 1 {
                assert(s@[i as int] == 0);
                assert(start <= a);
            }
        }
        i = i + 1;
    }
    (best_start, best_len)
}

/// Appends a dotted address.
fn push_ipv4(out: &mut String, v: u32)
    ensures
        final(out)@ == old(out)@ + ipv4_text(v),
{
    let mut octets: Vec<u16> = Vec::new();
    digits::push_places(&mut octets, v as u128, 256, 4);
    proof {
        digits::lemma_place_digits(v as nat, 256, 4);
        reveal_strlit(".");
        assert(octets@ =~= crate::net::octets(v));
        assert(octets@.subrange(0, 4) =~= octets@);
    }
    push_joined(out, &octets, 0, 4, 10, ".");
}

/// Appends a colon address.
fn push_ipv6(out: &mut String, v: u128)
    ensures
        final(out)@ == old(out)@ + ipv6_text(v),
{
    if v / 0x1_0000_0000 == 0xffff {
        out.append("::ffff:");
        push_ipv4(out, (v % 0x1_0000_0000) as u32);
        assert(out@ =~= old(out)@ + ipv6_text(v));
    } else {
        let mut groups: Vec<u16> = Vec::new();
        digits::push_places(&mut groups, v, 0x1_0000, 8);
        let (start, len) = find_longest_zero_run(&groups);
        let ghost s = crate::net::segments(v);
        proof {
            digits::lemma_place_digits(v as nat, 0x1_0000, 8);
            reveal_strlit(":");
            assert(groups@ =~= s);
            let run = choose|run: (int, int)| #[trigger] longest_zero_run(s, run.0, run.1);
            let found = (start as int, len as int);
            assert(longest_zero_run(s, found.0, found.1));
            assert(zero_run(s, run.0, run.1));
            assert(run == found);
        }
        if len > 1 {
            assert(s.subrange(0, start as int) =~= s.take(start as int));
            assert(s.subrange(start + len, 8) =~= s.skip(start + len));
            push_joined(out, &groups, 0, start, 16, ":");
            out.append("::");
            push_joined(out, &groups, start + len, 8, 16, ":");
        } else {
            assert(s.subrange(0, 8) =~= s);
            push_joined(out, &groups, 0, 8, 16, ":");
        }
        assert(out@ =~= old(out)@ + ipv6_text(v));
    }
}

/// Appends the text of an address.
pub fn push_ip(out: &mut String, ip: IpAddr)
    ensures
        final(out)@ == old(out)@ + ip_text(ip),
{
    match ip {
        IpAddr::V4(v) => push_ipv4(out, v),
        IpAddr::V6(v) => push_ipv6(out, v),
    }
}

/// Appends the text of a socket address.
pub fn push_socket(out: &mut String, addr: SocketAddr)
    ensures
        final(out)@ == old(out)@ + socket_text(addr),
{
    match addr {
        SocketAddr::V4(a) => {
            push_ipv4(out, a.ip);
            out.append(":");
            digits::push_numeral(out, a.port as u64, 10);
        },
        SocketAddr::V6(a) => {
            out.append("[");
            push_ipv6(out, a.ip);
            if a.scope_id != 0 {
                out.append("%");
                digits::push_numeral(out, a.scope_id as u64, 10);
            }
            out.append("]:");
            digits::push_numeral(out, a.port as u64, 10);
        },
    }
    assert(out@ =~= old(out)@ + socket_text(addr));
}

impl IpAddr {
    /// The text of the address.
    pub fn to_string(&self) -> (r: String)
        ensures
            r@ == ip_text(*self),
    {
        let mut out: String = String::new();
        push_ip(&mut out, *self);
        assert(out@ =~= ip_text(*self));
        out
    }
}

impl SocketAddr {
    /// The text of the socket address.
    pub fn to_string(&self) -> (r: String)
        ensures
            r@ == socket_text(*self),
    {
        let mut out: String = String::new();
        push_socket(&mut out, *self);
        assert(out@ =~= socket_text(*self));
        out
    }
}

impl AddrParseError {
    /// What went wrong.
    pub open spec fn text(self) -> Seq<char> {
        "invalid IP address syntax"@
    }

    /// What went wrong.
    pub fn to_string(&self) -> (r: String)
        ensures
            r@ == self.text(),
    {
        "invalid IP address syntax".to_owned()
    }
}

} // verus!
