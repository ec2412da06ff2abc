//! Internet addresses and their canonical text.

use crate::text::{decimal, hexadecimal, push_decimal, push_hexadecimal};
use vstd::prelude::*;

verus! {

/// An internet address, as the number that its octets spell with the most
/// significant octet first.
#[derive(Clone, Copy, Debug, PartialEq, Eq, Structural)]
pub enum IpAddr {
    V4(u32),
    V6(u128),
}

/// The number that `octets` spell with the most significant one first.
pub open spec fn be_value(octets: Seq<u8>) -> nat
    decreases octets.len(),
{
    if octets.len() == 0 {
        0
    } else {
        be_value(octets.drop_last()) * 256 + octets.last() as nat
    }
}

/// The number that four octets spell, from the `i`th on.
pub open spec fn quad(o: Seq<u8>, i: int) -> int {
    ((o[i] * 256 + o[i + 1]) * 256 + o[i + 2]) * 256 + o[i + 3]
}

proof fn lemma_be_value_4(o: Seq<u8>)
    requires
        o.len() == 4,
    ensures
        be_value(o) == quad(o, 0),
{
    reveal_with_fuel(be_value, 5);
}

proof fn lemma_be_value_16(o: Seq<u8>)
    requires
        o.len() == 16,
    ensures
        be_value(o) == ((quad(o, 0) * 0x1_0000_0000 + quad(o, 4)) * 0x1_0000_0000 + quad(o, 8))
            * 0x1_0000_0000 + quad(o, 12),
{
    reveal_with_fuel(be_value, 17);
}

/// Octets of one length that spell the same number are the same.
proof fn lemma_be_value_injective(a: Seq<u8>, b: Seq<u8>)
    requires
        a.len() == b.len(),
        be_value(a) == be_value(b),
    ensures
        a == b,
    decreases a.len(),
{
    if a.len() > 0 {
        lemma_be_value_injective(a.drop_last(), b.drop_last());
        assert(a =~= a.drop_last().push(a.last()));
        assert(b =~= b.drop_last().push(b.last()));
    }
}

/// The number that four octets spell, the most significant one first.
fn quad_of(a: u8, b: u8, c: u8, d: u8) -> (n: u32)
    ensures
        n == ((a * 256 + b) * 256 + c) * 256 + d,
{
    ((a as u32 * 256 + b as u32) * 256 + c as u32) * 256 + d as u32
}

/// The address that a probe recorded: the first four octets for IP version 4,
/// all sixteen otherwise.
pub open spec fn recorded_address(ip_version: u8, octets: Seq<u8>) -> IpAddr {
    if ip_version == 4 {
        IpAddr::V4(be_value(octets.take(4)) as u32)
    } else {
        IpAddr::V6(be_value(octets) as u128)
    }
}

/// The cache key of an address: its version and its number.
pub type AddressKey = (u8, u128);

impl IpAddr {
    /// The IPv4 address `a.b.c.d`.
    pub fn v4(a: u8, b: u8, c: u8, d: u8) -> (ip: IpAddr)
        ensures
            ip == IpAddr::V4(be_value(seq![a, b, c, d]) as u32),
            ip->V4_0 == ((a * 256 + b) * 256 + c) * 256 + d,
    {
        proof {
            lemma_be_value_4(seq![a, b, c, d]);
        }
        IpAddr::V4(quad_of(a, b, c, d))
    }

    /// The IPv6 address with these octets.
    pub fn v6(octets: &[u8; 16]) -> (ip: IpAddr)
        ensures
            ip == IpAddr::V6(be_value(octets@) as u128),
    {
        proof {
            lemma_be_value_16(octets@);
        }
        let first: u32 = quad_of(octets[0], octets[1], octets[2], octets[3]);
        let second: u32 = quad_of(octets[4], octets[5], octets[6], octets[7]);
        let third: u32 = quad_of(octets[8], octets[9], octets[10], octets[11]);
        let fourth: u32 = quad_of(octets[12], octets[13], octets[14], octets[15]);
        IpAddr::V6(
            ((first as u128 * 0x1_0000_0000 + second as u128) * 0x1_0000_0000 + third as u128)
                * 0x1_0000_0000 + fourth as u128,
        )
    }

    /// The address that a probe recorded.
    pub fn recorded(ip_version: u8, octets: &[u8; 16]) -> (ip: IpAddr)
        ensures
            ip == recorded_address(ip_version, octets@),
    {
        if ip_version == 4 {
            assert(octets@.take(4) =~= seq![octets@[0], octets@[1], octets@[2], octets@[3]]);
            IpAddr::v4(octets[0], octets[1], octets[2], octets[3])
        } else {
            IpAddr::v6(octets)
        }
    }

    /// The cache key of this address.
    pub open spec fn spec_key(self) -> AddressKey {
        match self {
            IpAddr::V4(n) => (4, n as u128),
            IpAddr::V6(n) => (6, n),
        }
    }

    /// The cache key of this address.
    pub fn key(self) -> (key: AddressKey)
        ensures
            key == self.spec_key(),
    {
        match self {
            IpAddr::V4(n) => (4, n as u128),
            IpAddr::V6(n) => (6, n),
        }
    }

    /// The canonical text of this address.
    pub open spec fn spec_text(self) -> Seq<char> {
        match self {
            IpAddr::V4(n) => v4_text(n),
            IpAddr::V6(n) => v6_text(n),
        }
    }

    /// The canonical text of this address.
    pub fn text(self) -> (text: String)
        ensures
            text@ == self.spec_text(),
    {
        let mut text = String::new();
        match self {
            IpAddr::V4(n) => push_v4(&mut text, n),
            IpAddr::V6(n) => push_v6(&mut text, n),
        }
        assert(text@ =~= self.spec_text());
        text
    }
}

// -------------------------------------------------------------------- text

/// Four decimal octets with dots between them.
pub open spec fn v4_text(n: u32) -> Seq<char> {
    decimal((n / 0x100_0000) as nat) + seq!['.'] + decimal((n / 0x1_0000 % 0x100) as nat) + seq![
        '.',
    ] + decimal((n / 0x100 % 0x100) as nat) + seq!['.'] + decimal((n % 0x100) as nat)
}

fn push_v4(s: &mut String, n: u32)
    ensures
        final(s)@ == old(s)@ + v4_text(n),
{
    push_decimal(s, (n / 0x100_0000) as u64);
    s.push('.');
    push_decimal(s, (n / 0x1_0000 % 0x100) as u64);
    s.push('.');
    push_decimal(s, (n / 0x100 % 0x100) as u64);
    s.push('.');
    push_decimal(s, (n % 0x100) as u64);
    assert(s@ =~= old(s)@ + v4_text(n));
}

/// The eight 16-bit groups of an IPv6 address, the most significant first.
pub open spec fn groups(x: u128) -> Seq<u16> {
    seq![
        ((x >> 112) & 0xffff) as u16,
        ((x >> 96) & 0xffff) as u16,
        ((x >> 80) & 0xffff) as u16,
        ((x >> 64) & 0xffff) as u16,
        ((x >> 48) & 0xffff) as u16,
        ((x >> 32) & 0xffff) as u16,
        ((x >> 16) & 0xffff) as u16,
        ((x >> 0) & 0xffff) as u16,
    ]
}

/// Whether `s` is zero at the `n` positions from `i` on.
pub open spec fn zero_run(s: Seq<u16>, i: int, n: int) -> bool {
    &&& 0 <= i
    &&& 0 <= n
    &&& i + n <= s.len()
    &&& forall|j: int| i <= j < i + n ==> s[j] == 0
}

/// Whether the `n` positions from `i` on are the first of the longest runs of
/// zeros in `s`.
pub open spec fn first_longest_zero_run(s: Seq<u16>, i: int, n: int) -> bool {
    &&& zero_run(s, i, n)
    &&& forall|k: int, m: int| #[trigger] zero_run(s, k, m) ==> m <= n
    &&& forall|k: int| #[trigger] zero_run(s, k, n) ==> i <= k
}

/// Where the first of the longest runs of zeros in `s` is: its start and its
/// length.
pub open spec fn longest_zeros(s: Seq<u16>) -> (int, int) {
    choose|run: (int, int)| first_longest_zero_run(s, run.0, run.1)
}

/// Groups in hexadecimal with colons between them.
pub open spec fn joined(s: Seq<u16>) -> Seq<char>
    decreases s.len(),
{
    if s.len() == 0 {
        seq![]
    } else if s.len() == 1 {
        hexadecimal(s[0] as nat)
    } else {
        joined(s.drop_last()) + seq![':'] + hexadecimal(s.last() as nat)
    }
}

/// An IPv6 address in its recommended form: an IPv4-mapped address shows its
/// IPv4 part with dots, and in others the first of the longest runs of two or
/// more zero groups shrinks to a double colon.
pub open spec fn v6_text(x: u128) -> Seq<char> {
    if x >> 32 == 0xffff {
        seq![':', ':', 'f', 'f', 'f', 'f', ':'] + v4_text((x & 0xffff_ffff) as u32)
    } else {
        let g = groups(x);
        let (i, n) = longest_zeros(g);
        if n > 1 {
            joined(g.take(i)) + seq![':', ':'] + joined(g.skip(i + n))
        } else {
            joined(g)
        }
    }
}

fn groups_of(x: u128) -> (g: [u16; 8])
    ensures
        g@ == groups(x),
{
    let g: [u16; 8] = [
        ((x >> 112) & 0xffff) as u16,
        ((x >> 96) & 0xffff) as u16,
        ((x >> 80) & 0xffff) as u16,
        ((x >> 64) & 0xffff) as u16,
        ((x >> 48) & 0xffff) as u16,
        ((x >> 32) & 0xffff) as u16,
        ((x >> 16) & 0xffff) as u16,
        ((x >> 0) & 0xffff) as u16,
    ];
    assert(g@ =~= groups(x));
    g
}

/// Finds the first of the longest runs of zeros.
fn find_longest_zeros(g: &[u16; 8]) -> (run: (usize, usize))
    ensures
        first_longest_zero_run(g@, run.0 as int, run.1 as int),
        longest_zeros(g@) == (run.0 as int, run.1 as int),
{
    let mut best_start: usize = 0;
    let mut best_len: usize = 0;
    let mut start: usize = 0;
    let mut len: usize = 0;
    let mut i: usize = 0;
    while i < 8
        invariant
            i <= 8,
            len <= i,
            len > 0 ==> start + len == i,
            len > 0 ==> zero_run(g@, start as int, len as int),
            i > 0 && len == 0 ==> g@[i - 1] != 0,
            len > 0 && start > 0 ==> g@[start - 1] != 0,
            best_start + best_len <= i,
            zero_run(g@, best_start as int, best_len as int),
            forall|k: int, m: int| #[trigger] zero_run(g@, k, m) && k + m <= i ==> m <= best_len,
            forall|k: int|
                #[trigger] zero_run(g@, k, best_len as int) && k + best_len <= i ==> best_start
                    <= k,
        decreases 8 - i,
    {
        let ghost old_best = (best_start as int, best_len as int);
        if g[i] == 0 {
            if len == 0 {
                start = i;
            }
            len += 1;
            assert(zero_run(g@, start as int, len as int));
            if len > best_len {
                best_start = start;
                best_len = len;
            }
            assert forall|k: int, m: int| #[trigger] zero_run(g@, k, m) && k + m <= i + 1 implies m
                <= best_len by {
                if k + m == i + 1 && m > 0 {
                    assert(k >= start) by {
                        if k < start {
                            assert(g@[start - 1] == 0);
                        }
                    }
                }
            }
            assert forall|k: int|
                #[trigger] zero_run(g@, k, best_len as int) && k + best_len <= i + 1 implies best_start
                <= k by {
                if k + best_len == i + 1 {
                    assert(k >= start) by {
                        if k < start {
                            assert(g@[start - 1] == 0);
                        }
                    }
                } else if best_len > old_best.1 {
                    assert(best_len <= old_best.1);
                }
            }
        } else {
            len = 0;
            assert forall|k: int, m: int| #[trigger] zero_run(g@, k, m) && k + m <= i + 1 implies m
                <= best_len by {
                if k + m == i + 1 && m > 0 {
                    assert(g@[i as int] == 0);
                }
            }
            assert forall|k: int|
                #[trigger] zero_run(g@, k, best_len as int) && k + best_len <= i + 1 implies best_start
                <= k by {
                if k + best_len == i + 1 && best_len > 0 {
                    assert(g@[i as int] == 0);
                }
            }
        }
        i += 1;
    }
    proof {
        let found = (best_start as int, best_len as int);
        assert(first_longest_zero_run(g@, found.0, found.1));
        let chosen = longest_zeros(g@);
        assert(first_longest_zero_run(g@, chosen.0, chosen.1));
        assert(zero_run(g@, chosen.0, chosen.1));
        assert(zero_run(g@, found.0, found.1));
    }
    (best_start, best_len)
}

/// Appends the groups from `from` up to `to` with colons between them.
fn push_joined(s: &mut String, g: &[u16; 8], from: usize, to: usize)
    requires
        from <= to <= 8,
    ensures
        final(s)@ == old(s)@ + joined(g@.subrange(from as int, to as int)),
{
    let ghost before = s@;
    let mut i: usize = from;
    assert(s@ =~= before + joined(g@.subrange(from as int, from as int)));
    while i < to
        invariant
            from <= i <= to <= 8,
            s@ == before + joined(g@.subrange(from as int, i as int)),
        decreases to - i,
    {
        let ghost done = g@.subrange(from as int, i as int);
        let ghost more = g@.subrange(from as int, i + 1);
        assert(more.drop_last() =~= done);
        if i > from {
            s.push(':');
        }
        push_hexadecimal(s, g[i] as u64);
        assert(s@ =~= before + joined(more));
        i += 1;
    }
}

fn push_v6(s: &mut String, x: u128)
    ensures
        final(s)@ == old(s)@ + v6_text(x),
{
    if x >> 32 == 0xffff {
        s.append("::ffff:");
        push_v4(s, (x & 0xffff_ffff) as u32);
        proof {
            reveal_strlit("::ffff:");
        }
        assert("::ffff:"@ =~= seq![':', ':', 'f', 'f', 'f', 'f', ':']);
        assert(s@ =~= old(s)@ + v6_text(x));
    } else {
        let g = groups_of(x);
        let (i, n) = find_longest_zeros(&g);
        if n > 1 {
            push_joined(s, &g, 0, i);
            s.push(':');
            s.push(':');
            push_joined(s, &g, i + n, 8);
            assert(g@.subrange(0, i as int) =~= g@.take(i as int));
            assert(g@.subrange(i + n, 8) =~= g@.skip(i + n));
        } else {
            push_joined(s, &g, 0, 8);
            assert(g@.subrange(0, 8) =~= g@);
        }
        assert(s@ =~= old(s)@ + v6_text(x));
    }
}

/// Recorded addresses are told apart: two records of one IP version name the
/// same address just when they hold the same octets of it.
pub proof fn law_recorded_addresses_differ(ip_version: u8, a: Seq<u8>, b: Seq<u8>)
    requires
        a.len() == 16,
        b.len() == 16,
    ensures
        ip_version == 4 ==> (recorded_address(ip_version, a) == recorded_address(ip_version, b)
            <==> a.take(4) == b.take(4)),
        ip_version != 4 ==> (recorded_address(ip_version, a) == recorded_address(ip_version, b)
            <==> a == b),
{
    if ip_version == 4 {
        lemma_be_value_4(a.take(4));
        lemma_be_value_4(b.take(4));
        if recorded_address(ip_version, a) == recorded_address(ip_version, b) {
            lemma_be_value_injective(a.take(4), b.take(4));
        }
    } else {
        lemma_be_value_16(a);
        lemma_be_value_16(b);
        if recorded_address(ip_version, a) == recorded_address(ip_version, b) {
            lemma_be_value_injective(a, b);
        }
    }
}

/// Addresses are told apart by their keys.
pub proof fn law_keys_tell_addresses_apart(a: IpAddr, b: IpAddr)
    ensures
        a.spec_key() == b.spec_key() <==> a == b,
{
}

} // verus!
