//! Addresses have different texts.

use crate::addr::{
    first_longest_zero_run, groups, joined, longest_zeros, v4_text, v6_text, zero_run, IpAddr,
};
use crate::text::{
    decimal, hexadecimal, is_hex_digit, lemma_decimal_digits, lemma_decimal_injective,
    lemma_decimal_lacks, lemma_hexadecimal_digits, lemma_hexadecimal_injective,
    lemma_split_at_last,
};
use vstd::prelude::*;

verus! {

// -------------------------------------------------------------------- IPv4

/// Different IPv4 addresses have different texts.
proof fn lemma_v4_text_injective(m: u32, n: u32)
    requires
        v4_text(m) == v4_text(n),
    ensures
        m == n,
{
    let (a1, a2) = ((m / 0x100_0000) as nat, (n / 0x100_0000) as nat);
    let (b1, b2) = ((m / 0x1_0000 % 0x100) as nat, (n / 0x1_0000 % 0x100) as nat);
    let (c1, c2) = ((m / 0x100 % 0x100) as nat, (n / 0x100 % 0x100) as nat);
    let (d1, d2) = ((m % 0x100) as nat, (n % 0x100) as nat);
    lemma_decimal_lacks(b1, '.');
    lemma_decimal_lacks(b2, '.');
    lemma_decimal_lacks(c1, '.');
    lemma_decimal_lacks(c2, '.');
    lemma_decimal_lacks(d1, '.');
    lemma_decimal_lacks(d2, '.');
    let abc1 = decimal(a1) + seq!['.'] + decimal(b1) + seq!['.'] + decimal(c1);
    let abc2 = decimal(a2) + seq!['.'] + decimal(b2) + seq!['.'] + decimal(c2);
    lemma_split_at_last(abc1, decimal(d1), abc2, decimal(d2), '.');
    let ab1 = decimal(a1) + seq!['.'] + decimal(b1);
    let ab2 = decimal(a2) + seq!['.'] + decimal(b2);
    lemma_split_at_last(ab1, decimal(c1), ab2, decimal(c2), '.');
    lemma_split_at_last(decimal(a1), decimal(b1), decimal(a2), decimal(b2), '.');
    lemma_decimal_injective(a1, a2);
    lemma_decimal_injective(b1, b2);
    lemma_decimal_injective(c1, c2);
    lemma_decimal_injective(d1, d2);
    assert(m == a1 * 0x100_0000 + b1 * 0x1_0000 + c1 * 0x100 + d1);
    assert(n == a2 * 0x100_0000 + b2 * 0x1_0000 + c2 * 0x100 + d2);
}

/// The text of an IPv4 address starts with a digit, has a dot and no colon.
pub proof fn lemma_v4_text_shape(n: u32)
    ensures
        v4_text(n).len() > 0,
        '0' <= v4_text(n)[0] <= '9',
        v4_text(n).contains('.'),
        !v4_text(n).contains(':'),
{
    let a = decimal((n / 0x100_0000) as nat);
    let b = decimal((n / 0x1_0000 % 0x100) as nat);
    let c = decimal((n / 0x100 % 0x100) as nat);
    let d = decimal((n % 0x100) as nat);
    lemma_decimal_digits((n / 0x100_0000) as nat);
    lemma_decimal_lacks((n / 0x100_0000) as nat, ':');
    lemma_decimal_lacks((n / 0x1_0000 % 0x100) as nat, ':');
    lemma_decimal_lacks((n / 0x100 % 0x100) as nat, ':');
    lemma_decimal_lacks((n % 0x100) as nat, ':');
    let text = v4_text(n);
    assert(text[0] == a[0]);
    assert(text[a.len() as int] == '.');
    if text.contains(':') {
        let i = choose|i: int| 0 <= i < text.len() && text[i] == ':';
        let (at_b, at_c, at_d) = (
            a.len() as int + 1,
            a.len() as int + b.len() as int + 2,
            a.len() as int + b.len() as int + c.len() as int + 3,
        );
        if i < a.len() {
            assert(a[i] == ':');
        } else if at_b <= i < at_b + b.len() {
            assert(b[i - at_b] == ':');
        } else if at_c <= i < at_c + c.len() {
            assert(c[i - at_c] == ':');
        } else if at_d <= i {
            assert(d[i - at_d] == ':');
        }
    }
}

// -------------------------------------------------------------------- IPv6

/// Every text of zero groups has a first longest run.
pub proof fn lemma_longest_zeros(s: Seq<u16>)
    ensures
        first_longest_zero_run(s, longest_zeros(s).0, longest_zeros(s).1),
{
    let run = lemma_longest_run_exists(s, s.len() as int);
    assert(first_longest_zero_run(s, run.0, run.1));
}

proof fn lemma_longest_run_exists(s: Seq<u16>, n: int) -> (run: (int, int))
    requires
        0 <= n <= s.len(),
        forall|k: int, m: int| #[trigger] zero_run(s, k, m) ==> m <= n,
    ensures
        first_longest_zero_run(s, run.0, run.1),
    decreases n,
{
    if exists|k: int| zero_run(s, k, n) {
        let k = choose|k: int| zero_run(s, k, n);
        let i = lemma_first_run_exists(s, n, k);
        (i, n)
    } else {
        assert(zero_run(s, 0, 0));
        assert forall|k: int, m: int| #[trigger] zero_run(s, k, m) implies m <= n - 1 by {
            if m == n {
                assert(zero_run(s, k, n));
            }
        }
        lemma_longest_run_exists(s, n - 1)
    }
}

proof fn lemma_first_run_exists(s: Seq<u16>, n: int, k: int) -> (i: int)
    requires
        zero_run(s, k, n),
    ensures
        zero_run(s, i, n),
        forall|j: int| #[trigger] zero_run(s, j, n) ==> i <= j,
    decreases k,
{
    if exists|j: int| j < k && zero_run(s, j, n) {
        let j = choose|j: int| j < k && zero_run(s, j, n);
        lemma_first_run_exists(s, n, j)
    } else {
        k
    }
}

/// Whether two colons stand side by side at `i`.
spec fn double_colon_at(text: Seq<char>, i: int) -> bool {
    0 <= i && i + 1 < text.len() && text[i] == ':' && text[i + 1] == ':'
}

/// Joined groups consist of digits and single colons, with a digit at either
/// end.
proof fn lemma_joined_shape(s: Seq<u16>)
    ensures
        s.len() == 0 <==> joined(s).len() == 0,
        s.len() > 0 ==> joined(s)[0] != ':' && joined(s).last() != ':',
        s.len() > 1 <==> joined(s).contains(':'),
        forall|i: int| !double_colon_at(joined(s), i),
        forall|i: int|
            0 <= i < joined(s).len() ==> is_hex_digit(#[trigger] joined(s)[i]) || joined(s)[i]
                == ':',
    decreases s.len(),
{
    let text = joined(s);
    if s.len() == 1 {
        lemma_hexadecimal_digits(s[0] as nat);
    } else if s.len() > 1 {
        lemma_joined_shape(s.drop_last());
        lemma_hexadecimal_digits(s.last() as nat);
        let head = joined(s.drop_last());
        let tail = hexadecimal(s.last() as nat);
        assert(text == head + seq![':'] + tail);
        assert(text[head.len() as int] == ':');
        assert(text[0] == head[0]);
        assert(text.last() == tail.last());
        assert forall|i: int| !double_colon_at(text, i) by {
            if double_colon_at(text, i) {
                if i + 1 < head.len() {
                    assert(double_colon_at(head, i));
                } else if i + 1 == head.len() {
                    assert(head.last() == ':');
                } else {
                    assert(text[i + 1] == tail[i - head.len()]);
                    assert(is_hex_digit(tail[i - head.len()]));
                }
            }
        }
        assert forall|i: int| 0 <= i < text.len() implies is_hex_digit(#[trigger] text[i]) || text[i]
            == ':' by {
            if i < head.len() {
                assert(text[i] == head[i]);
            } else if i > head.len() {
                assert(text[i] == tail[i - head.len() - 1]);
            }
        }
    }
}

proof fn lemma_hexadecimal_lacks_colon(n: nat)
    ensures
        !hexadecimal(n).contains(':'),
{
    lemma_hexadecimal_digits(n);
    if hexadecimal(n).contains(':') {
        let i = choose|i: int| 0 <= i < hexadecimal(n).len() && hexadecimal(n)[i] == ':';
        assert(is_hex_digit(hexadecimal(n)[i]));
    }
}

/// Different groups join to different texts.
proof fn lemma_joined_injective(s: Seq<u16>, t: Seq<u16>)
    requires
        joined(s) == joined(t),
    ensures
        s == t,
    decreases s.len(),
{
    lemma_joined_shape(s);
    lemma_joined_shape(t);
    if s.len() == 0 {
        assert(s =~= t);
    } else if s.len() == 1 {
        lemma_hexadecimal_injective(s[0] as nat, t[0] as nat);
        assert(s =~= t);
    } else {
        lemma_hexadecimal_lacks_colon(s.last() as nat);
        lemma_hexadecimal_lacks_colon(t.last() as nat);
        lemma_split_at_last(
            joined(s.drop_last()),
            hexadecimal(s.last() as nat),
            joined(t.drop_last()),
            hexadecimal(t.last() as nat),
            ':',
        );
        lemma_joined_injective(s.drop_last(), t.drop_last());
        lemma_hexadecimal_injective(s.last() as nat, t.last() as nat);
        assert(s =~= s.drop_last().push(s.last()));
        assert(t =~= t.drop_last().push(t.last()));
    }
}

/// A text with a double colon between joined groups splits there in one way
/// only.
proof fn lemma_split_at_double_colon(
    a: Seq<u16>,
    rest_a: Seq<u16>,
    b: Seq<u16>,
    rest_b: Seq<u16>,
)
    requires
        joined(a) + seq![':', ':'] + joined(rest_a) == joined(b) + seq![':', ':'] + joined(rest_b),
    ensures
        a == b,
        rest_a == rest_b,
{
    lemma_joined_shape(a);
    lemma_joined_shape(b);
    let x = joined(a) + seq![':', ':'] + joined(rest_a);
    let y = joined(b) + seq![':', ':'] + joined(rest_b);
    let (m, n) = (joined(a).len() as int, joined(b).len() as int);
    assert(x[m] == ':' && x[m + 1] == ':');
    assert(y[n] == ':' && y[n + 1] == ':');
    if m < n {
        assert(y[m] == joined(b)[m]);
        if m + 1 < n {
            assert(y[m + 1] == joined(b)[m + 1]);
            assert(double_colon_at(joined(b), m));
        } else {
            assert(joined(b).last() == ':');
        }
    }
    if n < m {
        assert(x[n] == joined(a)[n]);
        if n + 1 < m {
            assert(x[n + 1] == joined(a)[n + 1]);
            assert(double_colon_at(joined(a), n));
        } else {
            assert(joined(a).last() == ':');
        }
    }
    assert(joined(a) =~= x.take(m));
    assert(joined(b) =~= y.take(n));
    assert(joined(rest_a) =~= x.skip(m + 2));
    assert(joined(rest_b) =~= y.skip(n + 2));
    lemma_joined_injective(a, b);
    lemma_joined_injective(rest_a, rest_b);
}

/// Different IPv6 addresses have different groups.
proof fn lemma_groups_injective(x: u128, y: u128)
    requires
        groups(x) == groups(y),
    ensures
        x == y,
{
    let (g, h) = (groups(x), groups(y));
    assert(g[0] == h[0] && g[1] == h[1] && g[2] == h[2] && g[3] == h[3]);
    assert(g[4] == h[4] && g[5] == h[5] && g[6] == h[6] && g[7] == h[7]);
    assert(x == y) by (bit_vector)
        requires
            ((x >> 112) & 0xffff) as u16 == ((y >> 112) & 0xffff) as u16,
            ((x >> 96) & 0xffff) as u16 == ((y >> 96) & 0xffff) as u16,
            ((x >> 80) & 0xffff) as u16 == ((y >> 80) & 0xffff) as u16,
            ((x >> 64) & 0xffff) as u16 == ((y >> 64) & 0xffff) as u16,
            ((x >> 48) & 0xffff) as u16 == ((y >> 48) & 0xffff) as u16,
            ((x >> 32) & 0xffff) as u16 == ((y >> 32) & 0xffff) as u16,
            ((x >> 16) & 0xffff) as u16 == ((y >> 16) & 0xffff) as u16,
            ((x >> 0) & 0xffff) as u16 == ((y >> 0) & 0xffff) as u16,
    ;
}

/// The text of an IPv6 address that is not IPv4-mapped: digits and colons, and
/// a double colon just when a run of zeros shrinks.
proof fn lemma_plain_v6_shape(x: u128)
    requires
        x >> 32 != 0xffff,
    ensures
        ({
            let (i, n) = longest_zeros(groups(x));
            let text = v6_text(x);
            &&& zero_run(groups(x), i, n)
            &&& n > 1 ==> double_colon_at(text, joined(groups(x).take(i)).len() as int)
            &&& n <= 1 ==> forall|k: int| !double_colon_at(text, k)
            &&& !text.contains('.')
            &&& text.contains(':')
        }),
{
    let g = groups(x);
    lemma_longest_zeros(g);
    let (i, n) = longest_zeros(g);
    let text = v6_text(x);
    if n > 1 {
        let head = joined(g.take(i));
        let tail = joined(g.skip(i + n));
        lemma_joined_shape(g.take(i));
        lemma_joined_shape(g.skip(i + n));
        assert(text[head.len() as int] == ':');
        assert(text[head.len() as int + 1] == ':');
        if text.contains('.') {
            let k = choose|k: int| 0 <= k < text.len() && text[k] == '.';
            if k < head.len() {
                assert(head[k] == '.');
            } else if k > head.len() + 1 {
                assert(tail[k - head.len() - 2] == '.');
            }
        }
    } else {
        lemma_joined_shape(g);
    }
}

/// Different IPv6 addresses have different texts.
proof fn lemma_v6_text_injective(x: u128, y: u128)
    requires
        v6_text(x) == v6_text(y),
    ensures
        x == y,
{
    if x >> 32 == 0xffff && y >> 32 == 0xffff {
        let (m, n) = ((x & 0xffff_ffff) as u32, (y & 0xffff_ffff) as u32);
        assert(v6_text(x).skip(7) =~= v4_text(m));
        assert(v6_text(y).skip(7) =~= v4_text(n));
        lemma_v4_text_injective(m, n);
        assert(x == y) by (bit_vector)
            requires
                x >> 32 == 0xffff,
                y >> 32 == 0xffff,
                (x & 0xffff_ffff) as u32 == (y & 0xffff_ffff) as u32,
        ;
    } else if x >> 32 == 0xffff {
        lemma_mapped_has_dot(x);
        lemma_plain_v6_shape(y);
    } else if y >> 32 == 0xffff {
        lemma_mapped_has_dot(y);
        lemma_plain_v6_shape(x);
    } else {
        lemma_plain_v6_shape(x);
        lemma_plain_v6_shape(y);
        let (g, h) = (groups(x), groups(y));
        let (i, n) = longest_zeros(g);
        let (j, m) = longest_zeros(h);
        if n > 1 {
            assert(double_colon_at(v6_text(y), joined(g.take(i)).len() as int));
            lemma_split_at_double_colon(g.take(i), g.skip(i + n), h.take(j), h.skip(j + m));
            assert(g.take(i).len() == i && h.take(j).len() == j);
            assert(g.skip(i + n).len() == 8 - i - n && h.skip(j + m).len() == 8 - j - m);
            assert forall|k: int| 0 <= k < 8 implies g[k] == h[k] by {
                if k < i {
                    assert(g.take(i)[k] == h.take(j)[k]);
                } else if k >= i + n {
                    assert(g.skip(i + n)[k - i - n] == h.skip(j + m)[k - i - n]);
                }
            }
            assert(g =~= h);
        } else {
            if m > 1 {
                assert(double_colon_at(v6_text(x), joined(h.take(j)).len() as int));
            }
            lemma_joined_injective(g, h);
        }
        lemma_groups_injective(x, y);
    }
}

proof fn lemma_mapped_has_dot(x: u128)
    requires
        x >> 32 == 0xffff,
    ensures
        v6_text(x).contains('.'),
{
    let n = (x & 0xffff_ffff) as u32;
    lemma_v4_text_shape(n);
    let i = choose|i: int| 0 <= i < v4_text(n).len() && v4_text(n)[i] == '.';
    assert(v6_text(x)[i + 7] == '.');
}

/// The text of an IPv6 address has a colon, and a text that has a dot as well
/// starts with one.
pub proof fn lemma_v6_text_shape(x: u128)
    ensures
        v6_text(x).contains(':'),
        v6_text(x).contains('.') ==> v6_text(x)[0] == ':',
{
    if x >> 32 == 0xffff {
        assert(v6_text(x)[0] == ':');
    } else {
        lemma_plain_v6_shape(x);
    }
}

// -------------------------------------------------------------------- laws

/// Addresses have the same text just when they are the same.
pub proof fn law_texts_tell_addresses_apart(a: IpAddr, b: IpAddr)
    ensures
        a.spec_text() == b.spec_text() <==> a == b,
{
    if a.spec_text() == b.spec_text() {
        match (a, b) {
            (IpAddr::V4(m), IpAddr::V4(n)) => {
                lemma_v4_text_injective(m, n);
            },
            (IpAddr::V6(x), IpAddr::V6(y)) => {
                lemma_v6_text_injective(x, y);
            },
            (IpAddr::V4(n), IpAddr::V6(x)) => {
                lemma_v4_text_shape(n);
                lemma_v6_text_shape(x);
            },
            (IpAddr::V6(x), IpAddr::V4(n)) => {
                lemma_v4_text_shape(n);
                lemma_v6_text_shape(x);
            },
        }
    }
}

} // verus!
