//! What numerals, trimming, searching, padding and lines are for.

use crate::clock::Timestamp;
use crate::text::{
    after_prefix, decimal, digit, hexadecimal, lines, lines_from, occurs_in, padded, repeated,
    signed_decimal, text_le, trim_end, trim_start, without_carriage_return,
};
use vstd::prelude::*;

verus! {

// ----------------------------------------------------------------- numerals

/// The number that a numeral of decimal digits spells.
pub open spec fn spelled(s: Seq<char>) -> int
    decreases s.len(),
{
    if s.len() == 0 {
        0
    } else {
        spelled(s.drop_last()) * 10 + (s.last() as int - 48)
    }
}

/// The number that a numeral of digits and lower-case letters spells.
pub open spec fn spelled_hex(s: Seq<char>) -> int
    decreases s.len(),
{
    if s.len() == 0 {
        0
    } else {
        spelled_hex(s.drop_last()) * 16 + (if s.last() as int >= 97 {
            s.last() as int - 87
        } else {
            s.last() as int - 48
        })
    }
}

/// A decimal numeral spells its number, in decimal digits and without leading
/// zeros.
pub proof fn law_decimal_reads_back(n: nat)
    ensures
        spelled(decimal(n)) == n,
        decimal(n).len() > 0,
        decimal(n)[0] == '0' ==> n == 0 && decimal(n).len() == 1,
        forall|i: int| 0 <= i < decimal(n).len() ==> '0' <= #[trigger] decimal(n)[i] <= '9',
    decreases n,
{
    let s = decimal(n);
    if n >= 10 {
        law_decimal_reads_back(n / 10);
        assert(s.drop_last() =~= decimal(n / 10));
        assert(s[0] == decimal(n / 10)[0]);
        assert(s.last() == digit(n % 10));
        lemma_digit(n % 10);
    } else {
        assert(spelled(s.drop_last()) == 0);
        assert(s.last() == digit(n));
        lemma_digit(n);
    }
}

/// A hexadecimal numeral spells its number, in lower-case digits and without
/// leading zeros.
pub proof fn law_hexadecimal_reads_back(n: nat)
    ensures
        spelled_hex(hexadecimal(n)) == n,
        hexadecimal(n).len() > 0,
        hexadecimal(n)[0] == '0' ==> n == 0 && hexadecimal(n).len() == 1,
        forall|i: int|
            0 <= i < hexadecimal(n).len() ==> ('0' <= #[trigger] hexadecimal(n)[i] <= '9' || 'a'
                <= hexadecimal(n)[i] <= 'f'),
    decreases n,
{
    let s = hexadecimal(n);
    if n >= 16 {
        law_hexadecimal_reads_back(n / 16);
        assert(s.drop_last() =~= hexadecimal(n / 16));
        assert(s[0] == hexadecimal(n / 16)[0]);
        assert(s.last() == digit(n % 16));
        lemma_digit(n % 16);
    } else {
        assert(spelled_hex(s.drop_last()) == 0);
        assert(s.last() == digit(n));
        lemma_digit(n);
    }
}

proof fn lemma_digit(d: nat)
    requires
        d < 16,
    ensures
        d < 10 ==> digit(d) as int == 48 + d && '0' <= digit(d) <= '9',
        d >= 10 ==> digit(d) as int == 87 + d && 'a' <= digit(d) <= 'f',
        digit(d) == '0' <==> d == 0,
{
}

/// A signed numeral is that of the magnitude, behind a minus sign just when the
/// number is negative.
pub proof fn law_signed_decimal_reads_back(n: int)
    ensures
        n >= 0 ==> signed_decimal(n)[0] != '-' && spelled(signed_decimal(n)) == n,
        n < 0 ==> signed_decimal(n)[0] == '-' && spelled(signed_decimal(n).drop_first()) == -n,
{
    if n >= 0 {
        law_decimal_reads_back(n as nat);
    } else {
        law_decimal_reads_back((-n) as nat);
        assert(signed_decimal(n).drop_first() =~= decimal((-n) as nat));
    }
}

// ----------------------------------------------------------------- trimming

/// What trimming takes off an end is a run of the character, and all of it.
pub proof fn law_trimming_takes_the_run(s: Seq<char>, c: char)
    ensures
        ({
            let t = trim_end(s, c);
            &&& t.len() <= s.len()
            &&& t == s.take(t.len() as int)
            &&& forall|i: int| t.len() <= i < s.len() ==> #[trigger] s[i] == c
            &&& t.len() > 0 ==> t[t.len() - 1] != c
        }),
        ({
            let t = trim_start(s, c);
            let cut = s.len() - t.len();
            &&& cut >= 0
            &&& t == s.skip(cut)
            &&& forall|i: int| 0 <= i < cut ==> #[trigger] s[i] == c
            &&& t.len() > 0 ==> t[0] != c
        }),
    decreases s.len(),
{
    if s.len() > 0 {
        law_trimming_takes_the_run(s.drop_last(), c);
        law_trimming_takes_the_run(s.drop_first(), c);
        let e = trim_end(s, c);
        if s.last() == c {
            assert(e =~= s.take(e.len() as int));
            assert forall|i: int| e.len() <= i < s.len() implies #[trigger] s[i] == c by {
                if i < s.len() - 1 {
                    assert(s.drop_last()[i] == c);
                }
            }
        } else {
            assert(e =~= s.take(e.len() as int));
        }
        let t = trim_start(s, c);
        let cut = s.len() - t.len();
        if s[0] == c {
            assert(t =~= s.skip(cut));
            assert forall|i: int| 0 <= i < cut implies #[trigger] s[i] == c by {
                if i > 0 {
                    assert(s.drop_first()[i - 1] == c);
                }
            }
        } else {
            assert(t =~= s.skip(cut));
        }
    } else {
        assert(trim_end(s, c) =~= s.take(0));
        assert(trim_start(s, c) =~= s.skip(0));
    }
}

// ---------------------------------------------------------------- searching

/// A text occurs in another just when the other is made of something, the text,
/// and something more.
pub proof fn law_occurs_is_inside(needle: Seq<char>, hay: Seq<char>)
    ensures
        occurs_in(needle, hay) <==> exists|before: Seq<char>, after: Seq<char>|
            #[trigger] (before + needle + after) == hay,
{
    if occurs_in(needle, hay) {
        let i = choose|i: int|
            0 <= i <= hay.len() - needle.len() && #[trigger] hay.subrange(i, i + needle.len())
                == needle;
        let before = hay.take(i);
        let after = hay.skip(i + needle.len());
        assert(before + needle + after =~= hay);
    }
    if exists|before: Seq<char>, after: Seq<char>| #[trigger] (before + needle + after) == hay {
        let (before, after) = choose|before: Seq<char>, after: Seq<char>|
            #[trigger] (before + needle + after) == hay;
        let i = before.len() as int;
        assert(hay.subrange(i, i + needle.len()) =~= needle);
    }
}

/// A prefix comes off just where it is, and leaves the rest.
pub proof fn law_prefix_comes_off(s: Seq<char>, prefix: Seq<char>, rest: Seq<char>)
    ensures
        after_prefix(prefix + rest, prefix) == Some(rest),
        after_prefix(s, prefix) is Some ==> s == prefix + after_prefix(s, prefix)->0,
{
    assert((prefix + rest).take(prefix.len() as int) =~= prefix);
    assert(prefix.is_prefix_of(prefix + rest));
    assert((prefix + rest).skip(prefix.len() as int) =~= rest);
    if after_prefix(s, prefix) is Some {
        assert(s =~= prefix + s.skip(prefix.len() as int));
    }
}

/// Texts are ordered by their first difference, and a text comes after its
/// beginnings.
pub proof fn law_texts_are_ordered_by_first_difference(a: Seq<char>, b: Seq<char>, k: int)
    requires
        0 <= k <= a.len(),
        k <= b.len(),
        forall|i: int| 0 <= i < k ==> #[trigger] a[i] == b[i],
    ensures
        k == a.len() ==> text_le(a, b),
        k == b.len() && k < a.len() ==> !text_le(a, b),
        k < a.len() && k < b.len() && a[k] < b[k] ==> text_le(a, b),
        k < a.len() && k < b.len() && b[k] < a[k] ==> !text_le(a, b),
    decreases k,
{
    if k > 0 {
        assert(a[0] == b[0]);
        let (x, y) = (a.drop_first(), b.drop_first());
        assert forall|i: int| 0 <= i < k - 1 implies #[trigger] x[i] == y[i] by {
            assert(a[i + 1] == b[i + 1]);
        }
        law_texts_are_ordered_by_first_difference(x, y, k - 1);
    }
}

// ------------------------------------------------------------------ padding

/// Padding keeps a text and fills it up with spaces, to the width and no
/// further.
pub proof fn law_padding_fills_with_spaces(s: Seq<char>, width: nat)
    ensures
        padded(s, width).len() == (if s.len() < width {
            width
        } else {
            s.len()
        }),
        padded(s, width).take(s.len() as int) == s,
        forall|i: int| s.len() <= i < padded(s, width).len() ==> #[trigger] padded(s, width)[i] == ' ',
{
    assert(padded(s, width).take(s.len() as int) =~= s);
}

/// A repeated character fills the whole text.
pub proof fn law_repeated_is_uniform(c: char, n: nat)
    ensures
        repeated(c, n).len() == n,
        forall|i: int| 0 <= i < n ==> #[trigger] repeated(c, n)[i] == c,
{
}

// -------------------------------------------------------------------- lines

/// Lines are what line feeds, alone or behind a carriage return, separate: a
/// line in front of others is the first of them, and a text without line feeds
/// is one line, or none when it is empty.
pub proof fn law_lines_are_separated_by_line_feeds(line: Seq<char>, rest: Seq<char>)
    requires
        !line.contains('\n'),
    ensures
        lines(line) == (if line.len() > 0 {
            seq![line]
        } else {
            seq![]
        }),
        line.len() == 0 || line[line.len() - 1] != '\r' ==> lines(line + seq!['\n'] + rest)
            == seq![line] + lines(rest),
        lines(line + seq!['\r', '\n'] + rest) == seq![line] + lines(rest),
{
    lemma_lines_until(line, 0, 0, line.len() as int);
    assert(line.skip(0) =~= line);
    assert(lines(line) =~= (if line.len() > 0 {
        seq![line]
    } else {
        seq![]
    }));
    let n = line.len() as int;
    let a = line + seq!['\n'] + rest;
    assert forall|i: int| 0 <= i < n implies #[trigger] a[i] != '\n' by {
        assert(a[i] == line[i]);
    }
    lemma_lines_until(a, 0, 0, n);
    assert(a[n] == '\n');
    assert(a.subrange(0, n) =~= line);
    lemma_lines_shift(a, n + 1, n + 1, n + 1);
    assert(a.skip(n + 1) =~= rest);
    let b = line + seq!['\r', '\n'] + rest;
    assert forall|i: int| 0 <= i < n + 1 implies #[trigger] b[i] != '\n' by {
        if i < n {
            assert(b[i] == line[i]);
        }
    }
    lemma_lines_until(b, 0, 0, n + 1);
    assert(b[n + 1] == '\n');
    assert(b.subrange(0, n + 1) =~= line.push('\r'));
    assert(without_carriage_return(b.subrange(0, n + 1)) =~= line);
    lemma_lines_shift(b, n + 2, n + 2, n + 2);
    assert(b.skip(n + 2) =~= rest);
}

/// What holds no line feed up to `to` belongs to the line under way.
proof fn lemma_lines_until(s: Seq<char>, start: int, end: int, to: int)
    requires
        0 <= start <= end <= to <= s.len(),
        forall|i: int| end <= i < to ==> #[trigger] s[i] != '\n',
    ensures
        lines_from(s, start, end) == lines_from(s, start, to),
    decreases to - end,
{
    if end < to {
        lemma_lines_until(s, start, end + 1, to);
    }
}

/// What lies before the line under way does not matter.
proof fn lemma_lines_shift(s: Seq<char>, start: int, end: int, cut: int)
    requires
        0 <= cut <= start <= end <= s.len(),
    ensures
        lines_from(s, start, end) == lines_from(s.skip(cut), start - cut, end - cut),
    decreases s.len() - end,
{
    let t = s.skip(cut);
    if end >= s.len() {
        assert(t.skip(start - cut) =~= s.skip(start));
    } else if s[end] == '\n' {
        assert(t[end - cut] == '\n');
        assert(t.subrange(start - cut, end - cut) =~= s.subrange(start, end));
        lemma_lines_shift(s, end + 1, end + 1, cut);
    } else {
        assert(t[end - cut] == s[end]);
        lemma_lines_shift(s, start, end + 1, cut);
    }
}

// --------------------------------------------------------------------- time

/// A moment is within so many seconds of a later one just when no more time
/// lies between them; a moment that is still to come always is.
pub proof fn law_within_measures_time(t: Timestamp, secs: nat, now: Timestamp)
    ensures
        t.within(secs, now) <==> now.nanos - t.nanos <= secs * 1_000_000_000,
{
}

} // verus!
