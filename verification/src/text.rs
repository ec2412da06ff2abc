//! Text as sequences of characters: numerals, trimming, searching, ordering,
//! padding and splitting into lines.

use vstd::prelude::*;

verus! {

/// `String::push` of std: appends one character at the end.
pub assume_specification[ String::push ](s: &mut String, ch: char)
    ensures
        final(s)@ == old(s)@.push(ch),
;

/// `String::pop` of std: takes the last character off and returns it, or
/// returns `None` and changes nothing when the string is empty.
pub assume_specification[ String::pop ](s: &mut String) -> (ch: Option<char>)
    ensures
        old(s)@.len() == 0 ==> ch is None && final(s)@ == old(s)@,
        old(s)@.len() > 0 ==> ch == Some(old(s)@.last()) && final(s)@ == old(s)@.drop_last(),
;

/// The text of `s` in lower case, by the Unicode rules of `str::to_lowercase`.
pub uninterp spec fn lowercase(s: Seq<char>) -> Seq<char>;

/// `str::to_lowercase` of std. The result is a function of the text alone and
/// bears the name `lowercase`; it is empty just when the text is, as every
/// character maps to at least one. The Unicode tables behind it are not
/// stated.
#[verifier::external_body]
pub(crate) fn to_lowercase(s: &str) -> (lower: String)
    ensures
        lower@ == lowercase(s@),
        lower@.len() == 0 <==> s@.len() == 0,
{
    s.to_lowercase()
}

/// The text that `bytes` decode to, with each malformed part replaced by
/// U+FFFD as `String::from_utf8_lossy` does.
pub uninterp spec fn utf8_lossy(bytes: Seq<u8>) -> Seq<char>;

/// `String::from_utf8_lossy` of std. The result is a function of the bytes
/// alone and bears the name `utf8_lossy`; on well-formed UTF-8 it is the
/// plain decoding. Where the replacement characters fall on malformed input
/// is not stated.
#[verifier::external_body]
pub(crate) fn from_utf8_lossy(bytes: &[u8]) -> (text: String)
    ensures
        text@ == utf8_lossy(bytes@),
        vstd::utf8::valid_utf8(bytes@) ==> text@ == vstd::utf8::decode_utf8(bytes@),
{
    String::from_utf8_lossy(bytes).into_owned()
}

/// Whether `c` has a numeric general category, as `char::is_numeric` says.
pub uninterp spec fn numeric(c: char) -> bool;

/// `char::is_numeric` of std. The result is a function of the character alone
/// and bears the name `numeric`; of the Unicode categories behind it only the
/// ten ASCII digits are stated.
#[verifier::external_body]
pub(crate) fn is_numeric(c: char) -> (yes: bool)
    ensures
        yes == numeric(c),
        '0' <= c <= '9' ==> yes,
{
    c.is_numeric()
}

/// The characters of `s`, in order.
pub fn chars_of(s: &str) -> (chars: Vec<char>)
    ensures
        chars@ == s@,
{
    let mut chars: Vec<char> = Vec::new();
    for c in it: s.chars()
        invariant
            chars@ == s@.take(it.index() as int),
            it.seq() == s@,
    {
        chars.push(c);
    }
    chars
}

/// The string made of the characters of `chars`.
pub fn string_of(chars: &[char]) -> (s: String)
    ensures
        s@ == chars@,
{
    let mut s = String::new();
    for i in 0..chars.len()
        invariant
            s@ == chars@.take(i as int),
    {
        s.push(chars[i]);
        assert(chars@.take(i as int).push(chars@[i as int]) == chars@.take(i + 1));
    }
    assert(chars@.take(chars@.len() as int) == chars@);
    s
}

/// Whether `a` and `b` are the same text.
pub fn same_text(a: &str, b: &str) -> (same: bool)
    ensures
        same == (a@ == b@),
{
    let x = chars_of(a);
    let y = chars_of(b);
    if x.len() != y.len() {
        return false;
    }
    for i in 0..x.len()
        invariant
            x@ == a@,
            y@ == b@,
            x.len() == y.len(),
            forall|j: int| 0 <= j < i ==> x@[j] == y@[j],
    {
        if x[i] != y[i] {
            return false;
        }
    }
    assert(a@ =~= b@);
    true
}

/// `a` followed by `b`.
pub fn join2(a: &str, b: &str) -> (s: String)
    ensures
        s@ == a@ + b@,
{
    let mut s = a.to_owned();
    s.append(b);
    s
}

/// `a`, `b` and `c` in a row.
pub fn join3(a: &str, b: &str, c: &str) -> (s: String)
    ensures
        s@ == a@ + b@ + c@,
{
    let mut s = a.to_owned();
    s.append(b);
    s.append(c);
    s
}

// ---------------------------------------------------------------- numerals

/// The digit of value `d` in base sixteen or below.
pub open spec fn digit(d: nat) -> char {
    if d == 0 {
        '0'
    } else if d == 1 {
        '1'
    } else if d == 2 {
        '2'
    } else if d == 3 {
        '3'
    } else if d == 4 {
        '4'
    } else if d == 5 {
        '5'
    } else if d == 6 {
        '6'
    } else if d == 7 {
        '7'
    } else if d == 8 {
        '8'
    } else if d == 9 {
        '9'
    } else if d == 10 {
        'a'
    } else if d == 11 {
        'b'
    } else if d == 12 {
        'c'
    } else if d == 13 {
        'd'
    } else if d == 14 {
        'e'
    } else {
        'f'
    }
}

/// `n` in decimal, without leading zeros.
pub open spec fn decimal(n: nat) -> Seq<char>
    decreases n,
{
    if n < 10 {
        seq![digit(n)]
    } else {
        decimal(n / 10).push(digit(n % 10))
    }
}

/// `n` in lower-case hexadecimal, without leading zeros.
pub open spec fn hexadecimal(n: nat) -> Seq<char>
    decreases n,
{
    if n < 16 {
        seq![digit(n)]
    } else {
        hexadecimal(n / 16).push(digit(n % 16))
    }
}

fn digit_char(d: u64) -> (c: char)
    requires
        d < 16,
    ensures
        c == digit(d as nat),
{
    match d {
        0 => '0',
        1 => '1',
        2 => '2',
        3 => '3',
        4 => '4',
        5 => '5',
        6 => '6',
        7 => '7',
        8 => '8',
        9 => '9',
        10 => 'a',
        11 => 'b',
        12 => 'c',
        13 => 'd',
        14 => 'e',
        _ => 'f',
    }
}

/// Appends `n` in decimal to `s`.
pub fn push_decimal(s: &mut String, n: u64)
    ensures
        final(s)@ == old(s)@ + decimal(n as nat),
    decreases n,
{
    if n >= 10 {
        push_decimal(s, n / 10);
    }
    s.push(digit_char(n % 10));
}

/// Appends `n` in lower-case hexadecimal to `s`.
pub fn push_hexadecimal(s: &mut String, n: u64)
    ensures
        final(s)@ == old(s)@ + hexadecimal(n as nat),
    decreases n,
{
    if n >= 16 {
        push_hexadecimal(s, n / 16);
    }
    s.push(digit_char(n % 16));
}

/// `n` in decimal, with a minus sign in front when it is negative.
pub open spec fn signed_decimal(n: int) -> Seq<char> {
    if n < 0 {
        seq!['-'] + decimal((-n) as nat)
    } else {
        decimal(n as nat)
    }
}

/// Appends `n` in decimal to `s`, with a minus sign when it is negative.
pub fn push_signed_decimal(s: &mut String, n: i64)
    ensures
        final(s)@ == old(s)@ + signed_decimal(n as int),
{
    if n < 0 {
        s.push('-');
        let magnitude: u64 = (-(n as i128)) as u64;
        push_decimal(s, magnitude);
        assert(final(s)@ =~= old(s)@ + signed_decimal(n as int));
    } else {
        push_decimal(s, n as u64);
    }
}

/// `n` in decimal.
pub fn decimal_text(n: u64) -> (s: String)
    ensures
        s@ == decimal(n as nat),
{
    let mut s = String::new();
    push_decimal(&mut s, n);
    s
}

/// A decimal numeral is not empty and consists of the ten decimal digits.
pub proof fn lemma_decimal_digits(n: nat)
    ensures
        decimal(n).len() > 0,
        forall|i: int| 0 <= i < decimal(n).len() ==> '0' <= #[trigger] decimal(n)[i] <= '9',
    decreases n,
{
    if n >= 10 {
        lemma_decimal_digits(n / 10);
    }
}

/// Different numbers have different decimal numerals.
pub proof fn lemma_decimal_injective(m: nat, n: nat)
    requires
        decimal(m) == decimal(n),
    ensures
        m == n,
    decreases m,
{
    lemma_decimal_digits(m / 10);
    lemma_decimal_digits(n / 10);
    if m < 10 {
        if n >= 10 {
            assert(decimal(n).len() > 1);
        } else {
            assert(decimal(m)[0] == digit(m));
            assert(decimal(n)[0] == digit(n));
        }
    } else {
        assert(decimal(m).len() > 1);
        assert(n >= 10);
        assert(decimal(m).last() == digit(m % 10));
        assert(decimal(n).last() == digit(n % 10));
        assert(decimal(m).drop_last() == decimal(m / 10));
        assert(decimal(n).drop_last() == decimal(n / 10));
        lemma_decimal_injective(m / 10, n / 10);
    }
}

/// A decimal numeral has no character but digits.
pub proof fn lemma_decimal_lacks(n: nat, c: char)
    requires
        !('0' <= c <= '9'),
    ensures
        !decimal(n).contains(c),
{
    lemma_decimal_digits(n);
    if decimal(n).contains(c) {
        let i = choose|i: int| 0 <= i < decimal(n).len() && decimal(n)[i] == c;
        assert('0' <= decimal(n)[i] <= '9');
    }
}

/// Whether `c` is a digit of base sixteen, in lower case.
pub open spec fn is_hex_digit(c: char) -> bool {
    '0' <= c <= '9' || 'a' <= c <= 'f'
}

/// A hexadecimal numeral is not empty and consists of the sixteen digits.
pub proof fn lemma_hexadecimal_digits(n: nat)
    ensures
        hexadecimal(n).len() > 0,
        forall|i: int| 0 <= i < hexadecimal(n).len() ==> is_hex_digit(#[trigger] hexadecimal(n)[i]),
    decreases n,
{
    if n >= 16 {
        lemma_hexadecimal_digits(n / 16);
    }
}

/// Different numbers have different hexadecimal numerals.
pub proof fn lemma_hexadecimal_injective(m: nat, n: nat)
    requires
        hexadecimal(m) == hexadecimal(n),
    ensures
        m == n,
    decreases m,
{
    lemma_hexadecimal_digits(m / 16);
    lemma_hexadecimal_digits(n / 16);
    if m < 16 {
        if n >= 16 {
            assert(hexadecimal(n).len() > 1);
        }
        assert(hexadecimal(m)[0] == digit(m));
    } else {
        if n < 16 {
            assert(hexadecimal(m).len() > 1);
        }
        assert(hexadecimal(m).last() == digit(m % 16));
        assert(hexadecimal(n).last() == digit(n % 16));
        assert(hexadecimal(m).drop_last() == hexadecimal(m / 16));
        assert(hexadecimal(n).drop_last() == hexadecimal(n / 16));
        lemma_hexadecimal_injective(m / 16, n / 16);
    }
}

// --------------------------------------------------------------- splitting

/// A text splits at its first separator in one way only.
pub proof fn lemma_split_at_first(
    a: Seq<char>,
    rest_a: Seq<char>,
    b: Seq<char>,
    rest_b: Seq<char>,
    sep: char,
)
    requires
        a + seq![sep] + rest_a == b + seq![sep] + rest_b,
        !a.contains(sep),
        !b.contains(sep),
    ensures
        a == b,
        rest_a == rest_b,
{
    let x = a + seq![sep] + rest_a;
    let y = b + seq![sep] + rest_b;
    assert(x[a.len() as int] == sep);
    assert(y[b.len() as int] == sep);
    if a.len() < b.len() {
        assert(y[a.len() as int] == b[a.len() as int]);
        assert(b.contains(sep));
    }
    if b.len() < a.len() {
        assert(x[b.len() as int] == a[b.len() as int]);
        assert(a.contains(sep));
    }
    assert(a =~= x.take(a.len() as int));
    assert(b =~= y.take(b.len() as int));
    assert(rest_a =~= x.skip(a.len() as int + 1));
    assert(rest_b =~= y.skip(b.len() as int + 1));
}

/// A text splits at its last separator in one way only.
pub proof fn lemma_split_at_last(
    a: Seq<char>,
    last_a: Seq<char>,
    b: Seq<char>,
    last_b: Seq<char>,
    sep: char,
)
    requires
        a + seq![sep] + last_a == b + seq![sep] + last_b,
        !last_a.contains(sep),
        !last_b.contains(sep),
    ensures
        a == b,
        last_a == last_b,
{
    let x = a + seq![sep] + last_a;
    let y = b + seq![sep] + last_b;
    assert(x[a.len() as int] == sep);
    assert(y[b.len() as int] == sep);
    assert(x.len() == a.len() + 1 + last_a.len());
    assert(y.len() == b.len() + 1 + last_b.len());
    if a.len() < b.len() {
        assert(x[b.len() as int] == last_a[b.len() - a.len() - 1]);
        assert(last_a.contains(sep));
    }
    if b.len() < a.len() {
        assert(y[a.len() as int] == last_b[a.len() - b.len() - 1]);
        assert(last_b.contains(sep));
    }
    assert(a =~= x.take(a.len() as int));
    assert(b =~= y.take(b.len() as int));
    assert(last_a =~= x.skip(a.len() as int + 1));
    assert(last_b =~= y.skip(b.len() as int + 1));
}

// ---------------------------------------------------------------- trimming

/// `s` without the run of `c` that it starts with.
pub open spec fn trim_start(s: Seq<char>, c: char) -> Seq<char>
    decreases s.len(),
{
    if s.len() > 0 && s[0] == c {
        trim_start(s.drop_first(), c)
    } else {
        s
    }
}

/// `s` without the run of `c` that it ends with.
pub open spec fn trim_end(s: Seq<char>, c: char) -> Seq<char>
    decreases s.len(),
{
    if s.len() > 0 && s.last() == c {
        trim_end(s.drop_last(), c)
    } else {
        s
    }
}

/// `s` without the run of `c` that it starts with.
pub fn trim_start_of(s: &str, c: char) -> (trimmed: String)
    ensures
        trimmed@ == trim_start(s@, c),
{
    let chars = chars_of(s);
    let mut i: usize = 0;
    assert(s@.skip(0) == s@);
    while i < chars.len() && chars[i] == c
        invariant
            i <= chars.len(),
            chars@ == s@,
            trim_start(s@, c) == trim_start(s@.skip(i as int), c),
        decreases chars.len() - i,
    {
        assert(s@.skip(i as int).drop_first() == s@.skip(i + 1));
        i += 1;
    }
    assert(trim_start(s@.skip(i as int), c) == s@.skip(i as int));
    string_of(vstd::slice::slice_subrange(chars.as_slice(), i, chars.len()))
}

/// `s` without the run of `c` that it ends with.
pub fn trim_end_of(s: &str, c: char) -> (trimmed: String)
    ensures
        trimmed@ == trim_end(s@, c),
{
    let chars = chars_of(s);
    let mut n: usize = chars.len();
    assert(s@.take(s@.len() as int) == s@);
    while n > 0 && chars[n - 1] == c
        invariant
            n <= chars.len(),
            chars@ == s@,
            trim_end(s@, c) == trim_end(s@.take(n as int), c),
        decreases n,
    {
        assert(s@.take(n as int).drop_last() == s@.take(n - 1));
        n -= 1;
    }
    assert(trim_end(s@.take(n as int), c) == s@.take(n as int));
    string_of(vstd::slice::slice_subrange(chars.as_slice(), 0, n))
}

// --------------------------------------------------------------- searching

/// Whether `needle` occurs in `hay` as a run of consecutive characters.
pub open spec fn occurs_in(needle: Seq<char>, hay: Seq<char>) -> bool {
    exists|i: int|
        0 <= i <= hay.len() - needle.len() && #[trigger] hay.subrange(i, i + needle.len())
            == needle
}

/// Whether `needle` occurs in `hay`.
pub fn contains(hay: &str, needle: &str) -> (found: bool)
    ensures
        found == occurs_in(needle@, hay@),
{
    let h = chars_of(hay);
    let n = chars_of(needle);
    if n.len() > h.len() {
        return false;
    }
    let last: usize = h.len() - n.len();
    let mut i: usize = 0;
    while i <= last
        invariant
            h@ == hay@,
            n@ == needle@,
            last == h.len() - n.len(),
            i <= last + 1,
            forall|k: int| 0 <= k < i ==> #[trigger] h@.subrange(k, k + n@.len()) != n@,
        decreases last + 1 - i,
    {
        let mut j: usize = 0;
        while j < n.len() && h[i + j] == n[j]
            invariant
                i <= last,
                last == h.len() - n.len(),
                j <= n.len(),
                forall|k: int| 0 <= k < j ==> h@[i + k] == n@[k],
            decreases n.len() - j,
        {
            j += 1;
        }
        if j == n.len() {
            assert(h@.subrange(i as int, i + n@.len()) =~= n@);
            return true;
        }
        assert(h@.subrange(i as int, i + n@.len())[j as int] != n@[j as int]);
        i += 1;
    }
    false
}

/// What follows `prefix` in `s`, when `s` starts with it.
pub open spec fn after_prefix(s: Seq<char>, prefix: Seq<char>) -> Option<Seq<char>> {
    if prefix.is_prefix_of(s) {
        Some(s.skip(prefix.len() as int))
    } else {
        None
    }
}

/// What follows `prefix` in `s`, or `None` when `s` does not start with it.
pub fn strip_prefix_of(s: &str, prefix: &str) -> (rest: Option<String>)
    ensures
        match rest {
            Some(r) => after_prefix(s@, prefix@) == Some(r@),
            None => after_prefix(s@, prefix@) is None,
        },
{
    let x = chars_of(s);
    let p = chars_of(prefix);
    if p.len() > x.len() {
        return None;
    }
    for i in 0..p.len()
        invariant
            x@ == s@,
            p@ == prefix@,
            p.len() <= x.len(),
            forall|j: int| 0 <= j < i ==> x@[j] == p@[j],
    {
        if x[i] != p[i] {
            assert(s@.subrange(0, p@.len() as int)[i as int] != p@[i as int]);
            return None;
        }
    }
    assert(prefix@ =~= s@.subrange(0, prefix@.len() as int));
    Some(string_of(vstd::slice::slice_subrange(x.as_slice(), p.len(), x.len())))
}

// ---------------------------------------------------------------- ordering

/// The lexicographic order of texts by their characters' code points.
pub open spec fn text_le(a: Seq<char>, b: Seq<char>) -> bool
    decreases a.len(),
{
    a.len() == 0 || (b.len() > 0 && (a[0] < b[0] || (a[0] == b[0] && text_le(
        a.drop_first(),
        b.drop_first(),
    ))))
}

/// Any two texts are ordered one way or the other.
pub proof fn lemma_text_le_total(a: Seq<char>, b: Seq<char>)
    ensures
        text_le(a, b) || text_le(b, a),
    decreases a.len(),
{
    if a.len() > 0 && b.len() > 0 && a[0] == b[0] {
        lemma_text_le_total(a.drop_first(), b.drop_first());
    }
}

/// The order of texts is transitive.
pub proof fn lemma_text_le_transitive(a: Seq<char>, b: Seq<char>, c: Seq<char>)
    requires
        text_le(a, b),
        text_le(b, c),
    ensures
        text_le(a, c),
    decreases a.len(),
{
    if a.len() > 0 && a[0] == b[0] && b[0] == c[0] {
        lemma_text_le_transitive(a.drop_first(), b.drop_first(), c.drop_first());
    }
}

/// Texts ordered both ways are the same.
pub proof fn lemma_text_le_antisymmetric(a: Seq<char>, b: Seq<char>)
    requires
        text_le(a, b),
        text_le(b, a),
    ensures
        a == b,
    decreases a.len(),
{
    if a.len() > 0 {
        lemma_text_le_antisymmetric(a.drop_first(), b.drop_first());
        assert(a =~= seq![a[0]] + a.drop_first());
        assert(b =~= seq![b[0]] + b.drop_first());
    } else {
        assert(b.len() == 0);
        assert(a =~= b);
    }
}

/// Whether `a` comes before `b` in lexicographic order, or equals it.
pub fn text_at_most(a: &str, b: &str) -> (yes: bool)
    ensures
        yes == text_le(a@, b@),
{
    let x = chars_of(a);
    let y = chars_of(b);
    let mut i: usize = 0;
    assert(a@.skip(0) == a@);
    assert(b@.skip(0) == b@);
    while i < x.len()
        invariant
            x@ == a@,
            y@ == b@,
            i <= x.len(),
            i <= y.len(),
            text_le(a@, b@) == text_le(a@.skip(i as int), b@.skip(i as int)),
        decreases x.len() - i,
    {
        if i >= y.len() {
            return false;
        }
        if x[i] != y[i] {
            return x[i] < y[i];
        }
        assert(a@.skip(i as int).drop_first() == a@.skip(i + 1));
        assert(b@.skip(i as int).drop_first() == b@.skip(i + 1));
        i += 1;
    }
    true
}

// ----------------------------------------------------------------- padding

/// `n` copies of `c`.
pub open spec fn repeated(c: char, n: nat) -> Seq<char> {
    Seq::new(n, |i: int| c)
}

/// `s` filled up with spaces on the right to `width` characters; a longer
/// text is left as it is.
pub open spec fn padded(s: Seq<char>, width: nat) -> Seq<char> {
    if s.len() < width {
        s + repeated(' ', (width - s.len()) as nat)
    } else {
        s
    }
}

/// Appends `n` copies of `c` to `s`.
pub fn push_repeated(s: &mut String, c: char, n: usize)
    ensures
        final(s)@ == old(s)@ + repeated(c, n as nat),
{
    let ghost before = s@;
    for i in 0..n
        invariant
            s@ == before + repeated(c, i as nat),
    {
        s.push(c);
        assert(repeated(c, i as nat).push(c) =~= repeated(c, (i + 1) as nat));
        assert(s@ =~= before + repeated(c, (i + 1) as nat));
    }
    assert(before + repeated(c, 0) =~= before);
}

/// Appends `text` to `s`, filled up with spaces to `width` characters.
pub fn push_padded(s: &mut String, text: &str, width: usize)
    ensures
        final(s)@ == old(s)@ + padded(text@, width as nat),
{
    let n: usize = text.unicode_len();
    s.append(text);
    if n < width {
        push_repeated(s, ' ', width - n);
        assert(s@ =~= old(s)@ + padded(text@, width as nat));
    }
}

// ------------------------------------------------------------------- lines

/// `line` without the carriage return that it may end with.
pub open spec fn without_carriage_return(line: Seq<char>) -> Seq<char> {
    if line.len() > 0 && line.last() == '\r' {
        line.drop_last()
    } else {
        line
    }
}

/// The lines of `s` from position `start` on, where the line under way began
/// at `start` and everything up to `end` is known to belong to it. A line ends
/// with a line feed, or a carriage return and a line feed; the last line may
/// lack its ending.
pub open spec fn lines_from(s: Seq<char>, start: int, end: int) -> Seq<Seq<char>>
    decreases s.len() - end,
{
    if end < 0 || end >= s.len() {
        if start < s.len() {
            seq![s.skip(start)]
        } else {
            seq![]
        }
    } else if s[end] == '\n' {
        seq![without_carriage_return(s.subrange(start, end))] + lines_from(s, end + 1, end + 1)
    } else {
        lines_from(s, start, end + 1)
    }
}

/// The lines of `s`, without their endings.
pub open spec fn lines(s: Seq<char>) -> Seq<Seq<char>> {
    lines_from(s, 0, 0)
}

/// The texts of a list of strings.
pub open spec fn texts(v: Seq<String>) -> Seq<Seq<char>> {
    v.map_values(|s: String| s@)
}

/// The lines of `s`, without their endings.
pub fn lines_of(s: &str) -> (out: Vec<String>)
    ensures
        texts(out@) == lines(s@),
{
    let chars = chars_of(s);
    let mut out: Vec<String> = Vec::new();
    let mut start: usize = 0;
    let mut end: usize = 0;
    assert(texts(out@) + lines_from(s@, 0, 0) =~= lines(s@));
    while end < chars.len()
        invariant
            chars@ == s@,
            start <= end <= chars.len(),
            texts(out@) + lines_from(s@, start as int, end as int) == lines(s@),
        decreases chars.len() - end,
    {
        if chars[end] == '\n' {
            let ghost before = out@;
            let mut stop: usize = end;
            if start < end && chars[end - 1] == '\r' {
                stop = end - 1;
            }
            let line = string_of(vstd::slice::slice_subrange(chars.as_slice(), start, stop));
            assert(line@ =~= without_carriage_return(s@.subrange(start as int, end as int)));
            out.push(line);
            assert(texts(out@) =~= texts(before).push(line@));
            assert(texts(out@) + lines_from(s@, end + 1, end + 1) =~= texts(before) + lines_from(
                s@,
                start as int,
                end as int,
            ));
            start = end + 1;
        }
        end += 1;
    }
    if start < chars.len() {
        let ghost before = out@;
        let line = string_of(vstd::slice::slice_subrange(chars.as_slice(), start, chars.len()));
        assert(line@ =~= s@.skip(start as int));
        out.push(line);
        assert(texts(out@) =~= texts(before) + seq![line@]);
    } else {
        assert(texts(out@) =~= texts(out@) + lines_from(s@, start as int, end as int));
    }
    out
}

} // verus!
