//! Character-sequence helpers shared by the derivation modules.
//!
//! Every function here is stated over `Seq<char>`, the view of `str` and
//! `String`, so that the identifiers built from them can be compared exactly.

use vstd::prelude::*;

verus! {

/// Unicode lowercase form of a character sequence, as the standard library
/// computes it.
pub uninterp spec fn lowercase_of(s: Seq<char>) -> Seq<char>;

/// Lowercases a string.
///
/// Trusted: `str::to_lowercase` of the standard library. The result depends
/// on the characters of `s` alone; nothing more is claimed of it than that it
/// is the value named `lowercase_of`.
#[verifier::external_body]
pub(crate) fn to_lowercase(s: &str) -> (r: String)
    ensures
        r@ == lowercase_of(s@),
{
    s.to_lowercase()
}

/// Appends one character to a string.
///
/// Trusted: `String::push` of the standard library, which extends the string
/// by exactly the given character.
#[verifier::external_body]
pub(crate) fn push_char(s: &mut String, c: char)
    ensures
        final(s)@ == old(s)@.push(c),
{
    s.push(c)
}

/// Whether two string slices hold the same characters.
pub fn same_text(a: &str, b: &str) -> (r: bool)
    ensures
        r == (a@ == b@),
{
    let x = a.to_owned();
    let y = b.to_owned();
    x == y
}

// ---------------------------------------------------------------------------
// Decimal rendering
// ---------------------------------------------------------------------------

/// The character that stands for a single decimal digit.
pub open spec fn digit_char(d: nat) -> char
    recommends
        d < 10,
{
    ((48 + d) as u8) as char
}

/// Whether `c` is one of `0` to `9`.
pub open spec fn is_decimal_digit(c: char) -> bool {
    48 <= c as u32 <= 57
}

/// Decimal rendering of a natural number, without sign or leading zeros.
pub open spec fn decimal(n: nat) -> Seq<char>
    decreases n,
{
    if n < 10 {
        seq![digit_char(n)]
    } else {
        decimal(n / 10).push(digit_char(n % 10))
    }
}

/// Decimal rendering of an integer: a minus sign before the digits of a
/// negative number.
pub open spec fn signed_decimal(i: int) -> Seq<char> {
    if i < 0 {
        seq!['-'] + decimal((-i) as nat)
    } else {
        decimal(i as nat)
    }
}

/// A decimal rendering is never empty and holds digits only.
pub proof fn lemma_decimal_digits(n: nat)
    ensures
        decimal(n).len() >= 1,
        n >= 10 ==> decimal(n).len() >= 2,
        forall|i: int| 0 <= i < decimal(n).len() ==> is_decimal_digit(#[trigger] decimal(n)[i]),
    decreases n,
{
    if n >= 10 {
        lemma_decimal_digits(n / 10);
    }
}

/// Two numbers with the same decimal rendering are the same number.
pub proof fn lemma_decimal_injective(a: nat, b: nat)
    requires
        decimal(a) == decimal(b),
    ensures
        a == b,
    decreases a,
{
    lemma_decimal_digits(a);
    lemma_decimal_digits(b);
    if a < 10 && b < 10 {
        assert(decimal(a)[0] == digit_char(a));
        assert(decimal(b)[0] == digit_char(b));
    } else if a >= 10 && b >= 10 {
        let x = decimal(a / 10);
        let y = decimal(b / 10);
        assert(decimal(a).last() == digit_char(a % 10));
        assert(decimal(b).last() == digit_char(b % 10));
        assert(decimal(a).drop_last() =~= x);
        assert(decimal(b).drop_last() =~= y);
        lemma_decimal_injective(a / 10, b / 10);
    } else {
        assert(decimal(a).len() != decimal(b).len());
    }
}

/// A decimal rendering holds no character but digits, so none that is no
/// digit.
pub proof fn lemma_decimal_lacks(n: nat, c: char)
    requires
        !is_decimal_digit(c),
    ensures
        !has_char(decimal(n), c),
{
    lemma_decimal_digits(n);
}

/// Appends the decimal rendering of `n` to `out`.
pub fn push_decimal(out: &mut String, n: u64)
    ensures
        final(out)@ == old(out)@ + decimal(n as nat),
    decreases n,
{
    if n >= 10 {
        push_decimal(out, n / 10);
    }
    let d: u8 = (n % 10) as u8;
    let c: char = (48u8 + d) as char;
    push_char(out, c);
}

/// Appends the decimal rendering of a signed number to `out`.
pub fn push_signed_decimal(out: &mut String, i: i64)
    ensures
        final(out)@ == old(out)@ + signed_decimal(i as int),
{
    if i < 0 {
        push_char(out, '-');
        let magnitude: u64 = if i == i64::MIN {
            9223372036854775808u64
        } else {
            (-i) as u64
        };
        push_decimal(out, magnitude);
    } else {
        push_decimal(out, i as u64);
    }
}

// ---------------------------------------------------------------------------
// Substitution and case
// ---------------------------------------------------------------------------

/// `s` with every occurrence of the character `from` replaced by the
/// sequence `to`.
pub open spec fn replace_char(s: Seq<char>, from: char, to: Seq<char>) -> Seq<char>
    decreases s.len(),
{
    if s.len() == 0 {
        Seq::empty()
    } else {
        replace_char(s.drop_last(), from, to) + (if s.last() == from {
            to
        } else {
            seq![s.last()]
        })
    }
}

/// Replaces every occurrence of `from` in `s` by `to`.
pub fn replace_char_in(s: &str, from: char, to: &str) -> (r: String)
    ensures
        r@ == replace_char(s@, from, to@),
{
    let mut out = String::new();
    for c in it: s.chars()
        invariant
            it.seq() == s@,
            out@ == replace_char(s@.take(it.index() as int), from, to@),
    {
        proof {
            let i = it.index() as int;
            assert(s@.take(i + 1).drop_last() =~= s@.take(i));
            assert(s@.take(i + 1).last() == c);
        }
        if c == from {
            out.append(to);
        } else {
            push_char(&mut out, c);
        }
    }
    proof {
        assert(s@.take(s@.len() as int) =~= s@);
    }
    out
}

/// Putting `[from, x]` in place of every `from` never leaves `from` at the
/// end, where `x` is another character.
pub proof fn lemma_replace_char_end(s: Seq<char>, from: char, x: char)
    requires
        x != from,
    ensures
        s.len() > 0 ==> replace_char(s, from, seq![from, x]).len() > 0 && replace_char(
            s,
            from,
            seq![from, x],
        ).last() != from,
        s.len() == 0 ==> replace_char(s, from, seq![from, x]).len() == 0,
{
}

/// Putting `[from, x]` in place of every `from` loses nothing: two sequences
/// that become the same were the same.
pub proof fn lemma_replace_char_injective(a: Seq<char>, b: Seq<char>, from: char, x: char)
    requires
        x != from,
        replace_char(a, from, seq![from, x]) == replace_char(b, from, seq![from, x]),
    ensures
        a == b,
    decreases a.len(),
{
    let to = seq![from, x];
    lemma_replace_char_end(a, from, x);
    lemma_replace_char_end(b, from, x);
    if a.len() == 0 || b.len() == 0 {
        assert(a =~= b);
    } else {
        let ra = replace_char(a.drop_last(), from, to);
        let rb = replace_char(b.drop_last(), from, to);
        let la = a.last();
        let lb = b.last();
        if la == from && lb == from {
            lemma_common_suffix(ra, rb, to);
        } else if la != from && lb != from {
            assert((ra + seq![la]).last() == la);
            assert((rb + seq![lb]).last() == lb);
            lemma_common_suffix(ra, rb, seq![la]);
        } else if la == from {
            assert((ra + to).last() == x);
            assert((rb + seq![lb]).last() == lb);
            assert((ra + to).drop_last() =~= ra + seq![from]);
            assert((rb + seq![lb]).drop_last() =~= rb);
            lemma_replace_char_end(b.drop_last(), from, x);
            assert((ra + seq![from]).last() == from);
        } else {
            assert((rb + to).last() == x);
            assert((ra + seq![la]).last() == la);
            assert((rb + to).drop_last() =~= rb + seq![from]);
            assert((ra + seq![la]).drop_last() =~= ra);
            lemma_replace_char_end(a.drop_last(), from, x);
            assert((rb + seq![from]).last() == from);
        }
        lemma_replace_char_injective(a.drop_last(), b.drop_last(), from, x);
        assert(a =~= a.drop_last().push(la));
        assert(b =~= b.drop_last().push(lb));
    }
}

/// Replacing goes part by part: what `a + b` becomes is what `a` becomes,
/// then what `b` becomes.
pub proof fn lemma_replace_char_concat(a: Seq<char>, b: Seq<char>, from: char, to: Seq<char>)
    ensures
        replace_char(a + b, from, to) == replace_char(a, from, to) + replace_char(b, from, to),
    decreases b.len(),
{
    if b.len() == 0 {
        assert(a + b =~= a);
        assert(replace_char(a, from, to) + replace_char(b, from, to) =~= replace_char(
            a,
            from,
            to,
        ));
    } else {
        assert((a + b).drop_last() =~= a + b.drop_last());
        assert((a + b).last() == b.last());
        lemma_replace_char_concat(a, b.drop_last(), from, to);
        let piece = if b.last() == from {
            to
        } else {
            seq![b.last()]
        };
        assert(replace_char(a, from, to) + replace_char(b.drop_last(), from, to) + piece
            =~= replace_char(a, from, to) + (replace_char(b.drop_last(), from, to) + piece));
    }
}

/// A sequence without `from` stays as it is.
pub proof fn lemma_replace_char_absent(s: Seq<char>, from: char, to: Seq<char>)
    requires
        !has_char(s, from),
    ensures
        replace_char(s, from, to) == s,
    decreases s.len(),
{
    if s.len() > 0 {
        assert(s.last() == s[s.len() - 1]);
        assert forall|i: int| 0 <= i < s.drop_last().len() implies s.drop_last()[i] != from by {
            assert(s.drop_last()[i] == s[i]);
        }
        lemma_replace_char_absent(s.drop_last(), from, to);
        assert(s =~= s.drop_last() + seq![s.last()]);
    } else {
        assert(s =~= Seq::<char>::empty());
    }
}

/// The lowercase form of an ASCII capital letter; any other character
/// unchanged.
pub open spec fn ascii_lower(c: char) -> char {
    if 65 <= c as u32 <= 90 {
        ((c as u32 + 32) as u8) as char
    } else {
        c
    }
}

/// `s` with its ASCII capital letters lowercased.
pub open spec fn ascii_lowercase(s: Seq<char>) -> Seq<char> {
    Seq::new(s.len(), |i: int| ascii_lower(s[i]))
}

/// Lowercases `c` where it is an ASCII capital letter.
pub fn to_ascii_lower(c: char) -> (r: char)
    ensures
        r == ascii_lower(c),
{
    if 'A' <= c && c <= 'Z' {
        ((c as u8) + 32u8) as char
    } else {
        c
    }
}

/// Lowercases the ASCII capital letters of `s`.
pub fn to_ascii_lowercase(s: &str) -> (r: String)
    ensures
        r@ == ascii_lowercase(s@),
{
    let mut out = String::new();
    for c in it: s.chars()
        invariant
            it.seq() == s@,
            out@ == ascii_lowercase(s@.take(it.index() as int)),
    {
        let lowered = to_ascii_lower(c);
        let ghost before = out@;
        push_char(&mut out, lowered);
        proof {
            let i = it.index() as int;
            assert(c == s@[i]);
            assert(before.len() == i);
            assert forall|j: int| 0 <= j < i + 1 implies out@[j] == ascii_lower(
                s@.take(i + 1)[j],
            ) by {
                if j < i {
                    assert(out@[j] == before[j]);
                    assert(before[j] == ascii_lower(s@.take(i)[j]));
                    assert(s@.take(i)[j] == s@.take(i + 1)[j]);
                }
            }
            assert(out@ =~= ascii_lowercase(s@.take(i + 1)));
        }
    }
    proof {
        assert(s@.take(s@.len() as int) =~= s@);
    }
    out
}

// ---------------------------------------------------------------------------
// Hexadecimal numbers
// ---------------------------------------------------------------------------

/// The value of a hexadecimal digit, in either case; `None` for any other
/// character.
pub open spec fn hex_digit(c: char) -> Option<nat> {
    let v = c as u32;
    if 48 <= v <= 57 {
        Some((v - 48) as nat)
    } else if 97 <= v <= 102 {
        Some((v - 87) as nat)
    } else if 65 <= v <= 70 {
        Some((v - 55) as nat)
    } else {
        None
    }
}

/// Whether every character of `s` is a hexadecimal digit.
pub open spec fn all_hex(s: Seq<char>) -> bool {
    forall|i: int| 0 <= i < s.len() ==> (#[trigger] hex_digit(s[i])) is Some
}

/// The number that a sequence of hexadecimal digits denotes, most
/// significant digit first.
pub open spec fn hex_magnitude(s: Seq<char>) -> nat
    decreases s.len(),
{
    if s.len() == 0 {
        0
    } else {
        16 * hex_magnitude(s.drop_last()) + match hex_digit(s.last()) {
            Some(d) => d,
            None => 0,
        }
    }
}

/// The signed 64-bit number that `s` denotes in base 16: an optional `+` or
/// `-`, then at least one hexadecimal digit and nothing else. `None` where
/// `s` has another shape or the number does not fit.
pub open spec fn parse_hex(s: Seq<char>) -> Option<int> {
    let negative = s.len() > 0 && s[0] == '-';
    let signed = s.len() > 0 && (s[0] == '-' || s[0] == '+');
    let digits = if signed {
        s.skip(1)
    } else {
        s
    };
    let value = if negative {
        -(hex_magnitude(digits) as int)
    } else {
        hex_magnitude(digits) as int
    };
    if digits.len() > 0 && all_hex(digits) && i64::MIN <= value <= i64::MAX {
        Some(value)
    } else {
        None
    }
}

/// A prefix of a digit sequence denotes no more than the whole sequence.
pub proof fn lemma_hex_magnitude_prefix(s: Seq<char>, k: int)
    requires
        0 <= k <= s.len(),
    ensures
        hex_magnitude(s.take(k)) <= hex_magnitude(s),
    decreases s.len(),
{
    if k == s.len() {
        assert(s.take(k) =~= s);
    } else {
        assert(s.take(k) =~= s.drop_last().take(k));
        lemma_hex_magnitude_prefix(s.drop_last(), k);
    }
}

/// The value of the hexadecimal digit `c`, if it is one.
pub fn hex_digit_value(c: char) -> (r: Option<u8>)
    ensures
        match r {
            Some(d) => hex_digit(c) == Some(d as nat) && d < 16,
            None => hex_digit(c) is None,
        },
{
    if '0' <= c && c <= '9' {
        Some((c as u8) - 48u8)
    } else if 'a' <= c && c <= 'f' {
        Some((c as u8) - 87u8)
    } else if 'A' <= c && c <= 'F' {
        Some((c as u8) - 55u8)
    } else {
        None
    }
}

/// Reads `s` as a signed 64-bit number in base 16.
pub fn parse_hex_i64(s: &str) -> (r: Option<i64>)
    ensures
        match r {
            Some(v) => parse_hex(s@) == Some(v as int),
            None => parse_hex(s@) is None,
        },
{
    let n = s.unicode_len();
    if n == 0 {
        return None;
    }
    let first = s.get_char(0);
    let negative = first == '-';
    let start: usize = if first == '-' || first == '+' {
        1
    } else {
        0
    };
    if start == n {
        return None;
    }
    let ghost digits = s@.skip(start as int);
    proof {
        if start == 0 {
            assert(digits =~= s@);
        }
    }
    let limit: u64 = 9223372036854775808u64;
    let mut acc: u64 = 0;
    let mut i: usize = start;
    while i < n
        invariant
            n == s@.len(),
            start <= i <= n,
            digits == s@.skip(start as int),
            start == 0 ==> digits == s@,
            start == (if s@[0] == '-' || s@[0] == '+' {
                1int
            } else {
                0int
            }),
            limit == 9223372036854775808u64,
            all_hex(digits.take(i - start)),
            acc == hex_magnitude(digits.take(i - start)),
            acc <= limit,
        decreases n - i,
    {
        let c = s.get_char(i);
        let ghost k = i - start;
        proof {
            assert(digits[k] == c);
            assert(digits.take(k + 1).drop_last() =~= digits.take(k));
            assert(digits.take(k + 1).last() == c);
        }
        let d: u64 = match hex_digit_value(c) {
            Some(d) => d as u64,
            None => {
                assert(hex_digit(digits[k]) is None);
                return None;
            },
        };
        if acc > (limit - d) / 16 {
            proof {
                lemma_hex_magnitude_prefix(digits, k + 1);
                assert(hex_magnitude(digits) > limit);
            }
            return None;
        }
        acc = acc * 16 + d;
        proof {
            assert forall|j: int| 0 <= j < k + 1 implies (#[trigger] hex_digit(
                digits.take(k + 1)[j],
            )) is Some by {
                if j < k {
                    assert(digits.take(k + 1)[j] == digits.take(k)[j]);
                }
            }
        }
        i = i + 1;
    }
    proof {
        assert(digits.take(n - start) =~= digits);
    }
    if negative {
        if acc == limit {
            Some(i64::MIN)
        } else {
            Some(-(acc as i64))
        }
    } else if acc > 9223372036854775807u64 {
        None
    } else {
        Some(acc as i64)
    }
}

// ---------------------------------------------------------------------------
// Delimiters
// ---------------------------------------------------------------------------

/// Whether the character `c` occurs in `s`.
pub open spec fn has_char(s: Seq<char>, c: char) -> bool {
    exists|i: int| 0 <= i < s.len() && s[i] == c
}

/// Index of the first occurrence of `c` in `s`; the length of `s` where `c`
/// does not occur.
pub open spec fn position(s: Seq<char>, c: char) -> int
    decreases s.len(),
{
    if s.len() == 0 {
        0
    } else if s[0] == c {
        0
    } else {
        1 + position(s.skip(1), c)
    }
}

/// The part of `s` before the first occurrence of `c`; all of `s` where `c`
/// does not occur.
pub open spec fn before(s: Seq<char>, c: char) -> Seq<char> {
    s.take(position(s, c))
}

/// The part of `s` after the first occurrence of `c`; empty where `c` does
/// not occur.
pub open spec fn after(s: Seq<char>, c: char) -> Seq<char> {
    if position(s, c) < s.len() {
        s.skip(position(s, c) + 1)
    } else {
        Seq::empty()
    }
}

/// `position` is within bounds, nothing before it is `c`, and what stands at
/// it is `c`.
pub proof fn lemma_position(s: Seq<char>, c: char)
    ensures
        0 <= position(s, c) <= s.len(),
        forall|i: int| 0 <= i < position(s, c) ==> s[i] != c,
        position(s, c) < s.len() ==> s[position(s, c)] == c,
        position(s, c) < s.len() <==> has_char(s, c),
    decreases s.len(),
{
    if s.len() == 0 {
    } else if s[0] == c {
    } else {
        let t = s.skip(1);
        lemma_position(t, c);
        assert forall|i: int| 0 <= i < position(s, c) implies s[i] != c by {
            if i > 0 {
                assert(s[i] == t[i - 1]);
            }
        }
        if position(t, c) < t.len() {
            assert(s[position(s, c)] == t[position(t, c)]);
        }
        if has_char(s, c) {
            let i = choose|i: int| 0 <= i < s.len() && s[i] == c;
            assert(t[i - 1] == c);
        }
    }
}

/// The first occurrence of `c` is the only index with nothing but other
/// characters before it and `c` at it.
pub proof fn lemma_position_is(s: Seq<char>, c: char, p: int)
    requires
        0 <= p <= s.len(),
        forall|i: int| 0 <= i < p ==> s[i] != c,
        p < s.len() ==> s[p] == c,
    ensures
        position(s, c) == p,
{
    lemma_position(s, c);
    let q = position(s, c);
    if q < p {
        assert(s[q] == c);
    } else if p < q {
        assert(s[p] == c);
    }
}

/// In `a + [c] + b`, where `c` does not occur in `a`, the first `c` stands
/// right after `a`.
pub proof fn lemma_split_joined(a: Seq<char>, c: char, b: Seq<char>)
    requires
        !has_char(a, c),
    ensures
        position(a + seq![c] + b, c) == a.len(),
        before(a + seq![c] + b, c) == a,
        after(a + seq![c] + b, c) == b,
{
    let s = a + seq![c] + b;
    assert forall|i: int| 0 <= i < a.len() implies s[i] != c by {
        assert(s[i] == a[i]);
    }
    assert(s[a.len() as int] == c);
    lemma_position_is(s, c, a.len() as int);
    assert(s.take(a.len() as int) =~= a);
    assert(s.skip(a.len() as int + 1) =~= b);
}

/// Two sequences joined by `c` come apart in one way only, where `c` does
/// not occur in what stands before it.
pub proof fn lemma_joined_injective(
    a1: Seq<char>,
    b1: Seq<char>,
    a2: Seq<char>,
    b2: Seq<char>,
    c: char,
)
    requires
        !has_char(a1, c),
        !has_char(a2, c),
        a1 + seq![c] + b1 == a2 + seq![c] + b2,
    ensures
        a1 == a2,
        b1 == b2,
{
    lemma_split_joined(a1, c, b1);
    lemma_split_joined(a2, c, b2);
}

/// What stands before a common ending is the same on both sides.
pub proof fn lemma_common_suffix(a: Seq<char>, b: Seq<char>, end: Seq<char>)
    requires
        a + end == b + end,
    ensures
        a == b,
{
    assert((a + end).len() == a.len() + end.len());
    assert((b + end).len() == b.len() + end.len());
    assert(a =~= (a + end).take(a.len() as int));
    assert(b =~= (b + end).take(b.len() as int));
}

/// Index of the first occurrence of `c` in `s`, counted in characters.
pub fn find_char(s: &str, c: char) -> (r: usize)
    ensures
        r == position(s@, c),
{
    let n = s.unicode_len();
    let mut i: usize = 0;
    while i < n
        invariant
            n == s@.len(),
            i <= n,
            forall|j: int| 0 <= j < i ==> s@[j] != c,
        decreases n - i,
    {
        if s.get_char(i) == c {
            proof {
                lemma_position_is(s@, c, i as int);
            }
            return i;
        }
        i = i + 1;
    }
    proof {
        lemma_position_is(s@, c, n as int);
    }
    n
}

/// Splits `s` at its first `c`: what stands before it, and what stands
/// after it where there is one.
pub fn split_first<'a>(s: &'a str, c: char) -> (r: (&'a str, Option<&'a str>))
    ensures
        r.0@ == before(s@, c),
        match r.1 {
            Some(rest) => has_char(s@, c) && rest@ == after(s@, c),
            None => !has_char(s@, c),
        },
{
    let n = s.unicode_len();
    let p = find_char(s, c);
    proof {
        lemma_position(s@, c);
    }
    let head = s.substring_char(0, p);
    if p < n {
        (head, Some(s.substring_char(p + 1, n)))
    } else {
        (head, None)
    }
}

/// The parts of `s` between the occurrences of `c`, in order. A sequence
/// without `c` is its own single part.
pub open spec fn split_on(s: Seq<char>, c: char) -> Seq<Seq<char>>
    decreases s.len(),
{
    if !has_char(s, c) {
        seq![s]
    } else {
        proof {
            lemma_position(s, c);
        }
        seq![before(s, c)] + split_on(after(s, c), c)
    }
}

/// The views of a list of strings, in order.
pub open spec fn string_views(strings: Seq<String>) -> Seq<Seq<char>> {
    Seq::new(strings.len(), |i: int| strings[i]@)
}

/// Splits `s` at every `c`, in one pass over `s`.
pub fn split_all(s: &str, c: char) -> (r: Vec<String>)
    ensures
        string_views(r@) == split_on(s@, c),
{
    let mut out: Vec<String> = Vec::new();
    let mut current = String::new();
    proof {
        assert(current@ + s@.skip(0) =~= s@);
        assert(string_views(out@) + split_on(s@, c) =~= split_on(s@, c));
    }
    for ch in it: s.chars()
        invariant
            it.seq() == s@,
            !has_char(current@, c),
            string_views(out@) + split_on(current@ + s@.skip(it.index() as int), c) == split_on(
                s@,
                c,
            ),
    {
        let ghost i = it.index() as int;
        let ghost rest = s@.skip(i + 1);
        let ghost done = string_views(out@);
        let ghost part = current@;
        proof {
            assert(s@.skip(i) =~= seq![ch] + rest);
        }
        if ch == c {
            proof {
                assert(part + s@.skip(i) =~= part + seq![c] + rest);
                lemma_split_joined(part, c, rest);
                lemma_position(part + seq![c] + rest, c);
            }
            out.push(current);
            current = String::new();
            proof {
                assert(string_views(out@) =~= done + seq![part]);
                assert(current@ + rest =~= rest);
                assert(done + (seq![part] + split_on(rest, c)) =~= done + seq![part] + split_on(
                    rest,
                    c,
                ));
            }
        } else {
            push_char(&mut current, ch);
            proof {
                assert(current@ + rest =~= part + s@.skip(i));
                assert forall|j: int| 0 <= j < current@.len() implies current@[j] != c by {
                    if j < part.len() {
                        assert(part[j] != c);
                    }
                }
            }
        }
    }
    let ghost done = string_views(out@);
    let ghost part = current@;
    proof {
        assert(part + s@.skip(s@.len() as int) =~= part);
    }
    out.push(current);
    proof {
        assert(string_views(out@) =~= done + seq![part]);
    }
    out
}

// ---------------------------------------------------------------------------
// Surrounding whitespace
// ---------------------------------------------------------------------------

/// Whether the standard library counts `c` as whitespace.
pub uninterp spec fn whitespace(c: char) -> bool;

/// Whether `c` is whitespace.
///
/// Trusted: `char::is_whitespace` of the standard library, which answers by
/// the Unicode property `White_Space` of the character alone.
#[verifier::external_body]
pub(crate) fn is_whitespace(c: char) -> (r: bool)
    ensures
        r == whitespace(c),
{
    c.is_whitespace()
}

/// `s` without the whitespace it begins with.
pub open spec fn trim_start(s: Seq<char>) -> Seq<char>
    decreases s.len(),
{
    if s.len() > 0 && whitespace(s[0]) {
        trim_start(s.skip(1))
    } else {
        s
    }
}

/// `s` without the whitespace it ends with.
pub open spec fn trim_end(s: Seq<char>) -> Seq<char>
    decreases s.len(),
{
    if s.len() > 0 && whitespace(s.last()) {
        trim_end(s.drop_last())
    } else {
        s
    }
}

/// `s` without the whitespace at either end.
pub open spec fn trimmed(s: Seq<char>) -> Seq<char> {
    trim_end(trim_start(s))
}

/// Removes the whitespace at either end of `s`.
pub fn trim<'a>(s: &'a str) -> (r: &'a str)
    ensures
        r@ == trimmed(s@),
{
    let n = s.unicode_len();
    let mut from: usize = 0;
    proof {
        assert(s@.skip(0) =~= s@);
    }
    while from < n && is_whitespace(s.get_char(from))
        invariant
            n == s@.len(),
            from <= n,
            trim_start(s@) == trim_start(s@.skip(from as int)),
        decreases n - from,
    {
        proof {
            assert(s@.skip(from as int).skip(1) =~= s@.skip(from + 1));
        }
        from = from + 1;
    }
    proof {
        assert(trim_start(s@) == s@.skip(from as int));
        assert(s@.subrange(from as int, n as int) =~= s@.skip(from as int));
    }
    let mut to: usize = n;
    while to > from && is_whitespace(s.get_char(to - 1))
        invariant
            n == s@.len(),
            from <= to <= n,
            trimmed(s@) == trim_end(s@.subrange(from as int, to as int)),
        decreases to,
    {
        proof {
            assert(s@.subrange(from as int, to as int).drop_last() =~= s@.subrange(
                from as int,
                to - 1,
            ));
        }
        to = to - 1;
    }
    s.substring_char(from, to)
}

} // verus!
