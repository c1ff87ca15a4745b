//! # text
//!
//! Small string building blocks shared by the renderers: appending characters,
//! decimal and octal numerals, padding to a width, and pattern replacement.
use vstd::prelude::*;

verus! {

/// Appends one character to `s`.
/// Trusted: calls `String::push`, which the standard library documents as appending
/// the given `char` to the end of the string.
#[verifier::external_body]
pub(crate) fn push_char(s: &mut String, c: char)
    ensures
        final(s)@ == old(s)@.push(c),
{
    s.push(c);
}

/// Appends a string slice to `s`.
pub fn push_str(s: &mut String, t: &str)
    ensures
        final(s)@ == old(s)@ + t@,
{
    s.append(t);
}

/// A string with the characters of `t`.
pub fn string_of(t: &str) -> (r: String)
    ensures
        r@ == t@,
{
    String::from_str(t)
}

/// The character that shows a digit `d` (below 10).
pub open spec fn digit_char(d: nat) -> char {
    ((d + 48) as u8) as char
}

/// The decimal numeral of `n`, without leading zeros.
pub open spec fn dec_digits(n: nat) -> Seq<char>
    decreases n,
{
    if n < 10 {
        seq![digit_char(n)]
    } else {
        dec_digits(n / 10).push(digit_char(n % 10))
    }
}

/// The octal numeral of `n`, without leading zeros.
pub open spec fn oct_digits(n: nat) -> Seq<char>
    decreases n,
{
    if n < 8 {
        seq![digit_char(n)]
    } else {
        oct_digits(n / 8).push(digit_char(n % 8))
    }
}

/// The decimal numeral of a signed integer, with a leading `-` when negative.
pub open spec fn signed_dec_digits(i: int) -> Seq<char> {
    if i < 0 {
        seq!['-'] + dec_digits((-i) as nat)
    } else {
        dec_digits(i as nat)
    }
}

/// `n` copies of character `c`.
pub open spec fn repeat_char(c: char, n: nat) -> Seq<char>
    decreases n,
{
    if n == 0 {
        Seq::empty()
    } else {
        repeat_char(c, (n - 1) as nat).push(c)
    }
}

/// `s` followed by spaces up to `width` characters (as the `{:<width$}` format does).
pub open spec fn pad_right(s: Seq<char>, width: nat) -> Seq<char> {
    if s.len() >= width {
        s
    } else {
        s + repeat_char(' ', (width - s.len()) as nat)
    }
}

/// Spaces up to `width` characters followed by `s` (as the `{:>width$}` format does).
pub open spec fn pad_left(s: Seq<char>, width: nat) -> Seq<char> {
    if s.len() >= width {
        s
    } else {
        repeat_char(' ', (width - s.len()) as nat) + s
    }
}

/// `s` preceded by `0` characters up to `width` characters.
pub open spec fn zero_pad(s: Seq<char>, width: nat) -> Seq<char> {
    if s.len() >= width {
        s
    } else {
        repeat_char('0', (width - s.len()) as nat) + s
    }
}

/// `s` with every occurrence of `pat` replaced by `rep`, scanning from the left and not
/// reusing replaced text (as `str::replace` does).
pub open spec fn replace_all(s: Seq<char>, pat: Seq<char>, rep: Seq<char>) -> Seq<char>
    decreases s.len(),
{
    if s.len() == 0 {
        s
    } else if pat.len() > 0 && s.len() >= pat.len() && s.take(pat.len() as int) == pat {
        rep + replace_all(s.skip(pat.len() as int), pat, rep)
    } else {
        seq![s[0]] + replace_all(s.drop_first(), pat, rep)
    }
}

fn matches_at(s: &str, n: usize, i: usize, pat: &str, m: usize) -> (r: bool)
    requires
        n == s@.len(),
        m == pat@.len(),
        i <= n,
    ensures
        r == (n - i >= m && s@.skip(i as int).take(m as int) == pat@),
{
    if n - i < m {
        return false;
    }
    let mut j: usize = 0;
    while j < m
        invariant
            n == s@.len(),
            m == pat@.len(),
            i + m <= n,
            j <= m,
            forall|k: int| 0 <= k < j ==> s@[i + k] == pat@[k],
        decreases m - j,
    {
        if s.get_char(i + j) != pat.get_char(j) {
            proof {
                assert(s@.skip(i as int).take(m as int)[j as int] != pat@[j as int]);
            }
            return false;
        }
        j = j + 1;
    }
    proof {
        assert(s@.skip(i as int).take(m as int) =~= pat@);
    }
    true
}

/// `s` with every occurrence of `pat` replaced by `rep`.
pub fn replace_text(s: &str, pat: &str, rep: &str) -> (r: String)
    requires
        pat@.len() > 0,
    ensures
        r@ == replace_all(s@, pat@, rep@),
{
    let n = s.unicode_len();
    let m = pat.unicode_len();
    let mut out = String::new();
    let mut i: usize = 0;
    proof {
        assert(s@.skip(0) =~= s@);
    }
    while i < n
        invariant
            n == s@.len(),
            m == pat@.len(),
            m > 0,
            i <= n,
            replace_all(s@, pat@, rep@) == out@ + replace_all(s@.skip(i as int), pat@, rep@),
        decreases n - i,
    {
        let ghost rest = s@.skip(i as int);
        if matches_at(s, n, i, pat, m) {
            let ghost before = out@;
            push_str(&mut out, rep);
            proof {
                assert(rest.skip(m as int) =~= s@.skip(i + m));
                assert(rest.take(m as int) == pat@);
                assert(replace_all(rest, pat@, rep@) == rep@ + replace_all(rest.skip(m as int), pat@, rep@));
                assert(before + (rep@ + replace_all(s@.skip(i + m), pat@, rep@)) =~= out@ + replace_all(
                    s@.skip(i + m),
                    pat@,
                    rep@,
                ));
            }
            i = i + m;
        } else {
            let c = s.get_char(i);
            let ghost before = out@;
            push_char(&mut out, c);
            proof {
                assert(rest.drop_first() =~= s@.skip(i + 1));
                assert(rest[0] == c);
                assert(replace_all(rest, pat@, rep@) == seq![c] + replace_all(rest.drop_first(), pat@, rep@));
                assert(before + (seq![c] + replace_all(s@.skip(i + 1), pat@, rep@)) =~= out@ + replace_all(
                    s@.skip(i + 1),
                    pat@,
                    rep@,
                ));
            }
            i = i + 1;
        }
    }
    proof {
        assert(s@.skip(n as int).len() == 0);
        assert(out@ + replace_all(s@.skip(n as int), pat@, rep@) =~= out@);
    }
    out
}

pub fn digit(d: u64) -> (c: char)
    requires
        d < 10,
    ensures
        c == digit_char(d as nat),
{
    let b: u8 = (d as u8) + 48;
    b as char
}

/// The decimal numeral of `n` (what `n.to_string()` gives).
pub fn decimal(n: u64) -> (r: String)
    ensures
        r@ == dec_digits(n as nat),
    decreases n,
{
    if n < 10 {
        let mut s = String::new();
        push_char(&mut s, digit(n));
        s
    } else {
        let mut s = decimal(n / 10);
        push_char(&mut s, digit(n % 10));
        s
    }
}

/// The decimal numeral of a 128-bit `n`.
pub fn decimal_wide(n: u128) -> (r: String)
    ensures
        r@ == dec_digits(n as nat),
    decreases n,
{
    if n < 10 {
        let mut s = String::new();
        push_char(&mut s, digit(n as u64));
        s
    } else {
        let mut s = decimal_wide(n / 10);
        push_char(&mut s, digit((n % 10) as u64));
        s
    }
}

/// The octal numeral of `n`.
pub fn octal(n: u64) -> (r: String)
    ensures
        r@ == oct_digits(n as nat),
    decreases n,
{
    if n < 8 {
        let mut s = String::new();
        push_char(&mut s, digit(n));
        s
    } else {
        let mut s = octal(n / 8);
        push_char(&mut s, digit(n % 8));
        s
    }
}

/// The decimal numeral of a signed 32-bit integer (what `i.to_string()` gives).
pub fn signed_decimal(i: i32) -> (r: String)
    ensures
        r@ == signed_dec_digits(i as int),
{
    if i < 0 {
        let m: i64 = -(i as i64);
        let mut s = String::new();
        push_char(&mut s, '-');
        let d = decimal(m as u64);
        push_str(&mut s, d.as_str());
        proof {
            assert(s@ =~= seq!['-'] + dec_digits((-(i as int)) as nat));
        }
        s
    } else {
        decimal(i as u64)
    }
}

/// Appends `n` copies of `c` to `s`.
pub fn push_repeat(s: &mut String, c: char, n: usize)
    ensures
        final(s)@ == old(s)@ + repeat_char(c, n as nat),
{
    let mut i: usize = 0;
    while i < n
        invariant
            i <= n,
            s@ == old(s)@ + repeat_char(c, i as nat),
        decreases n - i,
    {
        push_char(s, c);
        i = i + 1;
        proof {
            assert(repeat_char(c, i as nat) == repeat_char(c, (i - 1) as nat).push(c));
            assert(s@ =~= old(s)@ + repeat_char(c, i as nat));
        }
    }
}

/// Number of characters of `s`.
pub fn char_count(s: &str) -> (n: usize)
    ensures
        n as nat == s@.len(),
{
    s.unicode_len()
}

/// Appends `t` to `s`, then spaces so that `t` fills at least `width` characters.
pub fn push_padded_right(s: &mut String, t: &str, width: usize)
    ensures
        final(s)@ == old(s)@ + pad_right(t@, width as nat),
{
    push_str(s, t);
    let n = char_count(t);
    if n < width {
        push_repeat(s, ' ', width - n);
        proof {
            assert(final(s)@ =~= old(s)@ + pad_right(t@, width as nat));
        }
    }
}

/// Appends spaces and then `t`, so that `t` ends a field of at least `width` characters.
pub fn push_padded_left(s: &mut String, t: &str, width: usize)
    ensures
        final(s)@ == old(s)@ + pad_left(t@, width as nat),
{
    let n = char_count(t);
    if n < width {
        push_repeat(s, ' ', width - n);
    }
    push_str(s, t);
    proof {
        assert(final(s)@ =~= old(s)@ + pad_left(t@, width as nat));
    }
}

/// `n` copies of a character are `n` characters long.
pub proof fn lemma_repeat_char_len(c: char, n: nat)
    ensures
        repeat_char(c, n).len() == n,
    decreases n,
{
    if n > 0 {
        lemma_repeat_char_len(c, (n - 1) as nat);
    }
}

/// Padding a text that fits gives exactly the width, on either side.
pub proof fn lemma_pad_len(s: Seq<char>, width: nat)
    requires
        s.len() <= width,
    ensures
        pad_right(s, width).len() == width,
        pad_left(s, width).len() == width,
{
    lemma_repeat_char_len(' ', (width - s.len()) as nat);
}

} // verus!
