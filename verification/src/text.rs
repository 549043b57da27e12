//! Character-level building blocks shared by the formatting code: zero-padded
//! digit strings and appending to a `String` one character at a time.
use vstd::prelude::*;

verus! {

/// `String::push` appends its character to the end of the string (std documents
/// it as "Appends the given char to the end of this String").
pub assume_specification[ String::push ](s: &mut String, ch: char)
    ensures
        final(s)@ == old(s)@.push(ch),
;

/// The character for digit `d` (below 16): `0`-`9`, then `a`-`f`, or `A`-`F` when `upper`.
pub open spec fn digit_char(d: nat, upper: bool) -> char {
    if d < 10 {
        (48 + d) as char
    } else if upper {
        (55 + d) as char
    } else {
        (87 + d) as char
    }
}

/// The digits of `n` in base `radix`, most significant first, with leading zeros
/// added until there are at least `width` of them; as `format!("{:0w$x}", n)`
/// writes it for a `width` of one or more.
pub open spec fn padded_digits(n: nat, radix: nat, width: nat, upper: bool) -> Seq<char>
    decreases n, width,
{
    if radix < 2 || (n == 0 && width == 0) {
        Seq::empty()
    } else {
        proof {
            if n > 0 {
                vstd::arithmetic::div_mod::lemma_div_decreases(n as int, radix as int);
            }
        }
        padded_digits(
            n / radix,
            radix,
            if width > 0 { (width - 1) as nat } else { 0 },
            upper,
        ).push(digit_char(n % radix, upper))
    }
}

/// Lower-case hexadecimal of `n`, at least `width` digits.
pub open spec fn hex_text(n: nat, width: nat) -> Seq<char> {
    padded_digits(n, 16, width, false)
}

/// Upper-case hexadecimal of `n`, at least `width` digits.
pub open spec fn hex_text_upper(n: nat, width: nat) -> Seq<char> {
    padded_digits(n, 16, width, true)
}

/// `c` with an ASCII lower-case letter made upper-case, as
/// `char::to_ascii_uppercase` does.
pub open spec fn ascii_upper(c: char) -> char {
    if 97 <= (c as u32) <= 122 {
        ((c as u32) - 32) as char
    } else {
        c
    }
}

/// The upper-case digits of a number are its lower-case digits with each
/// letter upper-cased.
pub proof fn law_upper_digits(n: nat, radix: nat, width: nat)
    requires
        2 <= radix <= 16,
    ensures
        padded_digits(n, radix, width, true) == padded_digits(n, radix, width, false).map_values(
            |c: char| ascii_upper(c),
        ),
    decreases n, width,
{
    let lower = padded_digits(n, radix, width, false);
    let upper = padded_digits(n, radix, width, true);
    if n == 0 && width == 0 {
        assert(upper =~= lower.map_values(|c: char| ascii_upper(c)));
    } else {
        if n > 0 {
            vstd::arithmetic::div_mod::lemma_div_decreases(n as int, radix as int);
        }
        let w2: nat = if width > 0 { (width - 1) as nat } else { 0 };
        law_upper_digits(n / radix, radix, w2);
        let d = n % radix;
        assert(ascii_upper(digit_char(d, false)) == digit_char(d, true));
        assert(upper =~= lower.map_values(|c: char| ascii_upper(c)));
    }
}

/// The character of digit `d`.
pub fn digit(d: u64, upper: bool) -> (c: char)
    requires
        d < 16,
    ensures
        c == digit_char(d as nat, upper),
{
    let b: u8 = d as u8;
    if b < 10 {
        (48u8 + b) as char
    } else if upper {
        (55u8 + b) as char
    } else {
        (87u8 + b) as char
    }
}

/// Appends the digits of `n` in base `radix`, zero-padded to `width` digits.
pub fn push_padded_digits(out: &mut String, n: u64, radix: u64, width: usize, upper: bool)
    requires
        2 <= radix <= 16,
    ensures
        final(out)@ == old(out)@ + padded_digits(n as nat, radix as nat, width as nat, upper),
    decreases n, width,
{
    if n == 0 && width == 0 {
        assert(old(out)@ + Seq::<char>::empty() =~= old(out)@);
        return;
    }
    proof {
        if n > 0 {
            vstd::arithmetic::div_mod::lemma_div_decreases(n as int, radix as int);
        }
    }
    let ghost before = out@;
    let next_width: usize = if width > 0 { width - 1 } else { 0 };
    push_padded_digits(out, n / radix, radix, next_width, upper);
    let d = digit(n % radix, upper);
    out.push(d);
    proof {
        let inner = padded_digits((n / radix) as nat, radix as nat, next_width as nat, upper);
        assert(padded_digits(n as nat, radix as nat, width as nat, upper) == inner.push(
            digit_char((n % radix) as nat, upper),
        ));
        assert(out@ =~= before + inner.push(digit_char((n % radix) as nat, upper)));
    }
}

/// Appends every character of `s`.
pub fn push_str(out: &mut String, s: &str)
    ensures
        final(out)@ == old(out)@ + s@,
{
    out.append(s);
}

/// Whether `a` and `b` hold the same characters.
pub fn same_text(a: &str, b: &str) -> (r: bool)
    ensures
        r == (a@ == b@),
{
    let x = a.to_owned();
    let y = b.to_owned();
    x == y
}

/// A fresh `String` holding the characters of `chars`.
pub fn string_from_chars(chars: &[char]) -> (s: String)
    ensures
        s@ == chars@,
{
    let mut s = String::new();
    let mut i: usize = 0;
    while i < chars.len()
        invariant
            i <= chars@.len(),
            s@ == chars@.take(i as int),
        decreases chars@.len() - i,
    {
        s.push(chars[i]);
        assert(chars@.take(i as int + 1) =~= chars@.take(i as int).push(chars@[i as int]));
        i = i + 1;
    }
    assert(chars@.take(chars@.len() as int) =~= chars@);
    s
}

} // verus!
