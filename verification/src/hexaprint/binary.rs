//! The binary mode: each character of a line as eight binary digits.
use vstd::prelude::*;
use crate::text::{padded_digits, push_padded_digits, digit_char};

verus! {

/// The low byte of `c` as eight binary digits.
pub open spec fn char_bits(c: char) -> Seq<char> {
    padded_digits((c as u32 as nat) % 256, 2, 8, false)
}

/// The bit groups of the characters of `s`, separated by single spaces.
pub open spec fn binary_text(s: Seq<char>) -> Seq<char>
    decreases s.len(),
{
    if s.len() == 0 {
        Seq::empty()
    } else if s.len() == 1 {
        char_bits(s[0])
    } else {
        binary_text(s.drop_last()) + seq![' '] + char_bits(s.last())
    }
}

/// The number that the binary digits `s` spell, most significant first
/// (`1` counts one, any other character zero).
pub open spec fn binary_value(s: Seq<char>) -> nat
    decreases s.len(),
{
    if s.len() == 0 {
        0
    } else {
        2 * binary_value(s.drop_last()) + if s.last() == '1' {
            1nat
        } else {
            0nat
        }
    }
}

/// 2 to the power `k`.
pub open spec fn two_to(k: nat) -> nat
    decreases k,
{
    if k == 0 {
        1
    } else {
        2 * two_to((k - 1) as nat)
    }
}

proof fn lemma_binary_digits(n: nat, width: nat)
    requires
        n < two_to(width),
    ensures
        padded_digits(n, 2, width, false).len() == width,
        binary_value(padded_digits(n, 2, width, false)) == n,
        forall|i: int|
            0 <= i < width ==> #[trigger] padded_digits(n, 2, width, false)[i] == '0'
                || padded_digits(n, 2, width, false)[i] == '1',
    decreases width,
{
    if width > 0 {
        lemma_binary_digits(n / 2, (width - 1) as nat);
        let s = padded_digits(n, 2, width, false);
        let inner = padded_digits(n / 2, 2, (width - 1) as nat, false);
        assert(s == inner.push(digit_char(n % 2, false)));
        assert(s.drop_last() =~= inner);
        assert forall|i: int| 0 <= i < width implies #[trigger] s[i] == '0' || s[i] == '1' by {
            if i < width - 1 {
                assert(s[i] == inner[i]);
            }
        }
    } else {
        assert(n == 0);
    }
}

/// Each character's group is eight binary digits that spell the character's
/// low byte: a character from U+0080 to U+00FF gets a group starting with `1`.
pub proof fn law_char_bits_spell_low_byte(c: char)
    ensures
        char_bits(c).len() == 8,
        binary_value(char_bits(c)) == (c as u32 as nat) % 256,
        forall|i: int| 0 <= i < 8 ==> #[trigger] char_bits(c)[i] == '0' || char_bits(c)[i] == '1',
{
    reveal_with_fuel(two_to, 9);
    assert(two_to(8) == 256);
    lemma_binary_digits((c as u32 as nat) % 256, 8);
}

/// `text` in binary: for each character, its low byte as eight binary digits,
/// the groups separated by spaces.
pub fn text_to_binary(text: &str) -> (s: String)
    ensures
        s@ == binary_text(text@),
{
    broadcast use vstd::string::group_string_axioms;

    let total = text.unicode_len();
    let ghost tv = text@;
    let mut out = String::new();
    let mut i: usize = 0;
    for c in it: text.chars()
        invariant
            it.seq() == tv,
            total == tv.len(),
            i == it.index(),
            out@ == binary_text(tv.take(i as int)),
    {
        assert(i < tv.len());
        if i > 0 {
            out.push(' ');
        }
        let code: u32 = c as u32;
        let byte: u64 = (code % 256) as u64;
        push_padded_digits(&mut out, byte, 2, 8, false);
        assert(tv.take(i + 1).drop_last() =~= tv.take(i as int));
        assert(tv.take(i + 1).last() == c);
        assert(out@ =~= binary_text(tv.take(i + 1)));
        i = i + 1;
    }
    assert(tv.take(tv.len() as int) =~= tv);
    out
}

} // verus!
