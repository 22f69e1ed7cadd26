//! Decimal rendering of integers, as bytes and as text.

use vstd::prelude::*;

verus! {

/// The decimal digits of `n`, most significant first, as ASCII bytes
/// (no sign, no leading zeros; `0` is `"0"`).
pub open spec fn decimal(n: nat) -> Seq<u8>
    decreases n,
{
    if n < 10 {
        seq![(48 + n) as u8]
    } else {
        decimal(n / 10).push((48 + n % 10) as u8)
    }
}

/// The ASCII bytes `bytes` read as characters.
pub open spec fn ascii_text(bytes: Seq<u8>) -> Seq<char> {
    bytes.map_values(|b: u8| b as char)
}

/// The decimal digits of `n` as text.
pub open spec fn decimal_text(n: nat) -> Seq<char> {
    ascii_text(decimal(n))
}

/// Every byte of a decimal rendering is an ASCII digit.
pub proof fn lemma_decimal_is_digits(n: nat)
    ensures
        decimal(n).len() >= 1,
        forall|i: int| 0 <= i < decimal(n).len() ==> 0x30 <= #[trigger] decimal(n)[i] <= 0x39,
    decreases n,
{
    if n >= 10 {
        lemma_decimal_is_digits(n / 10);
    }
}

/// The number that a string of ASCII decimal digits denotes, most
/// significant digit first.
pub open spec fn digits_value(digits: Seq<u8>) -> int
    decreases digits.len(),
{
    if digits.len() == 0 {
        0
    } else {
        digits_value(digits.drop_last()) * 10 + (digits.last() - 0x30)
    }
}

/// A decimal rendering reads back as the number it renders, and starts with
/// a zero only when that number is zero.
pub proof fn lemma_decimal_reads_back(n: nat)
    ensures
        digits_value(decimal(n)) == n,
        decimal(n)[0] == 0x30u8 <==> n == 0,
    decreases n,
{
    let d = decimal(n);
    if n >= 10 {
        lemma_decimal_reads_back(n / 10);
        lemma_decimal_is_digits(n / 10);
        assert(d.drop_last() =~= decimal(n / 10));
        assert(d[0] == decimal(n / 10)[0]);
        assert(d.last() == (48 + n % 10) as u8);
        assert(d.last() - 0x30 == n % 10);
        assert(digits_value(d) == digits_value(decimal(n / 10)) * 10 + (d.last() - 0x30));
        assert((n / 10) * 10 + n % 10 == n);
        assert(digits_value(d) == n);
    } else {
        assert(d.drop_last() =~= Seq::<u8>::empty());
        assert(d.last() - 0x30 == n);
        assert(digits_value(d) == digits_value(d.drop_last()) * 10 + (d.last() - 0x30));
        assert(digits_value(d) == n);
    }
}

/// How many times `ch` occurs in `s`.
pub open spec fn count_char(s: Seq<char>, ch: char) -> nat
    decreases s.len(),
{
    if s.len() == 0 {
        0
    } else {
        count_char(s.drop_last(), ch) + if s.last() == ch {
            1nat
        } else {
            0nat
        }
    }
}

/// Occurrences in a concatenation add up.
pub proof fn lemma_count_char_concat(a: Seq<char>, b: Seq<char>, ch: char)
    ensures
        count_char(a + b, ch) == count_char(a, ch) + count_char(b, ch),
    decreases b.len(),
{
    if b.len() == 0 {
        assert(a + b =~= a);
    } else {
        lemma_count_char_concat(a, b.drop_last(), ch);
        assert((a + b).drop_last() =~= a + b.drop_last());
        assert((a + b).last() == b.last());
    }
}

/// A decimal rendering holds no character other than the digits `0`-`9`,
/// so in particular no `=`, `,`, ` ` or `)`.
pub proof fn lemma_decimal_text_is_digits(n: nat)
    ensures
        decimal_text(n).len() >= 1,
        forall|i: int| 0 <= i < decimal_text(n).len() ==> '0' <= #[trigger] decimal_text(n)[i] <= '9',
        count_char(decimal_text(n), '=') == 0,
{
    lemma_decimal_is_digits(n);
    let bytes = decimal(n);
    let text = decimal_text(n);
    assert forall|i: int| 0 <= i < text.len() implies '0' <= #[trigger] text[i] <= '9' by {
        assert(text[i] == bytes[i] as char);
        assert(0x30 <= bytes[i] <= 0x39);
    }
    lemma_count_char_absent(text, '=');
}

/// A character that does not occur is counted zero times.
pub proof fn lemma_count_char_absent(text: Seq<char>, ch: char)
    requires
        forall|i: int| 0 <= i < text.len() ==> #[trigger] text[i] != ch,
    ensures
        count_char(text, ch) == 0,
    decreases text.len(),
{
    if text.len() > 0 {
        assert forall|i: int| 0 <= i < text.drop_last().len() implies #[trigger] text.drop_last()[i] != ch by {
            assert(text.drop_last()[i] == text[i]);
        }
        lemma_count_char_absent(text.drop_last(), ch);
        assert(text[text.len() - 1] != ch);
    }
}

/// Appends `c` to `s` (`String::push`).
#[verifier::external_body]
fn push_char(s: &mut String, c: char)
    ensures
        final(s)@ == old(s)@.push(c),
{
    s.push(c);
}

/// Appends the decimal digits of `n` to the text `s`.
pub fn push_decimal_text(s: &mut String, n: u32)
    ensures
        final(s)@ == old(s)@ + decimal_text(n as nat),
    decreases n,
{
    if n < 10 {
        let d: u8 = (48 + n) as u8;
        push_char(s, d as char);
        assert(decimal(n as nat) =~= seq![d]);
        assert(decimal_text(n as nat) =~= seq![d as char]);
    } else {
        push_decimal_text(s, n / 10);
        let d: u8 = (48 + n % 10) as u8;
        push_char(s, d as char);
        assert(decimal_text(n as nat) =~= decimal_text((n / 10) as nat).push(d as char));
    }
}

} // verus!
