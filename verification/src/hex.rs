//! Fixed-width lowercase hexadecimal text, most significant digit first.

use vstd::prelude::*;

verus! {

/// The lowercase hexadecimal digit that stands for `nibble` (taken modulo 16).
pub open spec fn spec_hex_digit(nibble: nat) -> char {
    let n = nibble % 16;
    if n == 0 {
        '0'
    } else if n == 1 {
        '1'
    } else if n == 2 {
        '2'
    } else if n == 3 {
        '3'
    } else if n == 4 {
        '4'
    } else if n == 5 {
        '5'
    } else if n == 6 {
        '6'
    } else if n == 7 {
        '7'
    } else if n == 8 {
        '8'
    } else if n == 9 {
        '9'
    } else if n == 10 {
        'a'
    } else if n == 11 {
        'b'
    } else if n == 12 {
        'c'
    } else if n == 13 {
        'd'
    } else if n == 14 {
        'e'
    } else {
        'f'
    }
}

/// The lowest `digits` hexadecimal digits of `value`, most significant first.
pub open spec fn spec_hex(value: nat, digits: nat) -> Seq<char>
    decreases digits,
{
    if digits == 0 {
        Seq::empty()
    } else {
        spec_hex(value / 16, (digits - 1) as nat).push(spec_hex_digit(value % 16))
    }
}

/// `16` raised to `digits`.
pub open spec fn pow16(digits: nat) -> nat
    decreases digits,
{
    if digits == 0 {
        1
    } else {
        16 * pow16((digits - 1) as nat)
    }
}

/// The number that a sequence of lowercase hexadecimal digits spells.
pub open spec fn spec_hex_value(text: Seq<char>) -> nat
    decreases text.len(),
{
    if text.len() == 0 {
        0
    } else {
        16 * spec_hex_value(text.drop_last()) + spec_digit_value(text.last())
    }
}

/// The value of one lowercase hexadecimal digit; 16 for any other character.
pub open spec fn spec_digit_value(c: char) -> nat {
    if '0' <= c && c <= '9' {
        (c as nat - '0' as nat) as nat
    } else if 'a' <= c && c <= 'f' {
        (c as nat - 'a' as nat + 10) as nat
    } else {
        16
    }
}

/// An encoding has exactly as many characters as digits were asked for.
pub proof fn lemma_hex_len(value: nat, digits: nat)
    ensures
        spec_hex(value, digits).len() == digits,
    decreases digits,
{
    if digits > 0 {
        lemma_hex_len(value / 16, (digits - 1) as nat);
    }
}

/// Every character of an encoding is a lowercase hexadecimal digit.
pub proof fn lemma_hex_chars(value: nat, digits: nat, i: int)
    requires
        0 <= i < digits,
    ensures
        spec_hex(value, digits).len() == digits,
        spec_digit_value(spec_hex(value, digits)[i]) < 16,
    decreases digits,
{
    lemma_hex_len(value, digits);
    lemma_hex_len(value / 16, (digits - 1) as nat);
    if i < digits - 1 {
        lemma_hex_chars(value / 16, (digits - 1) as nat, i);
    }
}

/// Reading an encoding back gives the value again, as far as the digits reach.
pub proof fn lemma_hex_round_trip(value: nat, digits: nat)
    ensures
        spec_hex_value(spec_hex(value, digits)) == value % pow16(digits),
    decreases digits,
{
    if digits > 0 {
        let rest = spec_hex(value / 16, (digits - 1) as nat);
        let text = spec_hex(value, digits);
        lemma_hex_round_trip(value / 16, (digits - 1) as nat);
        assert(text.drop_last() =~= rest);
        assert(spec_digit_value(text.last()) == value % 16);
        let p = pow16((digits - 1) as nat);
        lemma_pow16_positive((digits - 1) as nat);
        vstd::arithmetic::div_mod::lemma_breakdown(value as int, 16, p as int);
    }
}

/// A power of sixteen is never zero.
pub proof fn lemma_pow16_positive(digits: nat)
    ensures
        pow16(digits) > 0,
    decreases digits,
{
    if digits > 0 {
        lemma_pow16_positive((digits - 1) as nat);
    }
}

/// The lowercase hexadecimal digit of a value below sixteen.
pub fn hex_digit(nibble: u8) -> (c: char)
    requires
        nibble < 16,
    ensures
        c == spec_hex_digit(nibble as nat),
{
    match nibble {
        0 => '0',
        1 => '1',
        2 => '2',
        3 => '3',
        4 => '4',
        5 => '5',
        6 => '6',
        7 => '7',
        8 => '8',
        9 => '9',
        10 => 'a',
        11 => 'b',
        12 => 'c',
        13 => 'd',
        14 => 'e',
        _ => 'f',
    }
}

/// `String::push` appends the character to the end of the string and leaves
/// what was there before unchanged.
pub assume_specification[ String::push ](text: &mut String, c: char)
    ensures
        final(text)@ == old(text)@.push(c),
;

/// Dividing by sixteen once more is dividing by the next power of sixteen.
proof fn lemma_pow16_div(value: nat, digits: nat)
    ensures
        pow16(digits) > 0,
        (value / pow16(digits)) / 16 == value / pow16(digits + 1),
{
    lemma_pow16_positive(digits);
    let p = pow16(digits);
    assert(pow16(digits + 1) == 16 * p);
    vstd::arithmetic::div_mod::lemma_div_denominator(value as int, p as int, 16);
    assert(p * 16 == 16 * p);
}

/// Renders an unsigned integer that is `byte_width` bytes wide as exactly
/// `2 * byte_width` lowercase hexadecimal digits, most significant first.
/// The digits spell the value itself, whatever the host's byte order.
pub fn get_hex_value(value: u64, byte_width: usize) -> (text: String)
    requires
        byte_width <= usize::MAX / 2,
    ensures
        text@ == spec_hex(value as nat, 2 * byte_width as nat),
{
    let digits: usize = 2 * byte_width;
    let mut nibbles: Vec<u8> = Vec::new();
    let mut rest: u64 = value;
    let mut filled: usize = 0;
    assert(pow16(0) == 1);
    while filled < digits
        invariant
            filled <= digits,
            nibbles@.len() == filled,
            rest as nat == value as nat / pow16(filled as nat),
            forall|j: int|
                0 <= j < filled ==> #[trigger] nibbles@[j] as nat == (value as nat / pow16(
                    j as nat,
                )) % 16,
        decreases digits - filled,
    {
        proof {
            lemma_pow16_div(value as nat, filled as nat);
        }
        nibbles.push((rest % 16) as u8);
        rest = rest / 16;
        filled = filled + 1;
    }
    let mut text = String::new();
    let mut left: usize = digits;
    while left > 0
        invariant
            left <= digits,
            nibbles@.len() == digits,
            forall|j: int|
                0 <= j < digits ==> #[trigger] nibbles@[j] as nat == (value as nat / pow16(
                    j as nat,
                )) % 16,
            text@ == spec_hex(value as nat / pow16(left as nat), (digits - left) as nat),
        decreases left,
    {
        proof {
            lemma_pow16_div(value as nat, (left - 1) as nat);
        }
        let nibble: u8 = nibbles[left - 1];
        text.push(hex_digit(nibble));
        left = left - 1;
    }
    text
}

/// Renders a 16-bit word as four lowercase hexadecimal digits.
pub fn get_hex_value_for_two_byte(two_byte: u16) -> (text: String)
    ensures
        text@ == spec_hex(two_byte as nat, 4),
{
    get_hex_value(two_byte as u64, 2)
}

/// Renders a 32-bit value as eight lowercase hexadecimal digits.
pub fn get_hex_value_for_four_byte(four_byte: u32) -> (text: String)
    ensures
        text@ == spec_hex(four_byte as nat, 8),
{
    get_hex_value(four_byte as u64, 4)
}

} // verus!
