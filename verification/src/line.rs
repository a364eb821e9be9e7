//! One line of the dump: the offset column and the 16-bit words of a window.

use vstd::prelude::*;
use vstd::string::*;
use crate::hex::{get_hex_value_for_four_byte, get_hex_value_for_two_byte, spec_hex};

verus! {

/// The 16-bit word that two neighbouring bytes form. Under little-endian
/// order the first byte is the low half, under big-endian order the high half.
pub open spec fn spec_word(first: u8, second: u8, is_little_endian: bool) -> u16 {
    if is_little_endian {
        (first as int + 256 * second as int) as u16
    } else {
        (256 * first as int + second as int) as u16
    }
}

/// The byte at `index`, or zero past the end.
pub open spec fn spec_byte_or_zero(bytes: Seq<u8>, index: int) -> u8 {
    if 0 <= index < bytes.len() {
        bytes[index]
    } else {
        0
    }
}

/// The words of a window: its bytes taken pairwise, an unpaired last byte
/// as if a zero byte followed it.
pub open spec fn spec_words(bytes: Seq<u8>, is_little_endian: bool) -> Seq<u16> {
    Seq::new(
        ((bytes.len() + 1) / 2) as nat,
        |k: int| spec_word(bytes[2 * k], spec_byte_or_zero(bytes, 2 * k + 1), is_little_endian),
    )
}

/// Each word as four hexadecimal digits behind one space.
pub open spec fn spec_words_text(words: Seq<u16>) -> Seq<char>
    decreases words.len(),
{
    if words.len() == 0 {
        Seq::empty()
    } else {
        spec_words_text(words.drop_last()) + seq![' '] + spec_hex(words.last() as nat, 4)
    }
}

/// A full line: the offset as eight hexadecimal digits, then the words.
pub open spec fn spec_byte_line(bytes: Seq<u8>, offset: nat, is_little_endian: bool) -> Seq<char> {
    spec_hex(offset, 8) + spec_words_text(spec_words(bytes, is_little_endian))
}

/// The text of the words is five characters for each word.
pub proof fn lemma_words_text_len(words: Seq<u16>)
    ensures
        spec_words_text(words).len() == 5 * words.len(),
    decreases words.len(),
{
    if words.len() > 0 {
        lemma_words_text_len(words.drop_last());
        crate::hex::lemma_hex_len(words.last() as nat, 4);
    }
}

/// A line has eight characters for the offset and five for each word.
pub proof fn lemma_byte_line_len(bytes: Seq<u8>, offset: nat, is_little_endian: bool)
    ensures
        spec_byte_line(bytes, offset, is_little_endian).len() == 8 + 5 * ((bytes.len() + 1) / 2),
{
    crate::hex::lemma_hex_len(offset, 8);
    lemma_words_text_len(spec_words(bytes, is_little_endian));
}

/// `u32::from_ne_bytes` reads four bytes as an integer in the byte order of
/// the machine that runs it, so the value is the little-endian reading of
/// the bytes or their big-endian reading.
#[verifier::external_body]
fn native_u32(b0: u8, b1: u8, b2: u8, b3: u8) -> (value: u32)
    ensures
        value == b0 as int + 256 * b1 as int + 65536 * b2 as int + 16777216 * b3 as int || value
            == b3 as int + 256 * b2 as int + 65536 * b1 as int + 16777216 * b0 as int,
{
    u32::from_ne_bytes([b0, b1, b2, b3])
}

/// Whether a machine that reads the bytes `1, 0, 0, 0` as `probe` keeps the
/// low-order byte of an integer first.
pub fn is_little_endian_probe(probe: u32) -> (is_little_endian: bool)
    ensures
        is_little_endian == (probe == 1),
{
    probe == 1
}

/// Probes the byte order of the machine at run time.
pub fn check_is_little_endian() -> (is_little_endian: bool) {
    let probe: u32 = native_u32(1, 0, 0, 0);
    is_little_endian_probe(probe)
}

/// Whether two byte sequences have the same length and the same bytes.
pub fn is_byte_vec_equal(left_bytes: &Vec<u8>, right_bytes: &Vec<u8>) -> (equal: bool)
    ensures
        equal == (left_bytes@ == right_bytes@),
{
    if left_bytes.len() != right_bytes.len() {
        return false;
    }
    let mut index: usize = 0;
    while index < left_bytes.len()
        invariant
            left_bytes@.len() == right_bytes@.len(),
            index <= left_bytes@.len(),
            forall|j: int| 0 <= j < index ==> left_bytes@[j] == right_bytes@[j],
        decreases left_bytes@.len() - index,
    {
        if left_bytes[index] != right_bytes[index] {
            return false;
        }
        index = index + 1;
    }
    assert(left_bytes@ =~= right_bytes@);
    true
}

/// Packs two bytes into a word in the given byte order.
pub fn pack_word(first: u8, second: u8, is_little_endian: bool) -> (word: u16)
    ensures
        word == spec_word(first, second, is_little_endian),
{
    let low: u16 = if is_little_endian {
        first as u16
    } else {
        second as u16
    };
    let high: u16 = if is_little_endian {
        second as u16
    } else {
        first as u16
    };
    assert((low | (high << 8)) == low + 256 * high) by (bit_vector)
        requires
            low < 256,
            high < 256,
    ;
    low | (high << 8)
}

/// Renders a window as a line of the dump: the offset, then each pair of
/// bytes as a word in the given byte order.
pub fn get_byte_line(bytes: &Vec<u8>, offset: u32, is_little_endian: bool) -> (line: String)
    ensures
        line@ == spec_byte_line(bytes@, offset as nat, is_little_endian),
{
    let mut line: String = get_hex_value_for_four_byte(offset);
    let length: usize = bytes.len();
    let word_count: usize = length / 2 + length % 2;
    let ghost words = spec_words(bytes@, is_little_endian);
    let mut done: usize = 0;
    assert(words.take(0) =~= Seq::<u16>::empty());
    while done < word_count
        invariant
            length == bytes@.len(),
            word_count == (length + 1) / 2,
            words == spec_words(bytes@, is_little_endian),
            done <= word_count,
            line@ == spec_hex(offset as nat, 8) + spec_words_text(words.take(done as int)),
        decreases word_count - done,
    {
        let first: u8 = bytes[2 * done];
        let second: u8 = if 2 * done + 1 < length {
            bytes[2 * done + 1]
        } else {
            0
        };
        let word: u16 = pack_word(first, second, is_little_endian);
        let text: String = get_hex_value_for_two_byte(word);
        proof {
            reveal_strlit(" ");
            let upto = words.take(done + 1);
            assert(upto.drop_last() =~= words.take(done as int));
            assert(upto.last() == word);
            assert(" "@ =~= seq![' ']);
        }
        line.append(" ");
        line.append(text.as_str());
        done = done + 1;
    }
    assert(words.take(word_count as int) =~= words);
    line
}

} // verus!
