//! Colour words: three channel intensities packed into the upper three
//! bytes of a 32-bit word, the lowest byte being padding.

use vstd::prelude::*;

verus! {

/// Intensity of a lit channel.
pub const ON: u8 = 0x05;

/// Intensity of a dark channel.
pub const OFF: u8 = 0x00;

/// The first channel alone.
pub const RED: u32 = 0x0500_0000;

/// The second channel alone.
pub const GREEN: u32 = 0x0005_0000;

/// The third channel alone.
pub const BLUE: u32 = 0x0000_0500;

/// All three channels at a third of the lit intensity, rounded down.
pub const WHITE: u32 = 0x0101_0100;

/// The word that carries the three channels, most significant first.
pub open spec fn packed(first: u8, second: u8, third: u8) -> u32 {
    ((first as u32) << 24) | ((second as u32) << 16) | ((third as u32) << 8)
}

/// The three channels that a word carries, most significant first.
pub open spec fn channels_of(word: u32) -> (u8, u8, u8) {
    ((word >> 24) as u8, ((word >> 16) & 0xff) as u8, ((word >> 8) & 0xff) as u8)
}

/// Packs three channel intensities into a colour word. As a number the
/// word is the first channel times 2^24, the second times 2^16 and the
/// third times 2^8.
pub fn pack(first: u8, second: u8, third: u8) -> (word: u32)
    ensures
        word == packed(first, second, third),
        word == first * 0x100_0000 + second * 0x1_0000 + third * 0x100,
        channels_of(word) == (first, second, third),
{
    let word: u32 = ((first as u32) << 24) | ((second as u32) << 16) | ((third as u32) << 8);
    proof {
        lemma_pack_value(first, second, third);
        lemma_unpack_pack(first, second, third);
    }
    word
}

/// The three channels of a colour word; the padding byte is dropped.
pub fn unpack(word: u32) -> (r: (u8, u8, u8))
    ensures
        r == channels_of(word),
        packed(r.0, r.1, r.2) == word & 0xffff_ff00,
{
    let first: u8 = (word >> 24) as u8;
    let second: u8 = ((word >> 16) & 0xff) as u8;
    let third: u8 = ((word >> 8) & 0xff) as u8;
    proof {
        lemma_pack_unpack(word);
    }
    (first, second, third)
}

/// The four colours of the palette in the order in which they are shown
/// after one another when listed: red, green, blue, white.
pub fn palette() -> (r: Vec<u32>)
    ensures
        r@ == seq![
            packed(ON, OFF, OFF),
            packed(OFF, ON, OFF),
            packed(OFF, OFF, ON),
            packed(ON / 3, ON / 3, ON / 3),
        ],
        r@ == seq![RED, GREEN, BLUE, WHITE],
{
    let mut r: Vec<u32> = Vec::new();
    r.push(pack(ON, OFF, OFF));
    r.push(pack(OFF, ON, OFF));
    r.push(pack(OFF, OFF, ON));
    r.push(pack(ON / 3, ON / 3, ON / 3));
    proof {
        lemma_palette_words();
        assert(r@ =~= seq![RED, GREEN, BLUE, WHITE]);
    }
    r
}

/// A packed word read as a number.
pub proof fn lemma_pack_value(first: u8, second: u8, third: u8)
    by (bit_vector)
    ensures
        ((first as u32) << 24) | ((second as u32) << 16) | ((third as u32) << 8) == (first as u32)
            * 0x100_0000 + (second as u32) * 0x1_0000 + (third as u32) * 0x100,
{
}

/// Unpacking a packed word gives the channels back.
pub proof fn lemma_unpack_pack(first: u8, second: u8, third: u8)
    ensures
        channels_of(packed(first, second, third)) == (first, second, third),
{
    let w = packed(first, second, third);
    assert((w >> 24) as u8 == first && ((w >> 16) & 0xff) as u8 == second && ((w >> 8) & 0xff) as u8
        == third) by (bit_vector)
        requires
            w == ((first as u32) << 24) | ((second as u32) << 16) | ((third as u32) << 8),
    ;
}

/// Packing the channels of a word gives the word back without its padding
/// byte.
pub proof fn lemma_pack_unpack(word: u32)
    ensures
        packed(channels_of(word).0, channels_of(word).1, channels_of(word).2) == word
            & 0xffff_ff00,
{
    let a = (word >> 24) as u8;
    let b = ((word >> 16) & 0xff) as u8;
    let c = ((word >> 8) & 0xff) as u8;
    assert(((a as u32) << 24) | ((b as u32) << 16) | ((c as u32) << 8) == word & 0xffff_ff00)
        by (bit_vector)
        requires
            a == (word >> 24) as u8,
            b == ((word >> 16) & 0xff) as u8,
            c == ((word >> 8) & 0xff) as u8,
    ;
}

/// The named colours are the packed words of their channels, and no two
/// of them are the same word.
pub proof fn lemma_palette_words()
    ensures
        RED == packed(ON, OFF, OFF),
        GREEN == packed(OFF, ON, OFF),
        BLUE == packed(OFF, OFF, ON),
        WHITE == packed(ON / 3, ON / 3, ON / 3),
        RED != GREEN && RED != BLUE && RED != WHITE,
        GREEN != BLUE && GREEN != WHITE,
        BLUE != WHITE,
{
    assert(((5u8 as u32) << 24) | ((0u8 as u32) << 16) | ((0u8 as u32) << 8) == 0x0500_0000u32)
        by (bit_vector);
    assert(((0u8 as u32) << 24) | ((5u8 as u32) << 16) | ((0u8 as u32) << 8) == 0x0005_0000u32)
        by (bit_vector);
    assert(((0u8 as u32) << 24) | ((0u8 as u32) << 16) | ((5u8 as u32) << 8) == 0x0000_0500u32)
        by (bit_vector);
    assert(((1u8 as u32) << 24) | ((1u8 as u32) << 16) | ((1u8 as u32) << 8) == 0x0101_0100u32)
        by (bit_vector);
}

} // verus!
