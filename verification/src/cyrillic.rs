//! Turning text into the bytes a Russian character display expects.
//!
//! The HD44780 has no one character set. The Russian parts these machines use share a table in which the
//! Cyrillic letters that are drawn identically to a Latin one are simply the Latin code (А is `A`, Р is `P`,
//! С is `C`, and Ь is the small `b`), and the others live above 0xA0. Ё and ё stand where the table leaves
//! room.
//!
//! **This table is the common one, not a universal one.** A display with a different character ROM will draw
//! the right ASCII and the wrong Cyrillic, and the only way to know is to look at the fitted part.
use vstd::prelude::*;

verus! {

/// What is drawn for a character without a glyph: a question mark.
pub const REPLACEMENT: u8 = 0x3f;

/// The glyph of a letter of the Russian alphabet, or zero for a character that is none.
pub open spec fn letter(c: char) -> u8 {
    match c {
        'А' => 0x41,
        'Б' => 0xa0,
        'В' => 0x42,
        'Г' => 0xa1,
        'Д' => 0xe0,
        'Е' => 0x45,
        'Ё' => 0xa2,
        'Ж' => 0xa3,
        'З' => 0xa4,
        'И' => 0xa5,
        'Й' => 0xa6,
        'К' => 0x4b,
        'Л' => 0xa7,
        'М' => 0x4d,
        'Н' => 0x48,
        'О' => 0x4f,
        'П' => 0xa8,
        'Р' => 0x50,
        'С' => 0x43,
        'Т' => 0x54,
        'У' => 0xa9,
        'Ф' => 0xaa,
        'Х' => 0x58,
        'Ц' => 0xe1,
        'Ч' => 0xab,
        'Ш' => 0xac,
        'Щ' => 0xe2,
        'Ъ' => 0xad,
        'Ы' => 0xae,
        'Ь' => 0x62,
        'Э' => 0xaf,
        'Ю' => 0xb0,
        'Я' => 0xb1,
        'а' => 0x61,
        'б' => 0xb2,
        'в' => 0xb3,
        'г' => 0xb4,
        'д' => 0xe3,
        'е' => 0x65,
        'ё' => 0xb5,
        'ж' => 0xb6,
        'з' => 0xb7,
        'и' => 0xb8,
        'й' => 0xb9,
        'к' => 0xba,
        'л' => 0xbb,
        'м' => 0xbc,
        'н' => 0xbd,
        'о' => 0x6f,
        'п' => 0xbe,
        'р' => 0x70,
        'с' => 0x63,
        'т' => 0xbf,
        'у' => 0x79,
        'ф' => 0xe4,
        'х' => 0x78,
        'ц' => 0xe5,
        'ч' => 0xc0,
        'ш' => 0xc1,
        'щ' => 0xe6,
        'ъ' => 0xc2,
        'ы' => 0xc3,
        'ь' => 0xc4,
        'э' => 0xc5,
        'ю' => 0xc6,
        'я' => 0xc7,
        _ => 0,
    }
}

/// The byte that draws `c`: ASCII is ASCII on every part, and the Russian letters have their glyphs.
pub open spec fn glyph(c: char) -> Option<u8> {
    if (c as u32) < 0x80 {
        Some(c as u8)
    } else if letter(c) != 0 {
        Some(letter(c))
    } else {
        None
    }
}

/// The byte that draws `c`, or `None` if this character set has no such glyph.
pub fn encode(c: char) -> (byte: Option<u8>)
    ensures
        byte == glyph(c),
{
    // ASCII is ASCII on every part.
    if (c as u32) < 0x80 {
        return Some(c as u8);
    }
    Some(
        match c {
            // Capitals, in alphabetical order, and then small letters.
            'А' => 0x41,
            'Б' => 0xa0,
            'В' => 0x42,
            'Г' => 0xa1,
            'Д' => 0xe0,
            'Е' => 0x45,
            'Ё' => 0xa2,
            'Ж' => 0xa3,
            'З' => 0xa4,
            'И' => 0xa5,
            'Й' => 0xa6,
            'К' => 0x4b,
            'Л' => 0xa7,
            'М' => 0x4d,
            'Н' => 0x48,
            'О' => 0x4f,
            'П' => 0xa8,
            'Р' => 0x50,
            'С' => 0x43,
            'Т' => 0x54,
            'У' => 0xa9,
            'Ф' => 0xaa,
            'Х' => 0x58,
            'Ц' => 0xe1,
            'Ч' => 0xab,
            'Ш' => 0xac,
            'Щ' => 0xe2,
            'Ъ' => 0xad,
            'Ы' => 0xae,
            'Ь' => 0x62,
            'Э' => 0xaf,
            'Ю' => 0xb0,
            'Я' => 0xb1,
            'а' => 0x61,
            'б' => 0xb2,
            'в' => 0xb3,
            'г' => 0xb4,
            'д' => 0xe3,
            'е' => 0x65,
            'ё' => 0xb5,
            'ж' => 0xb6,
            'з' => 0xb7,
            'и' => 0xb8,
            'й' => 0xb9,
            'к' => 0xba,
            'л' => 0xbb,
            'м' => 0xbc,
            'н' => 0xbd,
            'о' => 0x6f,
            'п' => 0xbe,
            'р' => 0x70,
            'с' => 0x63,
            'т' => 0xbf,
            'у' => 0x79,
            'ф' => 0xe4,
            'х' => 0x78,
            'ц' => 0xe5,
            'ч' => 0xc0,
            'ш' => 0xc1,
            'щ' => 0xe6,
            'ъ' => 0xc2,
            'ы' => 0xc3,
            'ь' => 0xc4,
            'э' => 0xc5,
            'ю' => 0xc6,
            'я' => 0xc7,
            _ => {
                return None;
            },
        },
    )
}

/// The byte that draws `c`, falling back to a question mark.
///
/// Drawing the wrong character is better than drawing nothing: a missing glyph silently shortens the line and
/// moves everything after it, which makes a display look broken rather than incomplete.
pub fn encode_or_replacement(c: char) -> (byte: u8)
    ensures
        byte == drawn(c),
{
    match encode(c) {
        Some(b) => b,
        None => REPLACEMENT,
    }
}

/// The byte that is drawn for `c`.
pub open spec fn drawn(c: char) -> u8 {
    match glyph(c) {
        Some(b) => b,
        None => REPLACEMENT,
    }
}

/// No two letters of the Russian alphabet are drawn alike.
pub proof fn law_no_two_letters_are_drawn_alike(a: char, b: char)
    requires
        letter(a) != 0,
        letter(b) != 0,
        a != b,
    ensures
        letter(a) != letter(b),
        drawn(a) != drawn(b),
{
}

/// Plain ASCII text is drawn as itself.
pub proof fn law_ascii_is_ascii(c: char)
    requires
        (c as u32) < 0x80,
    ensures
        drawn(c) == c as u32,
{
}

/// Every letter of the Russian alphabet has a glyph, capital or small, and whatever has none is drawn as a question mark.
pub proof fn law_every_letter_has_a_glyph(c: char)
    ensures
        'А' <= c <= 'я' || c == 'Ё' || c == 'ё' ==> glyph(c) is Some,
        0x80 <= c as u32 && !('А' <= c <= 'я') && c != 'Ё' && c != 'ё' ==> drawn(c) == '?' as u32,
{
}

} // verus!
