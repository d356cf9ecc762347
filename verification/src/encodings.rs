//! The two single-byte font encodings that Private-Use-Area text is read
//! back through: each byte code to the Unicode code point of its glyph, with
//! 0 for a code the encoding leaves unused.

use vstd::prelude::*;

verus! {

/// The Symbol font encoding (the variant with the Euro sign at 0xA0).
pub open spec fn symbol_code(b: u8) -> u32 {
    match b {
        b if (0x20 <= b && b <= 0x21) ||
            b == 0x23 ||
            (0x25 <= b && b <= 0x26) ||
            (0x28 <= b && b <= 0x29) ||
            (0x2B <= b && b <= 0x2C) ||
            (0x2E <= b && b <= 0x3F) ||
            b == 0x5B ||
            b == 0x5D ||
            b == 0x5F ||
            (0x7B <= b && b <= 0x7D) ||
            (0xB0 <= b && b <= 0xB1) => b as u32,
        0x22 => 0x2200, 0x24 => 0x2203, 0x27 => 0x220B, 0x2A => 0x2217,
        0x2D => 0x2212, 0x40 => 0x2245, 0x41 => 0x0391, 0x42 => 0x0392,
        0x43 => 0x03A7, 0x44 => 0x2206, 0x45 => 0x0395, 0x46 => 0x03A6,
        0x47 => 0x0393, 0x48 => 0x0397, 0x49 => 0x0399, 0x4A => 0x03D1,
        0x4B => 0x039A, 0x4C => 0x039B, 0x4D => 0x039C, 0x4E => 0x039D,
        0x4F => 0x039F, 0x50 => 0x03A0, 0x51 => 0x0398, 0x52 => 0x03A1,
        0x53 => 0x03A3, 0x54 => 0x03A4, 0x55 => 0x03A5, 0x56 => 0x03C2,
        0x57 => 0x2126, 0x58 => 0x039E, 0x59 => 0x03A8, 0x5A => 0x0396,
        0x5C => 0x2234, 0x5E => 0x22A5, 0x60 => 0xF8E5, 0x61 => 0x03B1,
        0x62 => 0x03B2, 0x63 => 0x03C7, 0x64 => 0x03B4, 0x65 => 0x03B5,
        0x66 => 0x03C6, 0x67 => 0x03B3, 0x68 => 0x03B7, 0x69 => 0x03B9,
        0x6A => 0x03D5, 0x6B => 0x03BA, 0x6C => 0x03BB, 0x6D => 0x00B5,
        0x6E => 0x03BD, 0x6F => 0x03BF, 0x70 => 0x03C0, 0x71 => 0x03B8,
        0x72 => 0x03C1, 0x73 => 0x03C3, 0x74 => 0x03C4, 0x75 => 0x03C5,
        0x76 => 0x03D6, 0x77 => 0x03C9, 0x78 => 0x03BE, 0x79 => 0x03C8,
        0x7A => 0x03B6, 0x7E => 0x223C, 0xA0 => 0x20AC, 0xA1 => 0x03D2,
        0xA2 => 0x2032, 0xA3 => 0x2264, 0xA4 => 0x2044, 0xA5 => 0x221E,
        0xA6 => 0x0192, 0xA7 => 0x2663, 0xA8 => 0x2666, 0xA9 => 0x2665,
        0xAA => 0x2660, 0xAB => 0x2194, 0xAC => 0x2190, 0xAD => 0x2191,
        0xAE => 0x2192, 0xAF => 0x2193, 0xB2 => 0x2033, 0xB3 => 0x2265,
        0xB4 => 0x00D7, 0xB5 => 0x221D, 0xB6 => 0x2202, 0xB7 => 0x2022,
        0xB8 => 0x00F7, 0xB9 => 0x2260, 0xBA => 0x2261, 0xBB => 0x2248,
        0xBC => 0x2026, 0xBD => 0xF8E6, 0xBE => 0xF8E7, 0xBF => 0x21B5,
        0xC0 => 0x2135, 0xC1 => 0x2111, 0xC2 => 0x211C, 0xC3 => 0x2118,
        0xC4 => 0x2297, 0xC5 => 0x2295, 0xC6 => 0x2205, 0xC7 => 0x2229,
        0xC8 => 0x222A, 0xC9 => 0x2283, 0xCA => 0x2287, 0xCB => 0x2284,
        0xCC => 0x2282, 0xCD => 0x2286, 0xCE => 0x2208, 0xCF => 0x2209,
        0xD0 => 0x2220, 0xD1 => 0x2207, 0xD2 => 0xF6DA, 0xD3 => 0xF6D9,
        0xD4 => 0xF6DB, 0xD5 => 0x220F, 0xD6 => 0x221A, 0xD7 => 0x22C5,
        0xD8 => 0x00AC, 0xD9 => 0x2227, 0xDA => 0x2228, 0xDB => 0x21D4,
        0xDC => 0x21D0, 0xDD => 0x21D1, 0xDE => 0x21D2, 0xDF => 0x21D3,
        0xE0 => 0x25CA, 0xE1 => 0x2329, 0xE2 => 0xF8E8, 0xE3 => 0xF8E9,
        0xE4 => 0xF8EA, 0xE5 => 0x2211, 0xE6 => 0xF8EB, 0xE7 => 0xF8EC,
        0xE8 => 0xF8ED, 0xE9 => 0xF8EE, 0xEA => 0xF8EF, 0xEB => 0xF8F0,
        0xEC => 0xF8F1, 0xED => 0xF8F2, 0xEE => 0xF8F3, 0xEF => 0xF8F4,
        0xF1 => 0x232A, 0xF2 => 0x222B, 0xF3 => 0x2320, 0xF4 => 0xF8F5,
        0xF5 => 0x2321, 0xF6 => 0xF8F6, 0xF7 => 0xF8F7, 0xF8 => 0xF8F8,
        0xF9 => 0xF8F9, 0xFA => 0xF8FA, 0xFB => 0xF8FB, 0xFC => 0xF8FC,
        0xFD => 0xF8FD, 0xFE => 0xF8FE,
        _ => 0,
    }
}

/// The Windows ANSI (code page 1252) font encoding, unused codes of the
/// 0x80 block drawn as a bullet.
pub open spec fn win_ansi_code(b: u8) -> u32 {
    match b {
        b if (0x20 <= b && b <= 0x7E) ||
            (0xA1 <= b && b <= 0xAC) ||
            (0xAE <= b && b <= 0xFF) => b as u32,
        0x7F => 0x2022, 0x80 => 0x20AC, 0x81 => 0x2022, 0x82 => 0x201A,
        0x83 => 0x0192, 0x84 => 0x201E, 0x85 => 0x2026, 0x86 => 0x2020,
        0x87 => 0x2021, 0x88 => 0x02C6, 0x89 => 0x2030, 0x8A => 0x0160,
        0x8B => 0x2039, 0x8C => 0x0152, 0x8D => 0x2022, 0x8E => 0x017D,
        0x8F | 0x90 => 0x2022, 0x91 => 0x2018, 0x92 => 0x2019, 0x93 => 0x201C,
        0x94 => 0x201D, 0x95 => 0x2022, 0x96 => 0x2013, 0x97 => 0x2014,
        0x98 => 0x02DC, 0x99 => 0x2122, 0x9A => 0x0161, 0x9B => 0x203A,
        0x9C => 0x0153, 0x9D => 0x2022, 0x9E => 0x017E, 0x9F => 0x0178,
        0xA0 => 0x0020, 0xAD => 0x002D,
        _ => 0,
    }
}

/// Every code point of both tables is 0 or a Unicode scalar value below
/// U+10000.
pub proof fn lemma_codes_are_scalar(b: u8)
    ensures
        symbol_code(b) < 0xD800 || 0xE000 <= symbol_code(b) <= 0xFFFF,
        win_ansi_code(b) < 0xD800,
{
}

/// The Unicode code point of byte `b` in the Symbol encoding (0 if unused).
pub fn symbol_unicode(b: u8) -> (r: u32)
    ensures
        r == symbol_code(b),
{
    match b {
        b if (0x20 <= b && b <= 0x21) ||
            b == 0x23 ||
            (0x25 <= b && b <= 0x26) ||
            (0x28 <= b && b <= 0x29) ||
            (0x2B <= b && b <= 0x2C) ||
            (0x2E <= b && b <= 0x3F) ||
            b == 0x5B ||
            b == 0x5D ||
            b == 0x5F ||
            (0x7B <= b && b <= 0x7D) ||
            (0xB0 <= b && b <= 0xB1) => b as u32,
        0x22 => 0x2200, 0x24 => 0x2203, 0x27 => 0x220B, 0x2A => 0x2217,
        0x2D => 0x2212, 0x40 => 0x2245, 0x41 => 0x0391, 0x42 => 0x0392,
        0x43 => 0x03A7, 0x44 => 0x2206, 0x45 => 0x0395, 0x46 => 0x03A6,
        0x47 => 0x0393, 0x48 => 0x0397, 0x49 => 0x0399, 0x4A => 0x03D1,
        0x4B => 0x039A, 0x4C => 0x039B, 0x4D => 0x039C, 0x4E => 0x039D,
        0x4F => 0x039F, 0x50 => 0x03A0, 0x51 => 0x0398, 0x52 => 0x03A1,
        0x53 => 0x03A3, 0x54 => 0x03A4, 0x55 => 0x03A5, 0x56 => 0x03C2,
        0x57 => 0x2126, 0x58 => 0x039E, 0x59 => 0x03A8, 0x5A => 0x0396,
        0x5C => 0x2234, 0x5E => 0x22A5, 0x60 => 0xF8E5, 0x61 => 0x03B1,
        0x62 => 0x03B2, 0x63 => 0x03C7, 0x64 => 0x03B4, 0x65 => 0x03B5,
        0x66 => 0x03C6, 0x67 => 0x03B3, 0x68 => 0x03B7, 0x69 => 0x03B9,
        0x6A => 0x03D5, 0x6B => 0x03BA, 0x6C => 0x03BB, 0x6D => 0x00B5,
        0x6E => 0x03BD, 0x6F => 0x03BF, 0x70 => 0x03C0, 0x71 => 0x03B8,
        0x72 => 0x03C1, 0x73 => 0x03C3, 0x74 => 0x03C4, 0x75 => 0x03C5,
        0x76 => 0x03D6, 0x77 => 0x03C9, 0x78 => 0x03BE, 0x79 => 0x03C8,
        0x7A => 0x03B6, 0x7E => 0x223C, 0xA0 => 0x20AC, 0xA1 => 0x03D2,
        0xA2 => 0x2032, 0xA3 => 0x2264, 0xA4 => 0x2044, 0xA5 => 0x221E,
        0xA6 => 0x0192, 0xA7 => 0x2663, 0xA8 => 0x2666, 0xA9 => 0x2665,
        0xAA => 0x2660, 0xAB => 0x2194, 0xAC => 0x2190, 0xAD => 0x2191,
        0xAE => 0x2192, 0xAF => 0x2193, 0xB2 => 0x2033, 0xB3 => 0x2265,
        0xB4 => 0x00D7, 0xB5 => 0x221D, 0xB6 => 0x2202, 0xB7 => 0x2022,
        0xB8 => 0x00F7, 0xB9 => 0x2260, 0xBA => 0x2261, 0xBB => 0x2248,
        0xBC => 0x2026, 0xBD => 0xF8E6, 0xBE => 0xF8E7, 0xBF => 0x21B5,
        0xC0 => 0x2135, 0xC1 => 0x2111, 0xC2 => 0x211C, 0xC3 => 0x2118,
        0xC4 => 0x2297, 0xC5 => 0x2295, 0xC6 => 0x2205, 0xC7 => 0x2229,
        0xC8 => 0x222A, 0xC9 => 0x2283, 0xCA => 0x2287, 0xCB => 0x2284,
        0xCC => 0x2282, 0xCD => 0x2286, 0xCE => 0x2208, 0xCF => 0x2209,
        0xD0 => 0x2220, 0xD1 => 0x2207, 0xD2 => 0xF6DA, 0xD3 => 0xF6D9,
        0xD4 => 0xF6DB, 0xD5 => 0x220F, 0xD6 => 0x221A, 0xD7 => 0x22C5,
        0xD8 => 0x00AC, 0xD9 => 0x2227, 0xDA => 0x2228, 0xDB => 0x21D4,
        0xDC => 0x21D0, 0xDD => 0x21D1, 0xDE => 0x21D2, 0xDF => 0x21D3,
        0xE0 => 0x25CA, 0xE1 => 0x2329, 0xE2 => 0xF8E8, 0xE3 => 0xF8E9,
        0xE4 => 0xF8EA, 0xE5 => 0x2211, 0xE6 => 0xF8EB, 0xE7 => 0xF8EC,
        0xE8 => 0xF8ED, 0xE9 => 0xF8EE, 0xEA => 0xF8EF, 0xEB => 0xF8F0,
        0xEC => 0xF8F1, 0xED => 0xF8F2, 0xEE => 0xF8F3, 0xEF => 0xF8F4,
        0xF1 => 0x232A, 0xF2 => 0x222B, 0xF3 => 0x2320, 0xF4 => 0xF8F5,
        0xF5 => 0x2321, 0xF6 => 0xF8F6, 0xF7 => 0xF8F7, 0xF8 => 0xF8F8,
        0xF9 => 0xF8F9, 0xFA => 0xF8FA, 0xFB => 0xF8FB, 0xFC => 0xF8FC,
        0xFD => 0xF8FD, 0xFE => 0xF8FE,
        _ => 0,
    }
}

/// The Unicode code point of byte `b` in the WinAnsi encoding (0 if unused).
pub fn win_ansi_unicode(b: u8) -> (r: u32)
    ensures
        r == win_ansi_code(b),
{
    match b {
        b if (0x20 <= b && b <= 0x7E) ||
            (0xA1 <= b && b <= 0xAC) ||
            (0xAE <= b && b <= 0xFF) => b as u32,
        0x7F => 0x2022, 0x80 => 0x20AC, 0x81 => 0x2022, 0x82 => 0x201A,
        0x83 => 0x0192, 0x84 => 0x201E, 0x85 => 0x2026, 0x86 => 0x2020,
        0x87 => 0x2021, 0x88 => 0x02C6, 0x89 => 0x2030, 0x8A => 0x0160,
        0x8B => 0x2039, 0x8C => 0x0152, 0x8D => 0x2022, 0x8E => 0x017D,
        0x8F | 0x90 => 0x2022, 0x91 => 0x2018, 0x92 => 0x2019, 0x93 => 0x201C,
        0x94 => 0x201D, 0x95 => 0x2022, 0x96 => 0x2013, 0x97 => 0x2014,
        0x98 => 0x02DC, 0x99 => 0x2122, 0x9A => 0x0161, 0x9B => 0x203A,
        0x9C => 0x0153, 0x9D => 0x2022, 0x9E => 0x017E, 0x9F => 0x0178,
        0xA0 => 0x0020, 0xAD => 0x002D,
        _ => 0,
    }
}

} // verus!
