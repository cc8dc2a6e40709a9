use vstd::prelude::*;

verus! {

/// An RGBA colour with 8 bits per channel.
#[derive(Clone, Copy, Debug, PartialEq, Eq, Structural)]
pub struct Rgba {
    pub r: u8,
    pub g: u8,
    pub b: u8,
    pub a: u8,
}

/// Number of entries in the fixed palette.
pub const PALETTE_LEN: u8 = 16;

/// A character that denotes a hexadecimal digit, in either case.
pub open spec fn is_hex_digit(c: char) -> bool {
    ('0' <= c && c <= '9') || ('a' <= c && c <= 'f') || ('A' <= c && c <= 'F')
}

/// The value of a hexadecimal digit.
pub open spec fn hex_digit_value(c: char) -> int {
    if '0' <= c && c <= '9' {
        c as int - '0' as int
    } else if 'a' <= c && c <= 'f' {
        c as int - 'a' as int + 10
    } else {
        c as int - 'A' as int + 10
    }
}

/// `#RRGGBB` or `#RRGGBBAA`, each component written as two hexadecimal digits.
pub open spec fn is_hex_color(s: Seq<char>) -> bool {
    &&& s.len() == 7 || s.len() == 9
    &&& s[0] == '#'
    &&& forall|i: int| 1 <= i < s.len() ==> is_hex_digit(#[trigger] s[i])
}

/// The byte written by the two hexadecimal digits at `s[i]` and `s[i + 1]`.
pub open spec fn hex_pair(s: Seq<char>, i: int) -> u8 {
    (16 * hex_digit_value(s[i]) + hex_digit_value(s[i + 1])) as u8
}

/// The colour that a well-formed hex string denotes; alpha is opaque unless given.
pub open spec fn hex_color(s: Seq<char>) -> Rgba {
    Rgba {
        r: hex_pair(s, 1),
        g: hex_pair(s, 3),
        b: hex_pair(s, 5),
        a: if s.len() > 7 { hex_pair(s, 7) } else { 255 },
    }
}

/// The fixed sixteen-colour palette, all entries opaque.
pub open spec fn palette_color(index: int) -> Rgba {
    let (r, g, b) = if index == 0 {
        (0xFFu8, 0xFFu8, 0xFFu8)
    } else if index == 1 {
        (0xE4u8, 0xE4u8, 0xE4u8)
    } else if index == 2 {
        (0x88u8, 0x88u8, 0x88u8)
    } else if index == 3 {
        (0x22u8, 0x22u8, 0x22u8)
    } else if index == 4 {
        (0xFDu8, 0xA1u8, 0xD3u8)
    } else if index == 5 {
        (0xF8u8, 0x22u8, 0x00u8)
    } else if index == 6 {
        (0xF0u8, 0x92u8, 0x00u8)
    } else if index == 7 {
        (0xA8u8, 0x68u8, 0x39u8)
    } else if index == 8 {
        (0xE6u8, 0xDAu8, 0x00u8)
    } else if index == 9 {
        (0x7Bu8, 0xE4u8, 0x00u8)
    } else if index == 10 {
        (0x0Fu8, 0xC3u8, 0x00u8)
    } else if index == 11 {
        (0x34u8, 0xD7u8, 0xE0u8)
    } else if index == 12 {
        (0x2Bu8, 0x84u8, 0xCDu8)
    } else if index == 13 {
        (0x32u8, 0x00u8, 0xF4u8)
    } else if index == 14 {
        (0xDEu8, 0x64u8, 0xEAu8)
    } else {
        (0x8Eu8, 0x0Au8, 0x85u8)
    };
    Rgba { r, g, b, a: 255 }
}

/// The value of one ASCII hexadecimal digit.
fn hex_digit(c: u8) -> (r: u8)
    requires
        is_hex_digit(c as char),
    ensures
        r as int == hex_digit_value(c as char),
        r < 16,
{
    if c >= 0x30 && c <= 0x39 {
        c - 0x30
    } else if c >= 0x61 && c <= 0x66 {
        c - 0x61 + 10
    } else {
        c - 0x41 + 10
    }
}

/// Reads the byte written by the two digits at `bytes[i]` and `bytes[i + 1]`.
fn read_pair(bytes: &[u8], i: usize) -> (r: u8)
    requires
        i + 1 < bytes@.len(),
        is_hex_digit(bytes@[i as int] as char),
        is_hex_digit(bytes@[i + 1] as char),
    ensures
        r as int == 16 * hex_digit_value(bytes@[i as int] as char) + hex_digit_value(
            bytes@[i + 1] as char,
        ),
{
    let hi = hex_digit(bytes[i]);
    let lo = hex_digit(bytes[i + 1]);
    hi * 16 + lo
}

/// Parses `#RRGGBB` (opaque) or `#RRGGBBAA` into a colour.
pub fn hex_to_rgba(hex: &str) -> (r: Rgba)
    requires
        is_hex_color(hex@),
    ensures
        r == hex_color(hex@),
{
    broadcast use vstd::string::is_ascii_spec_bytes;

    let s = Ghost(hex@);
    assert(vstd::string::is_ascii(hex)) by {
        assert forall|i: int| 0 <= i < s@.len() implies '\0' <= #[trigger] s@[i] <= '\u{7f}' by {
            if i > 0 {
                assert(is_hex_digit(s@[i]));
            }
        }
    }
    let bytes = hex.as_bytes();
    assert(bytes@ =~= Seq::new(s@.len(), |i| s@[i] as u8));
    assert forall|i: int| 1 <= i < s@.len() implies (#[trigger] bytes@[i]) as char == s@[i] by {
        assert(is_hex_digit(s@[i]));
    }
    let r = read_pair(bytes, 1);
    let g = read_pair(bytes, 3);
    let b = read_pair(bytes, 5);
    let a = if bytes.len() > 7 {
        read_pair(bytes, 7)
    } else {
        255
    };
    Rgba { r, g, b, a }
}

/// The palette entry at `index`, written as a hex string.
pub fn palette_hex(index: u8) -> (r: &'static str)
    requires
        index < PALETTE_LEN,
    ensures
        is_hex_color(r@),
        hex_color(r@) == palette_color(index as int),
{
    let r = match index {
        0 => {
            proof {
                reveal_strlit("#FFFFFF");
            }
            "#FFFFFF"
        }
        1 => {
            proof {
                reveal_strlit("#E4E4E4");
            }
            "#E4E4E4"
        }
        2 => {
            proof {
                reveal_strlit("#888888");
            }
            "#888888"
        }
        3 => {
            proof {
                reveal_strlit("#222222");
            }
            "#222222"
        }
        4 => {
            proof {
                reveal_strlit("#FDA1D3");
            }
            "#FDA1D3"
        }
        5 => {
            proof {
                reveal_strlit("#F82200");
            }
            "#F82200"
        }
        6 => {
            proof {
                reveal_strlit("#F09200");
            }
            "#F09200"
        }
        7 => {
            proof {
                reveal_strlit("#A86839");
            }
            "#A86839"
        }
        8 => {
            proof {
                reveal_strlit("#E6DA00");
            }
            "#E6DA00"
        }
        9 => {
            proof {
                reveal_strlit("#7BE400");
            }
            "#7BE400"
        }
        10 => {
            proof {
                reveal_strlit("#0FC300");
            }
            "#0FC300"
        }
        11 => {
            proof {
                reveal_strlit("#34D7E0");
            }
            "#34D7E0"
        }
        12 => {
            proof {
                reveal_strlit("#2B84CD");
            }
            "#2B84CD"
        }
        13 => {
            proof {
                reveal_strlit("#3200F4");
            }
            "#3200F4"
        }
        14 => {
            proof {
                reveal_strlit("#DE64EA");
            }
            "#DE64EA"
        }
        _ => {
            proof {
                reveal_strlit("#8E0A85");
            }
            "#8E0A85"
        }
    };
    r
}

} // verus!
