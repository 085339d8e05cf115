//! How a colour option is read: `#RRGGBB` / `#RRGGBBAA` in hexadecimal, or
//! three or four comma-separated decimal numbers (which the caller reads
//! as numbers and scales).
use crate::text::{split_on, trim, views};
use vstd::prelude::*;

verus! {

/// A colour option, read.
#[derive(Debug, Clone, PartialEq, Eq)]
pub enum ColorText {
    /// Red, green, blue and alpha bytes from hexadecimal.
    Hex(u8, u8, u8, u8),
    /// Three or four comma-separated parts, trimmed: red, green, blue and
    /// (when given) alpha, each meant as a number from 0 to 255.
    Decimal(Vec<String>),
    /// Not a colour.
    Invalid,
}

pub enum ColorTextView {
    Hex(u8, u8, u8, u8),
    Decimal(Seq<Seq<char>>),
    Invalid,
}

pub open spec fn color_view(c: ColorText) -> ColorTextView {
    match c {
        ColorText::Hex(r, g, b, a) => ColorTextView::Hex(r, g, b, a),
        ColorText::Decimal(v) => ColorTextView::Decimal(views(v@)),
        ColorText::Invalid => ColorTextView::Invalid,
    }
}

/// The value of a hexadecimal digit.
pub open spec fn hex_value(c: char) -> Option<nat> {
    if '0' <= c && c <= '9' {
        Some((c as nat - '0' as nat) as nat)
    } else if 'a' <= c && c <= 'f' {
        Some((c as nat - 'a' as nat + 10) as nat)
    } else if 'A' <= c && c <= 'F' {
        Some((c as nat - 'A' as nat + 10) as nat)
    } else {
        None
    }
}

/// A two-character byte as `u8::from_str_radix(_, 16)` reads it: two
/// hexadecimal digits, or `+` and one digit.
pub open spec fn hex_byte(a: char, b: char) -> Option<u8> {
    match (hex_value(a), hex_value(b)) {
        (Some(x), Some(y)) => Some((x * 16 + y) as u8),
        (None, Some(y)) => if a == '+' {
            Some(y as u8)
        } else {
            None
        },
        _ => None,
    }
}

/// The colour a hexadecimal text (after the `#`) gives: six digits for an
/// opaque colour, eight with alpha.
pub open spec fn hex_color(h: Seq<char>) -> ColorTextView {
    if h.len() == 6 || h.len() == 8 {
        match (hex_byte(h[0], h[1]), hex_byte(h[2], h[3]), hex_byte(h[4], h[5])) {
            (Some(r), Some(g), Some(b)) => if h.len() == 6 {
                ColorTextView::Hex(r, g, b, 255)
            } else {
                match hex_byte(h[6], h[7]) {
                    Some(a) => ColorTextView::Hex(r, g, b, a),
                    None => ColorTextView::Invalid,
                }
            },
            _ => ColorTextView::Invalid,
        }
    } else {
        ColorTextView::Invalid
    }
}

/// How a colour option reads: empty is no colour; after `#` hexadecimal
/// (a `#` text of another length is no colour either, as a number never
/// starts with `#`); else three or four comma-separated parts.
pub open spec fn color_text(s: Seq<char>) -> ColorTextView {
    let t = trim(s);
    if t.len() == 0 {
        ColorTextView::Invalid
    } else if t[0] == '#' {
        hex_color(t.skip(1))
    } else {
        let parts = split_on(t, ',').map_values(|p: Seq<char>| trim(p));
        if parts.len() == 3 || parts.len() == 4 {
            ColorTextView::Decimal(parts)
        } else {
            ColorTextView::Invalid
        }
    }
}

fn hex_value_exec(c: char) -> (r: Option<u8>)
    ensures
        match hex_value(c) {
            Some(v) => r == Some(v as u8) && v < 16,
            None => r is None,
        },
{
    if '0' <= c && c <= '9' {
        Some((c as u32 - '0' as u32) as u8)
    } else if 'a' <= c && c <= 'f' {
        Some((c as u32 - 'a' as u32 + 10) as u8)
    } else if 'A' <= c && c <= 'F' {
        Some((c as u32 - 'A' as u32 + 10) as u8)
    } else {
        None
    }
}

fn hex_byte_exec(a: char, b: char) -> (r: Option<u8>)
    ensures
        r == hex_byte(a, b),
{
    match (hex_value_exec(a), hex_value_exec(b)) {
        (Some(x), Some(y)) => Some(x * 16 + y),
        (None, Some(y)) => if a == '+' {
            Some(y)
        } else {
            None
        },
        _ => None,
    }
}

/// Reads a colour option.
pub fn parse_color_text(s: &str) -> (r: ColorText)
    ensures
        color_view(r) == color_text(s@),
{
    let t = crate::text::trim_str(s);
    let v = crate::text::to_chars(t.as_str());
    if v.len() == 0 {
        return ColorText::Invalid;
    }
    if v[0] == '#' {
        let n = v.len() - 1;
        proof {
            assert(forall|i: int| 0 <= i < n ==> v@.skip(1)[i] == v@[i + 1]);
        }
        if n == 6 || n == 8 {
            let r = hex_byte_exec(v[1], v[2]);
            let g = hex_byte_exec(v[3], v[4]);
            let b = hex_byte_exec(v[5], v[6]);
            match (r, g, b) {
                (Some(r), Some(g), Some(b)) => {
                    if n == 6 {
                        return ColorText::Hex(r, g, b, 255);
                    }
                    match hex_byte_exec(v[7], v[8]) {
                        Some(a) => {
                            return ColorText::Hex(r, g, b, a);
                        },
                        None => {
                            return ColorText::Invalid;
                        },
                    }
                },
                _ => {
                    return ColorText::Invalid;
                },
            }
        }
        return ColorText::Invalid;
    }
    let raw = crate::text::split_str(t.as_str(), ',');
    let mut parts: Vec<String> = Vec::new();
    let mut i: usize = 0;
    while i < raw.len()
        invariant
            i <= raw@.len(),
            views(parts@) == views(raw@).take(i as int).map_values(|p: Seq<char>| trim(p)),
        decreases raw.len() - i,
    {
        let p = crate::text::trim_str(raw[i].as_str());
        let ghost before = views(parts@);
        parts.push(p);
        proof {
            assert(views(raw@)[i as int] == raw@[i as int]@);
            assert(views(parts@) =~= before.push(p@));
            assert(views(raw@).take(i + 1).map_values(|p: Seq<char>| trim(p)) =~= views(raw@).take(
                i as int,
            ).map_values(|p: Seq<char>| trim(p)).push(trim(raw@[i as int]@)));
        }
        i = i + 1;
    }
    proof {
        assert(views(raw@).take(raw@.len() as int) =~= views(raw@));
    }
    if parts.len() == 3 || parts.len() == 4 {
        ColorText::Decimal(parts)
    } else {
        ColorText::Invalid
    }
}

} // verus!
