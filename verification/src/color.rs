//! Colors as they appear in script files, in the three supported formats.
use vstd::prelude::*;
use crate::text::{push_char, spec_dec, u64_to_string};

verus! {

/// Specification-level mirror of [`Color`].
#[verifier::ext_equal]
pub enum ColorV {
    Hsv(Seq<char>, Seq<char>, Seq<char>),
    Hsv360(u16, u16, u16),
    Rgb(u8, u8, u8),
}

/// A color in one of the three script formats. The hue/saturation/value
/// form keeps its components as the decimal text found in (or destined
/// for) the file, so that fractional components survive a round trip
/// exactly as given.
#[derive(Clone, Debug)]
pub enum Color {
    Hsv(String, String, String),
    Hsv360(u16, u16, u16),
    Rgb(u8, u8, u8),
}

impl View for Color {
    type V = ColorV;

    open spec fn view(&self) -> ColorV {
        match self {
            Color::Hsv(h, s, v) => ColorV::Hsv(h@, s@, v@),
            Color::Hsv360(h, s, v) => ColorV::Hsv360(*h, *s, *v),
            Color::Rgb(r, g, b) => ColorV::Rgb(*r, *g, *b),
        }
    }
}

impl PartialEq for Color {
    fn eq(&self, other: &Color) -> (r: bool) {
        match (self, other) {
            (Color::Hsv(a, b, c), Color::Hsv(d, e, f)) => crate::text::str_eq(a.as_str(), d.as_str())
                && crate::text::str_eq(b.as_str(), e.as_str())
                && crate::text::str_eq(c.as_str(), f.as_str()),
            (Color::Hsv360(a, b, c), Color::Hsv360(d, e, f)) => a == d && b == e && c == f,
            (Color::Rgb(a, b, c), Color::Rgb(d, e, f)) => a == d && b == e && c == f,
            _ => false,
        }
    }
}

impl vstd::std_specs::cmp::PartialEqSpecImpl for Color {
    open spec fn obeys_eq_spec() -> bool {
        true
    }

    open spec fn eq_spec(&self, other: &Color) -> bool {
        spec_color_eq(*self, *other)
    }
}

/// Structural equality of colors; hue/saturation/value components compare
/// as their character sequences.
pub open spec fn spec_color_eq(x: Color, y: Color) -> bool {
    match (x, y) {
        (Color::Hsv(a, b, c), Color::Hsv(d, e, f)) => a@ == d@ && b@ == e@ && c@ == f@,
        (Color::Hsv360(a, b, c), Color::Hsv360(d, e, f)) => a == d && b == e && c == f,
        (Color::Rgb(a, b, c), Color::Rgb(d, e, f)) => a == d && b == e && c == f,
        _ => false,
    }
}

impl Default for Color {
    /// The default color is black in the byte-triple format.
    fn default() -> (r: Color)
        ensures
            r == Color::Rgb(0u8, 0u8, 0u8),
    {
        Color::Rgb(0, 0, 0)
    }
}

/// The canonical text of a color: its format tag, then the three
/// components inside braces.
pub open spec fn spec_color_text(c: ColorV) -> Seq<char> {
    match c {
        ColorV::Hsv(h, s, v) => "hsv { "@ + h + " "@ + s + " "@ + v + " }"@,
        ColorV::Hsv360(h, s, v) => "hsv360 { "@ + spec_dec(h as nat) + " "@ + spec_dec(s as nat)
            + " "@ + spec_dec(v as nat) + " }"@,
        ColorV::Rgb(r, g, b) => "rgb { "@ + spec_dec(r as nat) + " "@ + spec_dec(g as nat) + " "@
            + spec_dec(b as nat) + " }"@,
    }
}

impl Color {
    /// Renders this color in its canonical tagged form,
    /// `<kind> { a b c }`.
    pub fn to_text(&self) -> (r: String)
        ensures
            r@ == spec_color_text(self@),
    {
        match self {
            Color::Hsv(h, s, v) => {
                let mut out = String::from_str("hsv { ");
                out.append(h.as_str());
                out.append(" ");
                out.append(s.as_str());
                out.append(" ");
                out.append(v.as_str());
                out.append(" }");
                out
            },
            Color::Hsv360(h, s, v) => {
                let mut out = String::from_str("hsv360 { ");
                out.append(u64_to_string(*h as u64).as_str());
                out.append(" ");
                out.append(u64_to_string(*s as u64).as_str());
                out.append(" ");
                out.append(u64_to_string(*v as u64).as_str());
                out.append(" }");
                out
            },
            Color::Rgb(r, g, b) => {
                let mut out = String::from_str("rgb { ");
                out.append(u64_to_string(*r as u64).as_str());
                out.append(" ");
                out.append(u64_to_string(*g as u64).as_str());
                out.append(" ");
                out.append(u64_to_string(*b as u64).as_str());
                out.append(" }");
                out
            },
        }
    }
}

} // verus!
