//! Classification of raster pixels into the eighteen palette colors.
//!
//! Each palette color pairs one of six hues with one of three lightness
//! levels. Black and white are sentinels handled by callers and are never
//! classified here.

use vstd::prelude::*;
use vstd::string::StringExecFns;

verus! {

#[derive(Debug, Clone, Copy, PartialEq, Eq, Structural)]
pub enum Hue {
    NoHue,
    Red,
    Yellow,
    Green,
    Cyan,
    Blue,
    Magenta,
}

#[derive(Debug, Clone, Copy, PartialEq, Eq, Structural)]
pub enum Lightness {
    NoLightness,
    Light,
    Normal,
    Dark,
}

/// The position of a hue on the cyclic hue wheel, with 0 reserved for the
/// absent hue.
pub open spec fn hue_index(h: Hue) -> int {
    match h {
        Hue::NoHue => 0,
        Hue::Red => 1,
        Hue::Yellow => 2,
        Hue::Green => 3,
        Hue::Cyan => 4,
        Hue::Blue => 5,
        Hue::Magenta => 6,
    }
}

/// The position of a lightness level on the cyclic lightness scale, with 0
/// reserved for the absent level.
pub open spec fn lightness_index(l: Lightness) -> int {
    match l {
        Lightness::NoLightness => 0,
        Lightness::Light => 1,
        Lightness::Normal => 2,
        Lightness::Dark => 3,
    }
}

impl Hue {
    pub fn index(self) -> (r: u8)
        ensures
            r == hue_index(self),
    {
        match self {
            Hue::NoHue => 0,
            Hue::Red => 1,
            Hue::Yellow => 2,
            Hue::Green => 3,
            Hue::Cyan => 4,
            Hue::Blue => 5,
            Hue::Magenta => 6,
        }
    }
}

impl Lightness {
    pub fn index(self) -> (r: u8)
        ensures
            r == lightness_index(self),
    {
        match self {
            Lightness::NoLightness => 0,
            Lightness::Light => 1,
            Lightness::Normal => 2,
            Lightness::Dark => 3,
        }
    }
}

/// The hue and lightness of each of the eighteen palette colors; `None` for
/// every other RGB triple, the two sentinels included.
pub open spec fn spec_classify(px: (u8, u8, u8)) -> Option<(Hue, Lightness)> {
    if px == (255u8, 192u8, 192u8) {
        Some((Hue::Red, Lightness::Light))
    } else if px == (255u8, 0u8, 0u8) {
        Some((Hue::Red, Lightness::Normal))
    } else if px == (192u8, 0u8, 0u8) {
        Some((Hue::Red, Lightness::Dark))
    } else if px == (255u8, 255u8, 192u8) {
        Some((Hue::Yellow, Lightness::Light))
    } else if px == (255u8, 255u8, 0u8) {
        Some((Hue::Yellow, Lightness::Normal))
    } else if px == (192u8, 192u8, 0u8) {
        Some((Hue::Yellow, Lightness::Dark))
    } else if px == (192u8, 255u8, 192u8) {
        Some((Hue::Green, Lightness::Light))
    } else if px == (0u8, 255u8, 0u8) {
        Some((Hue::Green, Lightness::Normal))
    } else if px == (0u8, 192u8, 0u8) {
        Some((Hue::Green, Lightness::Dark))
    } else if px == (192u8, 255u8, 255u8) {
        Some((Hue::Cyan, Lightness::Light))
    } else if px == (0u8, 255u8, 255u8) {
        Some((Hue::Cyan, Lightness::Normal))
    } else if px == (0u8, 192u8, 192u8) {
        Some((Hue::Cyan, Lightness::Dark))
    } else if px == (192u8, 192u8, 255u8) {
        Some((Hue::Blue, Lightness::Light))
    } else if px == (0u8, 0u8, 255u8) {
        Some((Hue::Blue, Lightness::Normal))
    } else if px == (0u8, 0u8, 192u8) {
        Some((Hue::Blue, Lightness::Dark))
    } else if px == (255u8, 192u8, 255u8) {
        Some((Hue::Magenta, Lightness::Light))
    } else if px == (255u8, 0u8, 255u8) {
        Some((Hue::Magenta, Lightness::Normal))
    } else if px == (192u8, 0u8, 192u8) {
        Some((Hue::Magenta, Lightness::Dark))
    } else {
        None
    }
}

/// The palette name of a classified color.
pub open spec fn spec_mnemonic(h: Hue, l: Lightness) -> Seq<char> {
    match (h, l) {
        (Hue::Red, Lightness::Light) => "LightRed"@,
        (Hue::Red, Lightness::Normal) => "Red"@,
        (Hue::Red, Lightness::Dark) => "DarkRed"@,
        (Hue::Yellow, Lightness::Light) => "LightYellow"@,
        (Hue::Yellow, Lightness::Normal) => "Yellow"@,
        (Hue::Yellow, Lightness::Dark) => "DarkYellow"@,
        (Hue::Green, Lightness::Light) => "LightGreen"@,
        (Hue::Green, Lightness::Normal) => "Green"@,
        (Hue::Green, Lightness::Dark) => "DarkGreen"@,
        (Hue::Cyan, Lightness::Light) => "LightCyan"@,
        (Hue::Cyan, Lightness::Normal) => "Cyan"@,
        (Hue::Cyan, Lightness::Dark) => "DarkCyan"@,
        (Hue::Blue, Lightness::Light) => "LightBlue"@,
        (Hue::Blue, Lightness::Normal) => "Blue"@,
        (Hue::Blue, Lightness::Dark) => "DarkBlue"@,
        (Hue::Magenta, Lightness::Light) => "LightMagenta"@,
        (Hue::Magenta, Lightness::Normal) => "Magenta"@,
        (Hue::Magenta, Lightness::Dark) => "DarkMagenta"@,
        _ => Seq::<char>::empty(),
    }
}

/// A classified palette color.
#[derive(Debug)]
pub struct Color {
    pub mnemonic: &'static str,
    pub rgb_color: (u8, u8, u8),
    pub hue: Hue,
    pub lightness: Lightness,
}

impl Color {
    /// Classifies a pixel; any triple outside the eighteen-entry palette is
    /// rejected with a message naming it.
    pub fn from_px(px: &(u8, u8, u8)) -> (r: Result<Color, String>)
        ensures
            spec_classify(*px) is Some ==> {
                &&& r is Ok
                &&& r->Ok_0.hue == spec_classify(*px)->Some_0.0
                &&& r->Ok_0.lightness == spec_classify(*px)->Some_0.1
                &&& r->Ok_0.rgb_color == *px
                &&& r->Ok_0.mnemonic@ == spec_mnemonic(r->Ok_0.hue, r->Ok_0.lightness)
            },
            spec_classify(*px) is None ==> r is Err && r->Err_0@ == spec_invalid_color_message(
                *px,
            ),
    {
        let (hue, lightness, mnemonic): (Hue, Lightness, &'static str) = match *px {
            (255, 192, 192) => (Hue::Red, Lightness::Light, "LightRed"),
            (255, 0, 0) => (Hue::Red, Lightness::Normal, "Red"),
            (192, 0, 0) => (Hue::Red, Lightness::Dark, "DarkRed"),
            (255, 255, 192) => (Hue::Yellow, Lightness::Light, "LightYellow"),
            (255, 255, 0) => (Hue::Yellow, Lightness::Normal, "Yellow"),
            (192, 192, 0) => (Hue::Yellow, Lightness::Dark, "DarkYellow"),
            (192, 255, 192) => (Hue::Green, Lightness::Light, "LightGreen"),
            (0, 255, 0) => (Hue::Green, Lightness::Normal, "Green"),
            (0, 192, 0) => (Hue::Green, Lightness::Dark, "DarkGreen"),
            (192, 255, 255) => (Hue::Cyan, Lightness::Light, "LightCyan"),
            (0, 255, 255) => (Hue::Cyan, Lightness::Normal, "Cyan"),
            (0, 192, 192) => (Hue::Cyan, Lightness::Dark, "DarkCyan"),
            (192, 192, 255) => (Hue::Blue, Lightness::Light, "LightBlue"),
            (0, 0, 255) => (Hue::Blue, Lightness::Normal, "Blue"),
            (0, 0, 192) => (Hue::Blue, Lightness::Dark, "DarkBlue"),
            (255, 192, 255) => (Hue::Magenta, Lightness::Light, "LightMagenta"),
            (255, 0, 255) => (Hue::Magenta, Lightness::Normal, "Magenta"),
            (192, 0, 192) => (Hue::Magenta, Lightness::Dark, "DarkMagenta"),
            _ => {
                return Err(invalid_color_message(px));
            },
        };
        Ok(Color { mnemonic, rgb_color: *px, hue, lightness })
    }
}

/// The digit character, as a one-character string, for a value below ten.
pub open spec fn spec_digit_str(d: int) -> Seq<char> {
    if d == 0 {
        "0"@
    } else if d == 1 {
        "1"@
    } else if d == 2 {
        "2"@
    } else if d == 3 {
        "3"@
    } else if d == 4 {
        "4"@
    } else if d == 5 {
        "5"@
    } else if d == 6 {
        "6"@
    } else if d == 7 {
        "7"@
    } else if d == 8 {
        "8"@
    } else {
        "9"@
    }
}

fn digit_str(d: u8) -> (c: &'static str)
    requires
        d < 10,
    ensures
        c@ == spec_digit_str(d as int),
{
    match d {
        0 => "0",
        1 => "1",
        2 => "2",
        3 => "3",
        4 => "4",
        5 => "5",
        6 => "6",
        7 => "7",
        8 => "8",
        _ => "9",
    }
}

/// The decimal rendering of a byte, without leading zeros.
pub open spec fn spec_u8_dec(n: int) -> Seq<char> {
    if n < 10 {
        spec_digit_str(n)
    } else if n < 100 {
        spec_digit_str(n / 10) + spec_digit_str(n % 10)
    } else {
        spec_digit_str(n / 100) + spec_digit_str((n / 10) % 10) + spec_digit_str(n % 10)
    }
}

fn push_u8_dec(s: &mut String, n: u8)
    ensures
        final(s)@ == old(s)@ + spec_u8_dec(n as int),
{
    if n >= 100 {
        s.append(digit_str(n / 100));
        s.append(digit_str((n / 10) % 10));
        s.append(digit_str(n % 10));
    } else if n >= 10 {
        s.append(digit_str(n / 10));
        s.append(digit_str(n % 10));
    } else {
        s.append(digit_str(n));
    }
    proof {
        assert(s@ =~= old(s)@ + spec_u8_dec(n as int));
    }
}

/// The message that classification failure reports, naming the triple.
pub open spec fn spec_invalid_color_message(px: (u8, u8, u8)) -> Seq<char> {
    "invalid color: ("@ + spec_u8_dec(px.0 as int) + ", "@ + spec_u8_dec(px.1 as int) + ", "@
        + spec_u8_dec(px.2 as int) + ")"@
}

fn invalid_color_message(px: &(u8, u8, u8)) -> (r: String)
    ensures
        r@ == spec_invalid_color_message(*px),
{
    let mut s = String::from_str("invalid color: (");
    push_u8_dec(&mut s, px.0);
    s.append(", ");
    push_u8_dec(&mut s, px.1);
    s.append(", ");
    push_u8_dec(&mut s, px.2);
    s.append(")");
    proof {
        assert(s@ =~= spec_invalid_color_message(*px));
    }
    s
}

} // verus!
