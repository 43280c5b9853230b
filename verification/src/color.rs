//! Colors: how a document names them, and which one a run is drawn in.

use vstd::prelude::*;

use crate::document::{HighlightColor, RunProperties, Theme, ThemeColor};
use crate::text::{chars_of, find_pattern, str_eq, string_of};

verus! {

/// A color.
#[derive(Debug, PartialEq)]
pub enum Color {
    /// As a document writes it, such as `FF0000`.
    Hex(String),
    /// By its channels, in thousandths of the full value.
    Rgb { red: u32, green: u32, blue: u32 },
}

/// The channels of an opaque color, in fractions of [`CHANNEL_MAX`].
#[derive(Debug, Clone, Copy, PartialEq, Eq, Structural)]
pub struct Channels {
    pub red: u32,
    pub green: u32,
    pub blue: u32,
}

/// The value of a channel at its full strength. Both thousandths and 255ths of
/// it are whole numbers.
pub const CHANNEL_MAX: u32 = 255000;

/// Black.
pub open spec fn black() -> Color {
    Color::Rgb { red: 0, green: 0, blue: 0 }
}

/// The value of a hexadecimal digit.
pub open spec fn hex_digit(byte: u8) -> Option<u32> {
    if 0x30 <= byte <= 0x39 {
        Some((byte - 0x30) as u32)
    } else if 0x41 <= byte <= 0x46 {
        Some((byte - 0x41 + 10) as u32)
    } else if 0x61 <= byte <= 0x66 {
        Some((byte - 0x61 + 10) as u32)
    } else {
        None
    }
}

/// The value of two hexadecimal digits. A plus sign may stand for the first of
/// them; anything else counts as zero.
pub open spec fn hex_pair(high: u8, low: u8) -> u32 {
    match (hex_digit(high), hex_digit(low)) {
        (Some(h), Some(l)) => (16 * h + l) as u32,
        (None, Some(l)) => if high == 0x2b {
            l
        } else {
            0
        },
        (_, None) => 0,
    }
}

/// A text without the number signs at its start.
pub open spec fn after_hashes(bytes: Seq<u8>) -> Seq<u8>
    decreases bytes.len(),
{
    if bytes.len() > 0 && bytes[0] == 0x23 {
        after_hashes(bytes.drop_first())
    } else {
        bytes
    }
}

/// The channels that hexadecimal digits stand for. Fewer than six of them are
/// black.
pub open spec fn hex_channels(digits: Seq<u8>) -> Channels {
    if digits.len() >= 6 {
        Channels {
            red: (hex_pair(digits[0], digits[1]) * 1000) as u32,
            green: (hex_pair(digits[2], digits[3]) * 1000) as u32,
            blue: (hex_pair(digits[4], digits[5]) * 1000) as u32,
        }
    } else {
        Channels { red: 0, green: 0, blue: 0 }
    }
}

impl Color {
    /// The color that a document writes as `hex`.
    pub fn from_hex(hex: &String) -> (color: Color)
        ensures
            color == Color::Hex(*hex),
    {
        Color::Hex(hex.clone())
    }

    /// Whether the color can be read: three pairs of bytes can be cut from a
    /// hexadecimal color without cutting a character, and channels are in range.
    pub open spec fn readable(self) -> bool {
        match self {
            Color::Hex(hex) => {
                let digits = after_hashes(vstd::utf8::encode_utf8(hex@));
                digits.len() >= 6 ==> {
                    &&& vstd::utf8::is_char_boundary(digits, 2)
                    &&& vstd::utf8::is_char_boundary(digits, 4)
                    &&& vstd::utf8::is_char_boundary(digits, 6)
                }
            },
            Color::Rgb { red, green, blue } => red <= 1000 && green <= 1000 && blue <= 1000,
        }
    }

    /// The channels of the color.
    pub open spec fn spec_channels(self) -> Channels {
        match self {
            Color::Hex(hex) => hex_channels(after_hashes(vstd::utf8::encode_utf8(hex@))),
            Color::Rgb { red, green, blue } => Channels {
                red: (red * 255) as u32,
                green: (green * 255) as u32,
                blue: (blue * 255) as u32,
            },
        }
    }

    /// The channels of the color.
    pub fn channels(&self) -> (channels: Channels)
        requires
            self.readable(),
        ensures
            channels == self.spec_channels(),
            channels.red <= CHANNEL_MAX && channels.green <= CHANNEL_MAX && channels.blue
                <= CHANNEL_MAX,
    {
        match self {
            Color::Hex(hex) => {
                let bytes = hex.as_str().as_bytes();
                let mut start: usize = 0;
                proof {
                    assert(bytes@.skip(0) =~= bytes@);
                }
                while start < bytes.len() && bytes[start] == 0x23
                    invariant
                        start <= bytes@.len(),
                        after_hashes(bytes@) == after_hashes(bytes@.skip(start as int)),
                    decreases bytes@.len() - start,
                {
                    proof {
                        assert(bytes@.skip(start as int).drop_first() =~= bytes@.skip(start + 1));
                    }
                    start += 1;
                }
                let ghost digits = bytes@.skip(start as int);
                assert(after_hashes(digits) == digits);
                if bytes.len() - start >= 6 {
                    Channels {
                        red: read_pair(bytes[start], bytes[start + 1]) * 1000,
                        green: read_pair(bytes[start + 2], bytes[start + 3]) * 1000,
                        blue: read_pair(bytes[start + 4], bytes[start + 5]) * 1000,
                    }
                } else {
                    Channels { red: 0, green: 0, blue: 0 }
                }
            },
            Color::Rgb { red, green, blue } => Channels {
                red: *red * 255,
                green: *green * 255,
                blue: *blue * 255,
            },
        }
    }
}

fn read_digit(byte: u8) -> (value: Option<u32>)
    ensures
        value == hex_digit(byte),
        value matches Some(v) ==> v < 16,
{
    if 0x30 <= byte && byte <= 0x39 {
        Some((byte - 0x30) as u32)
    } else if 0x41 <= byte && byte <= 0x46 {
        Some((byte - 0x41 + 10) as u32)
    } else if 0x61 <= byte && byte <= 0x66 {
        Some((byte - 0x61 + 10) as u32)
    } else {
        None
    }
}

fn read_pair(high: u8, low: u8) -> (value: u32)
    ensures
        value == hex_pair(high, low),
        value < 256,
{
    match (read_digit(high), read_digit(low)) {
        (Some(h), Some(l)) => 16 * h + l,
        (None, Some(l)) => {
            if high == 0x2b {
                l
            } else {
                0
            }
        },
        (_, None) => 0,
    }
}

/// The channels of a highlight color in thousandths, unless there is none.
pub open spec fn highlight_channels(highlight: HighlightColor) -> Option<(u32, u32, u32)> {
    match highlight {
        HighlightColor::NoHighlight => None,
        HighlightColor::Black => Some((0, 0, 0)),
        HighlightColor::Blue => Some((0, 0, 1000)),
        HighlightColor::Cyan => Some((0, 1000, 1000)),
        HighlightColor::DarkBlue => Some((0, 0, 545)),
        HighlightColor::DarkCyan => Some((0, 545, 545)),
        HighlightColor::DarkGray => Some((663, 663, 663)),
        HighlightColor::DarkGreen => Some((0, 392, 0)),
        HighlightColor::DarkMagenta => Some((545, 0, 545)),
        HighlightColor::DarkRed => Some((545, 0, 0)),
        HighlightColor::DarkYellow => Some((545, 545, 0)),
        HighlightColor::Green => Some((0, 1000, 0)),
        HighlightColor::LightGray => Some((827, 827, 827)),
        HighlightColor::Magenta => Some((1000, 0, 1000)),
        HighlightColor::Red => Some((1000, 0, 0)),
        HighlightColor::White => Some((1000, 1000, 1000)),
        HighlightColor::Yellow => Some((1000, 1000, 0)),
    }
}

/// The color of a highlight.
pub open spec fn highlight_color(highlight: HighlightColor) -> Option<Color> {
    match highlight_channels(highlight) {
        Some((red, green, blue)) => Some(Color::Rgb { red, green, blue }),
        None => None,
    }
}

fn rgb(red: u32, green: u32, blue: u32) -> (color: Option<Color>)
    ensures
        color == Some(Color::Rgb { red, green, blue }),
{
    Some(Color::Rgb { red, green, blue })
}

/// The color of a highlight.
pub fn highlight_to_color(highlight: HighlightColor) -> (color: Option<Color>)
    ensures
        color == highlight_color(highlight),
{
    match highlight {
        HighlightColor::NoHighlight => None,
        HighlightColor::Black => rgb(0, 0, 0),
        HighlightColor::Blue => rgb(0, 0, 1000),
        HighlightColor::Cyan => rgb(0, 1000, 1000),
        HighlightColor::DarkBlue => rgb(0, 0, 545),
        HighlightColor::DarkCyan => rgb(0, 545, 545),
        HighlightColor::DarkGray => rgb(663, 663, 663),
        HighlightColor::DarkGreen => rgb(0, 392, 0),
        HighlightColor::DarkMagenta => rgb(545, 0, 545),
        HighlightColor::DarkRed => rgb(545, 0, 0),
        HighlightColor::DarkYellow => rgb(545, 545, 0),
        HighlightColor::Green => rgb(0, 1000, 0),
        HighlightColor::LightGray => rgb(827, 827, 827),
        HighlightColor::Magenta => rgb(1000, 0, 1000),
        HighlightColor::Red => rgb(1000, 0, 0),
        HighlightColor::White => rgb(1000, 1000, 1000),
        HighlightColor::Yellow => rgb(1000, 1000, 0),
    }
}

/// The condition that a theme color has a name.
pub open spec fn has_name(name: Seq<char>) -> spec_fn(ThemeColor) -> bool {
    |color: ThemeColor| color.name@ == name
}

/// The color that a theme gives a name.
pub open spec fn theme_color(theme: Option<Theme>, name: Seq<char>) -> Option<String> {
    match theme {
        Some(theme) => match crate::text::first_where(theme.colors@, has_name(name)) {
            Some(i) => Some(theme.colors@[i].hex),
            None => None,
        },
        None => None,
    }
}

/// The color of a run: the color that is set on it, unless that is automatic;
/// or else the color that its theme gives it; or else black.
pub open spec fn run_color(properties: RunProperties, theme: Option<Theme>) -> Color {
    match properties.color {
        Some(color) if color@ != "auto"@ => Color::Hex(color),
        _ => match properties.color_theme {
            Some(name) => match theme_color(theme, name@) {
                Some(hex) => Color::Hex(hex),
                None => black(),
            },
            None => black(),
        },
    }
}

fn find_theme_color(theme: &Option<Theme>, name: &str) -> (hex: Option<String>)
    ensures
        hex == theme_color(*theme, name@),
{
    if let Some(palette) = theme {
        let mut i: usize = 0;
        while i < palette.colors.len()
            invariant
                *theme == Some(*palette),
                i <= palette.colors@.len(),
                crate::text::first_where(palette.colors@, has_name(name@))
                    == crate::text::first_from(palette.colors@, has_name(name@), i as int),
            decreases palette.colors@.len() - i,
        {
            let entry = &palette.colors[i];
            if str_eq(entry.name.as_str(), name) {
                assert(has_name(name@)(palette.colors@[i as int]));
                return Some(entry.hex.clone());
            }
            i += 1;
        }
    }
    None
}

/// The color of a run, considering the theme.
///
/// A color that is set on the run and is not automatic comes first, then the
/// theme color, then black.
pub fn resolve_run_color(properties: &RunProperties, theme: &Option<Theme>) -> (color: Color)
    ensures
        color == run_color(*properties, *theme),
{
    if let Some(literal) = &properties.color {
        if !str_eq(literal.as_str(), "auto") {
            return Color::from_hex(literal);
        }
    }
    if let Some(name) = &properties.color_theme {
        if let Some(hex) = find_theme_color(theme, name.as_str()) {
            return Color::from_hex(&hex);
        }
    }
    Color::Rgb { red: 0, green: 0, blue: 0 }
}

/// The text between a pattern's first occurrence and the next quotation mark.
pub open spec fn quoted_after(xml: Seq<char>, pattern: Seq<char>) -> Option<Seq<char>> {
    match crate::text::find_from(xml, pattern, 0) {
        Some(start) => match crate::text::find_from(xml, seq!['"'], start + pattern.len()) {
            Some(end) => Some(xml.subrange(start + pattern.len(), end)),
            None => None,
        },
        None => None,
    }
}

/// The quoted text after a pattern, if it is six bytes long.
pub open spec fn color_after(xml: Seq<char>, pattern: Seq<char>) -> Option<Seq<char>> {
    match quoted_after(xml, pattern) {
        Some(hex) => if vstd::utf8::encode_utf8(hex).len() == 6 {
            Some(hex)
        } else {
            None
        },
        None => None,
    }
}

/// The color that a background element names: its `w:color`, or else its
/// `color`.
pub open spec fn background_hex(xml: Seq<char>) -> Option<Seq<char>> {
    match color_after(xml, "w:color=\""@) {
        Some(hex) => Some(hex),
        None => color_after(xml, "color=\""@),
    }
}

fn read_color_after(xml: &Vec<char>, pattern: &str) -> (hex: Option<String>)
    ensures
        crate::text::opt_view(hex) == color_after(xml@, pattern@),
{
    let pattern = chars_of(pattern);
    match find_pattern(xml, &pattern, 0) {
        Some(start) => {
            let from = start + pattern.len();
            let mut quote: Vec<char> = Vec::new();
            quote.push('"');
            proof {
                assert(quote@ =~= seq!['"']);
            }
            match find_pattern(xml, &quote, from) {
                Some(end) => {
                    let hex = string_of(xml, from, end);
                    if hex.as_str().as_bytes().len() == 6 {
                        Some(hex)
                    } else {
                        None
                    }
                },
                None => None,
            }
        },
        None => None,
    }
}

/// The color that a background element names.
pub fn extract_background_color(xml: &str) -> (color: Option<Color>)
    ensures
        match color {
            Some(color) => color matches Color::Hex(hex) && background_hex(xml@) == Some(hex@),
            None => background_hex(xml@) is None,
        },
{
    let chars = chars_of(xml);
    match read_color_after(&chars, "w:color=\"") {
        Some(hex) => Some(Color::Hex(hex)),
        None => match read_color_after(&chars, "color=\"") {
            Some(hex) => Some(Color::Hex(hex)),
            None => None,
        },
    }
}

} // verus!
