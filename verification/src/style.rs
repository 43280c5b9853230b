//! How the text of a run looks: the font that is asked for, and everything that
//! is drawn with it.

use vstd::prelude::*;

use crate::color::{highlight_to_color, resolve_run_color, Color};
use crate::convert::{underline, Underline};
use crate::document::{RunProperties, Theme};
use crate::text::str_eq;
use crate::units::{HalfPoint, TextUnit, Twips};

verus! {

/// A font that text is set in. It should be able to show the sample.
#[derive(Debug, PartialEq)]
pub struct FontRequest {
    pub family: Option<String>,
    pub bold: bool,
    pub italic: bool,
    pub sample: String,
}

/// What a [`FontRequest`] asks for.
pub struct FontRequestView {
    pub family: Option<String>,
    pub bold: bool,
    pub italic: bool,
    pub sample: Seq<char>,
}

impl View for FontRequest {
    type V = FontRequestView;

    open spec fn view(&self) -> FontRequestView {
        FontRequestView {
            family: self.family,
            bold: self.bold,
            italic: self.italic,
            sample: self.sample@,
        }
    }
}

/// How a piece of text looks.
#[derive(Debug, PartialEq)]
pub struct TextStyle {
    /// The font, by its place among the fonts that were asked for.
    pub font: usize,
    pub size: TextUnit,
    pub color: Color,
    pub underline: Option<Underline>,
    pub strike: bool,
    pub dstrike: bool,
    pub highlight: Option<Color>,
    /// How far the text is raised above the baseline.
    pub baseline_offset: TextUnit,
    /// What is added to the advance of each glyph.
    pub spacing: Option<Twips>,
    pub hyperlink_url: Option<String>,
}

/// The size of text that states none, in half points.
pub const DEFAULT_HALF_POINTS: u32 = 22;

/// Whether a switch is set and on.
pub open spec fn is_on(switch: Option<bool>) -> bool {
    switch == Some(true)
}

/// Whether a switch is set and on.
pub fn on(switch: Option<bool>) -> (yes: bool)
    ensures
        yes == is_on(switch),
{
    match switch {
        Some(value) => value,
        None => false,
    }
}

/// Whether a theme font reference means the font for headings.
pub open spec fn names_major_font(reference: Seq<char>) -> bool {
    ||| reference == "majorAscii"@
    ||| reference == "majorHAnsi"@
    ||| reference == "majorBidi"@
    ||| reference == "majorEastAsia"@
}

/// Whether a theme font reference means the font for body text.
pub open spec fn names_minor_font(reference: Seq<char>) -> bool {
    ||| reference == "minorAscii"@
    ||| reference == "minorHAnsi"@
    ||| reference == "minorBidi"@
    ||| reference == "minorEastAsia"@
}

/// The font family of a run: the one that is set on it, or else the theme font
/// that it refers to.
pub open spec fn font_family(properties: RunProperties, theme: Option<Theme>) -> Option<String> {
    if properties.font_ascii is Some {
        properties.font_ascii
    } else {
        match (properties.font_ascii_theme, theme) {
            (Some(reference), Some(theme)) => if names_major_font(reference@) {
                theme.major_font
            } else if names_minor_font(reference@) {
                theme.minor_font
            } else {
                None
            },
            _ => None,
        }
    }
}

/// The font family of a run, considering the theme fonts.
///
/// A family that is set on the run comes first, then the theme font, then none.
pub fn resolve_font_family(properties: &RunProperties, theme: &Option<Theme>) -> (family: Option<
    String,
>)
    ensures
        family == font_family(*properties, *theme),
{
    if properties.font_ascii.is_some() {
        return properties.font_ascii.clone();
    }
    if let Some(reference) = &properties.font_ascii_theme {
        if let Some(fonts) = theme {
            let name = reference.as_str();
            if str_eq(name, "majorAscii") || str_eq(name, "majorHAnsi") || str_eq(name, "majorBidi")
                || str_eq(name, "majorEastAsia") {
                return fonts.major_font.clone();
            }
            if str_eq(name, "minorAscii") || str_eq(name, "minorHAnsi") || str_eq(name, "minorBidi")
                || str_eq(name, "minorEastAsia") {
                return fonts.minor_font.clone();
            }
        }
    }
    None
}

/// A font size, or the default one.
pub open spec fn size_or_default(sz: Option<HalfPoint>) -> HalfPoint {
    match sz {
        Some(size) => size,
        None => HalfPoint(DEFAULT_HALF_POINTS),
    }
}

/// A font size, or the default one.
pub fn size_or(sz: Option<HalfPoint>) -> (size: HalfPoint)
    ensures
        size == size_or_default(sz),
{
    match sz {
        Some(size) => size,
        None => HalfPoint(DEFAULT_HALF_POINTS),
    }
}

/// Where text stands against the line that it belongs to.
#[derive(Debug, Clone, Copy, PartialEq, Eq, Structural)]
pub enum VerticalPlace {
    Line,
    Superscript,
    Subscript,
}

/// Where a run stands against its line.
pub open spec fn vertical_place(vert_align: Option<String>) -> VerticalPlace {
    if crate::text::opt_view(vert_align) == Some("superscript"@) {
        VerticalPlace::Superscript
    } else if crate::text::opt_view(vert_align) == Some("subscript"@) {
        VerticalPlace::Subscript
    } else {
        VerticalPlace::Line
    }
}

fn place_of(vert_align: &Option<String>) -> (place: VerticalPlace)
    ensures
        place == vertical_place(*vert_align),
{
    match vert_align {
        Some(name) => if str_eq(name.as_str(), "superscript") {
            VerticalPlace::Superscript
        } else if str_eq(name.as_str(), "subscript") {
            VerticalPlace::Subscript
        } else {
            VerticalPlace::Line
        },
        None => VerticalPlace::Line,
    }
}

/// The size that a run is set in: 58 percent of its own above or below the line.
pub open spec fn set_size(properties: RunProperties) -> int {
    let full = size_or_default(properties.sz).0 * crate::units::TEXT_UNITS_PER_HALF_POINT;
    if vertical_place(properties.vert_align) == VerticalPlace::Line {
        full
    } else {
        full * 58 / 100
    }
}

/// How far a run is raised: 33 percent of its size above the line, 14 percent
/// down below it, and its stated position on top.
pub open spec fn raise(properties: RunProperties) -> int {
    let full = size_or_default(properties.sz).0 * crate::units::TEXT_UNITS_PER_HALF_POINT;
    let shift = match vertical_place(properties.vert_align) {
        VerticalPlace::Line => 0,
        VerticalPlace::Superscript => full * 33 / 100,
        VerticalPlace::Subscript => -(full * 14 / 100),
    };
    shift + match properties.position {
        Some(position) => position * crate::units::TEXT_UNITS_PER_HALF_POINT,
        None => 0,
    }
}

/// The highlight of a run.
pub open spec fn run_highlight(properties: RunProperties) -> Option<Color> {
    match properties.highlight {
        Some(highlight) => crate::color::highlight_color(highlight),
        None => None,
    }
}

fn highlight_of(properties: &RunProperties) -> (highlight: Option<Color>)
    ensures
        highlight == run_highlight(*properties),
{
    match properties.highlight {
        Some(highlight) => highlight_to_color(highlight),
        None => None,
    }
}

/// How a tracked change is marked on the text that it encloses.
#[derive(Debug, Clone, Copy, PartialEq, Eq, Structural)]
pub struct ChangeMarks {
    pub underline: bool,
    pub strike: bool,
}

/// The underline of a run with change marks.
pub open spec fn marked_underline(
    properties: RunProperties,
    marks: ChangeMarks,
) -> Option<Underline> {
    if marks.underline {
        Some(Underline::Single)
    } else {
        crate::convert::underline_of(properties.underline)
    }
}

fn underline_with(properties: &RunProperties, marks: ChangeMarks) -> (shown: Option<Underline>)
    ensures
        shown == marked_underline(*properties, marks),
{
    if marks.underline {
        Some(Underline::Single)
    } else {
        underline(properties.underline)
    }
}

/// How the text of a run looks.
pub open spec fn text_style(
    properties: RunProperties,
    theme: Option<Theme>,
    marks: ChangeMarks,
    font: usize,
    hyperlink_url: Option<String>,
) -> TextStyle {
    TextStyle {
        font,
        size: TextUnit(set_size(properties) as i64),
        color: crate::color::run_color(properties, theme),
        underline: marked_underline(properties, marks),
        strike: marks.strike || is_on(properties.strike),
        dstrike: is_on(properties.dstrike),
        highlight: run_highlight(properties),
        baseline_offset: TextUnit(raise(properties) as i64),
        spacing: properties.spacing,
        hyperlink_url,
    }
}

/// The size that a run is set in.
fn size_of(properties: &RunProperties) -> (size: i64)
    ensures
        size == set_size(*properties),
        size % 100 == 0,
        0 <= size <= 0x4000_0000_0000,
{
    let full: i64 = size_or(properties.sz).text_units().0;
    match place_of(&properties.vert_align) {
        VerticalPlace::Line => full,
        _ => full * 58 / 100,
    }
}

/// How far a run is raised.
fn raise_of(properties: &RunProperties) -> (distance: i64)
    ensures
        distance == raise(*properties),
{
    let full: i64 = size_or(properties.sz).text_units().0;
    let shift: i64 = match place_of(&properties.vert_align) {
        VerticalPlace::Line => 0,
        VerticalPlace::Superscript => full * 33 / 100,
        VerticalPlace::Subscript => -(full * 14 / 100),
    };
    let extra: i64 = match properties.position {
        Some(position) => position as i64 * crate::units::TEXT_UNITS_PER_HALF_POINT,
        None => 0,
    };
    shift + extra
}

/// How the text of a run looks.
pub fn run_style(
    properties: &RunProperties,
    theme: &Option<Theme>,
    marks: ChangeMarks,
    font: usize,
    hyperlink_url: Option<String>,
) -> (style: TextStyle)
    ensures
        style == text_style(*properties, *theme, marks, font, hyperlink_url),
        style.size.0 == set_size(*properties),
        style.baseline_offset.0 == raise(*properties),
        style.size.0 % 100 == 0,
        0 <= style.size.0 <= 0x4000_0000_0000,
{
    TextStyle {
        font,
        size: TextUnit(size_of(properties)),
        color: resolve_run_color(properties, theme),
        underline: underline_with(properties, marks),
        strike: marks.strike || on(properties.strike),
        dstrike: on(properties.dstrike),
        highlight: highlight_of(properties),
        baseline_offset: TextUnit(raise_of(properties)),
        spacing: properties.spacing,
        hyperlink_url,
    }
}

/// How the number of a note looks in a run: 58 percent of the size that the run
/// is set in, raised by 33 percent of it. Only a change that encloses the number
/// decorates it.
pub open spec fn note_style(
    properties: RunProperties,
    theme: Option<Theme>,
    marks: ChangeMarks,
    changed: bool,
    font: usize,
) -> TextStyle {
    let run = text_style(properties, theme, marks, font, None);
    TextStyle {
        font,
        size: TextUnit((set_size(properties) * 58 / 100) as i64),
        color: run.color,
        underline: if changed { run.underline } else { None },
        strike: changed && run.strike,
        dstrike: changed && run.dstrike,
        highlight: if changed { run.highlight } else { None },
        baseline_offset: TextUnit((set_size(properties) * 33 / 100) as i64),
        spacing: None,
        hyperlink_url: None,
    }
}

/// How the number of a note looks in a run.
pub fn note_number_style(
    properties: &RunProperties,
    theme: &Option<Theme>,
    marks: ChangeMarks,
    changed: bool,
    font: usize,
) -> (style: TextStyle)
    ensures
        style == note_style(*properties, *theme, marks, changed, font),
{
    let run = run_style(properties, theme, marks, font, None);
    let size: i64 = run.size.0;
    TextStyle {
        font,
        size: TextUnit(size * 58 / 100),
        color: run.color,
        underline: if changed { run.underline } else { None },
        strike: changed && run.strike,
        dstrike: changed && run.dstrike,
        highlight: if changed { run.highlight } else { None },
        baseline_offset: TextUnit(size * 33 / 100),
        spacing: None,
        hyperlink_url: None,
    }
}

/// The font that a run asks for.
pub open spec fn run_font(
    properties: RunProperties,
    theme: Option<Theme>,
    sample: Seq<char>,
) -> FontRequestView {
    FontRequestView {
        family: font_family(properties, theme),
        bold: is_on(properties.bold),
        italic: is_on(properties.italic),
        sample,
    }
}

/// The font that a run asks for.
pub fn font_request(
    properties: &RunProperties,
    theme: &Option<Theme>,
    sample: String,
) -> (request: FontRequest)
    ensures
        request@ == run_font(*properties, *theme, sample@),
{
    FontRequest {
        family: resolve_font_family(properties, theme),
        bold: on(properties.bold),
        italic: on(properties.italic),
        sample,
    }
}

/// A style without any decoration.
pub open spec fn plain_style(font: usize, size: TextUnit, color: Color) -> TextStyle {
    TextStyle {
        font,
        size,
        color,
        underline: None,
        strike: false,
        dstrike: false,
        highlight: None,
        baseline_offset: TextUnit(0),
        spacing: None,
        hyperlink_url: None,
    }
}

/// A style without any decoration.
pub fn undecorated(font: usize, size: TextUnit, color: Color) -> (style: TextStyle)
    ensures
        style == plain_style(font, size, color),
{
    TextStyle {
        font,
        size,
        color,
        underline: None,
        strike: false,
        dstrike: false,
        highlight: None,
        baseline_offset: TextUnit(0),
        spacing: None,
        hyperlink_url: None,
    }
}

/// Change marks touch nothing but the underline and the strike: everything else
/// about a run looks as it does without them.
pub proof fn law_change_marks_only_decorate(
    properties: RunProperties,
    theme: Option<Theme>,
    marks: ChangeMarks,
    font: usize,
    hyperlink_url: Option<String>,
)
    ensures
        ({
            let marked = text_style(properties, theme, marks, font, hyperlink_url);
            let bare = text_style(
                properties,
                theme,
                ChangeMarks { underline: false, strike: false },
                font,
                hyperlink_url,
            );
            &&& marked == TextStyle { underline: marked.underline, strike: marked.strike, ..bare }
            &&& marks.underline ==> marked.underline == Some(Underline::Single)
            &&& !marks.underline ==> marked.underline == bare.underline
            &&& marked.strike == (marks.strike || bare.strike)
        }),
{
}

} // verus!
