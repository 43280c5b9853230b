//! From the values of a Word document to the values that lines are built from.

use vstd::prelude::*;

use crate::document::{
    Justification, ParagraphFormat, TabDefinition, TabFill, TabKind, UnderlineKind,
};
use crate::text::str_eq;
use crate::units::{Emu, Twips};

verus! {

/// How lines are set between their margins.
#[derive(Debug, Clone, Copy, PartialEq, Eq, Structural)]
pub enum Align {
    Start,
    Center,
    End,
    Justify,
    Distribute,
}

/// The direction in which a paragraph is read.
#[derive(Debug, Clone, Copy, PartialEq, Eq, Structural)]
pub enum TextDirection {
    LeftToRight,
    RightToLeft,
}

/// How text is set against a tab stop in a line.
#[derive(Debug, Clone, Copy, PartialEq, Eq, Structural)]
pub enum TabAlign {
    Left,
    Center,
    Right,
    Decimal,
    Bar,
}

/// A tab stop of a line.
#[derive(Debug, Clone, Copy, PartialEq, Eq, Structural)]
pub struct TabStop {
    pub pos: Twips,
    pub align: TabAlign,
    pub leader: Option<TabFill>,
}

/// How text is underlined.
#[derive(Debug, Clone, Copy, PartialEq, Eq, Structural)]
pub enum Underline {
    Single,
    Words,
    Double,
    Thick,
    Dotted,
    Dash,
    DotDash,
    DotDotDash,
    Wave,
}

/// The distance between lines.
#[derive(Debug, Clone, Copy, PartialEq, Eq, Structural)]
pub enum LineSpacing {
    Single,
    /// A multiple of the natural height, in 240ths.
    Multiple(i32),
    Exact(Twips),
    AtLeast(Twips),
}

/// What becomes of the height of each line once the lines are broken.
#[derive(Debug, Clone, Copy, PartialEq, Eq, Structural)]
pub enum LineHeight {
    /// The height and the line gap stay as they are.
    Untouched,
    /// No line gap, and this height.
    Exact(Twips),
    /// No line gap, and the glyph height or this height, whichever is more.
    AtLeast(Twips),
    /// No line gap, and the glyph height times this many 240ths.
    Multiple(i32),
    /// No line gap, and the glyph height.
    Glyphs,
}

/// The measures that break a paragraph into lines.
#[derive(Debug, PartialEq)]
pub struct LineBreakParams {
    pub available_width: Emu,
    pub ind_left: Twips,
    pub ind_right: Twips,
    pub ind_first_line: Twips,
    pub ind_hanging: Twips,
    pub tab_stops: Vec<TabStop>,
    pub line_spacing: LineSpacing,
    pub jc: Option<Align>,
    pub wrap: bool,
    pub default_tab_interval: Twips,
    pub hangul_word_wrap: bool,
}

/// What [`LineBreakParams`] stand for.
pub struct LineBreakParamsView {
    pub available_width: Emu,
    pub ind_left: Twips,
    pub ind_right: Twips,
    pub ind_first_line: Twips,
    pub ind_hanging: Twips,
    pub tab_stops: Seq<TabStop>,
    pub line_spacing: LineSpacing,
    pub jc: Option<Align>,
    pub wrap: bool,
    pub default_tab_interval: Twips,
    pub hangul_word_wrap: bool,
}

impl View for LineBreakParams {
    type V = LineBreakParamsView;

    open spec fn view(&self) -> LineBreakParamsView {
        LineBreakParamsView {
            available_width: self.available_width,
            ind_left: self.ind_left,
            ind_right: self.ind_right,
            ind_first_line: self.ind_first_line,
            ind_hanging: self.ind_hanging,
            tab_stops: self.tab_stops@,
            line_spacing: self.line_spacing,
            jc: self.jc,
            wrap: self.wrap,
            default_tab_interval: self.default_tab_interval,
            hangul_word_wrap: self.hangul_word_wrap,
        }
    }
}

/// Half an inch in twips, the distance between tab stops that a paragraph does
/// not state.
pub const DEFAULT_TAB_TWIPS: i32 = 720;

/// The alignment that a justification stands for.
pub open spec fn align_of(value: Justification) -> Align {
    match value {
        Justification::Start => Align::Start,
        Justification::Left => Align::Start,
        Justification::Center => Align::Center,
        Justification::End => Align::End,
        Justification::Right => Align::End,
        Justification::Both => Align::Justify,
        Justification::Distribute => Align::Distribute,
    }
}

/// The alignment that a justification stands for, where there is one.
pub open spec fn alignment_of(value: Option<Justification>) -> Option<Align> {
    match value {
        Some(value) => Some(align_of(value)),
        None => None,
    }
}

/// The alignment that a justification stands for, where there is one.
pub fn alignment(value: Option<Justification>) -> (align: Option<Align>)
    ensures
        align == alignment_of(value),
{
    match value {
        None => None,
        Some(Justification::Start) | Some(Justification::Left) => Some(Align::Start),
        Some(Justification::Center) => Some(Align::Center),
        Some(Justification::End) | Some(Justification::Right) => Some(Align::End),
        Some(Justification::Both) => Some(Align::Justify),
        Some(Justification::Distribute) => Some(Align::Distribute),
    }
}

/// The other end of the line for `Start` and `End`, and every other alignment
/// itself.
pub open spec fn mirrored(align: Align) -> Align {
    match align {
        Align::Start => Align::End,
        Align::End => Align::Start,
        other => other,
    }
}

/// The alignment that a justification stands for in a paragraph that is read in
/// the given direction. Only the logical `Start` and `End` turn with it.
pub fn alignment_for_direction(
    value: Option<Justification>,
    direction: TextDirection,
) -> (align: Option<Align>)
    ensures
        align == match value {
            None => None,
            Some(value) => Some(
                if direction == TextDirection::RightToLeft && (value == Justification::Start
                    || value == Justification::End) {
                    mirrored(align_of(value))
                } else {
                    align_of(value)
                },
            ),
        },
{
    match value {
        None => None,
        Some(value) => match (value, direction) {
            (Justification::Start, TextDirection::RightToLeft) => Some(Align::End),
            (Justification::End, TextDirection::RightToLeft) => Some(Align::Start),
            _ => alignment(Some(value)),
        },
    }
}

/// The alignment of a tab stop. A stop that clears another has none.
pub open spec fn tab_align_of(kind: TabKind) -> Option<TabAlign> {
    match kind {
        TabKind::Left => Some(TabAlign::Left),
        TabKind::Center => Some(TabAlign::Center),
        TabKind::Right => Some(TabAlign::Right),
        TabKind::Decimal => Some(TabAlign::Decimal),
        TabKind::Num => Some(TabAlign::Decimal),
        TabKind::Bar => Some(TabAlign::Bar),
        TabKind::Clear => None,
    }
}

/// The tab stops of a line, in the order in which they are defined. A
/// definition that clears a stop gives none.
pub open spec fn tab_stops_of(values: Seq<TabDefinition>) -> Seq<TabStop>
    decreases values.len(),
{
    if values.len() == 0 {
        Seq::empty()
    } else {
        let before = tab_stops_of(values.drop_last());
        match tab_align_of(values.last().val) {
            Some(align) => before.push(
                (TabStop { pos: values.last().pos, align, leader: values.last().leader }),
            ),
            None => before,
        }
    }
}

/// The tab stops of a line, in the order in which they are defined.
pub fn tab_stops(values: &Vec<TabDefinition>) -> (stops: Vec<TabStop>)
    ensures
        stops@ == tab_stops_of(values@),
{
    let mut stops: Vec<TabStop> = Vec::new();
    let mut i: usize = 0;
    while i < values.len()
        invariant
            i <= values@.len(),
            stops@ == tab_stops_of(values@.subrange(0, i as int)),
        decreases values@.len() - i,
    {
        let value = values[i];
        proof {
            assert(values@.subrange(0, i + 1).drop_last() =~= values@.subrange(0, i as int));
        }
        let align = match value.val {
            TabKind::Left => Some(TabAlign::Left),
            TabKind::Center => Some(TabAlign::Center),
            TabKind::Right => Some(TabAlign::Right),
            TabKind::Decimal | TabKind::Num => Some(TabAlign::Decimal),
            TabKind::Bar => Some(TabAlign::Bar),
            TabKind::Clear => None,
        };
        if let Some(align) = align {
            stops.push(TabStop { pos: value.pos, align, leader: value.leader });
        }
        i += 1;
    }
    proof {
        assert(values@.subrange(0, i as int) =~= values@);
    }
    stops
}

/// The underline that a run shows.
pub open spec fn underline_of(value: Option<UnderlineKind>) -> Option<Underline> {
    match value {
        None => None,
        Some(UnderlineKind::NoUnderline) => None,
        Some(UnderlineKind::Single) => Some(Underline::Single),
        Some(UnderlineKind::Words) => Some(Underline::Words),
        Some(UnderlineKind::Double) => Some(Underline::Double),
        Some(UnderlineKind::Thick) => Some(Underline::Thick),
        Some(UnderlineKind::Dotted) => Some(Underline::Dotted),
        Some(UnderlineKind::Dash) => Some(Underline::Dash),
        Some(UnderlineKind::DotDash) => Some(Underline::DotDash),
        Some(UnderlineKind::DotDotDash) => Some(Underline::DotDotDash),
        Some(UnderlineKind::Wave) => Some(Underline::Wave),
    }
}

/// The underline that a run shows.
pub fn underline(value: Option<UnderlineKind>) -> (underline: Option<Underline>)
    ensures
        underline == underline_of(value),
{
    match value {
        None => None,
        Some(UnderlineKind::NoUnderline) => None,
        Some(UnderlineKind::Single) => Some(Underline::Single),
        Some(UnderlineKind::Words) => Some(Underline::Words),
        Some(UnderlineKind::Double) => Some(Underline::Double),
        Some(UnderlineKind::Thick) => Some(Underline::Thick),
        Some(UnderlineKind::Dotted) => Some(Underline::Dotted),
        Some(UnderlineKind::Dash) => Some(Underline::Dash),
        Some(UnderlineKind::DotDash) => Some(Underline::DotDash),
        Some(UnderlineKind::DotDotDash) => Some(Underline::DotDotDash),
        Some(UnderlineKind::Wave) => Some(Underline::Wave),
    }
}

/// Whether a paragraph states the line rule with this name.
pub open spec fn has_rule(properties: ParagraphFormat, rule: Seq<char>) -> bool {
    crate::text::opt_view(properties.line_rule) == Some(rule)
}

/// Whether a paragraph states the line rule with this name.
fn rule_is(properties: &ParagraphFormat, rule: &str) -> (stated: bool)
    ensures
        stated == has_rule(*properties, rule@),
{
    match &properties.line_rule {
        Some(line_rule) => str_eq(line_rule.as_str(), rule),
        None => false,
    }
}

/// The distance between the lines of a paragraph. The rule `font-natural`
/// keeps the natural height whatever distance is stated.
pub open spec fn line_spacing_of(properties: ParagraphFormat) -> LineSpacing {
    match properties.line_spacing {
        Some(spacing) => if has_rule(properties, "font-natural"@) {
            LineSpacing::Single
        } else if has_rule(properties, "exact"@) {
            LineSpacing::Exact(spacing)
        } else if has_rule(properties, "atLeast"@) {
            LineSpacing::AtLeast(spacing)
        } else {
            LineSpacing::Multiple(spacing.0)
        },
        None => LineSpacing::Single,
    }
}

/// The names of the line rules are different names.
proof fn lemma_rules_differ()
    ensures
        "font-natural"@ != "exact"@,
        "font-natural"@ != "atLeast"@,
        "exact"@ != "atLeast"@,
{
    reveal_strlit("font-natural");
    reveal_strlit("exact");
    reveal_strlit("atLeast");
    assert("font-natural"@.len() == 12);
    assert("exact"@.len() == 5);
    assert("atLeast"@.len() == 7);
}

/// The distance between the lines of a paragraph.
pub fn line_spacing(properties: &ParagraphFormat) -> (spacing: LineSpacing)
    ensures
        spacing == line_spacing_of(*properties),
{
    let natural = rule_is(properties, "font-natural");
    match properties.line_spacing {
        Some(spacing) => if natural {
            LineSpacing::Single
        } else if rule_is(properties, "exact") {
            LineSpacing::Exact(spacing)
        } else if rule_is(properties, "atLeast") {
            LineSpacing::AtLeast(spacing)
        } else {
            LineSpacing::Multiple(spacing.0)
        },
        None => LineSpacing::Single,
    }
}

/// What becomes of the height of each line of a paragraph.
pub open spec fn line_height_of(properties: ParagraphFormat) -> LineHeight {
    if has_rule(properties, "font-natural"@) {
        LineHeight::Untouched
    } else {
        match line_spacing_of(properties) {
            LineSpacing::Single => LineHeight::Glyphs,
            LineSpacing::Multiple(spacing) => LineHeight::Multiple(spacing),
            LineSpacing::Exact(height) => LineHeight::Exact(height),
            LineSpacing::AtLeast(height) => LineHeight::AtLeast(height),
        }
    }
}

/// What becomes of the height of each line of a paragraph.
pub fn line_height(properties: &ParagraphFormat) -> (height: LineHeight)
    ensures
        height == line_height_of(*properties),
{
    if rule_is(properties, "font-natural") {
        LineHeight::Untouched
    } else {
        match line_spacing(properties) {
            LineSpacing::Single => LineHeight::Glyphs,
            LineSpacing::Multiple(spacing) => LineHeight::Multiple(spacing),
            LineSpacing::Exact(height) => LineHeight::Exact(height),
            LineSpacing::AtLeast(height) => LineHeight::AtLeast(height),
        }
    }
}

/// A length that is zero where it is not stated.
pub open spec fn twips_or_zero(value: Option<Twips>) -> Twips {
    match value {
        Some(value) => value,
        None => Twips(0),
    }
}

/// A length that is zero where it is not stated.
pub fn or_zero(value: Option<Twips>) -> (length: Twips)
    ensures
        length == twips_or_zero(value),
{
    match value {
        Some(value) => value,
        None => Twips(0),
    }
}

/// The tab stops that a paragraph states.
pub open spec fn paragraph_tab_stops(properties: ParagraphFormat) -> Seq<TabStop> {
    match properties.tabs {
        Some(tabs) => tab_stops_of(tabs@),
        None => Seq::empty(),
    }
}

/// The measures that break a paragraph into lines of the given width. Lines are
/// always wrapped.
pub open spec fn line_params_of(
    properties: ParagraphFormat,
    available_width: Emu,
) -> LineBreakParamsView {
    LineBreakParamsView {
        available_width,
        ind_left: twips_or_zero(properties.ind_left),
        ind_right: twips_or_zero(properties.ind_right),
        ind_first_line: twips_or_zero(properties.ind_first_line),
        ind_hanging: twips_or_zero(properties.ind_hanging),
        tab_stops: paragraph_tab_stops(properties),
        line_spacing: line_spacing_of(properties),
        jc: alignment_of(properties.jc),
        wrap: true,
        default_tab_interval: Twips(DEFAULT_TAB_TWIPS),
        hangul_word_wrap: has_rule(properties, "font-natural"@),
    }
}

/// The measures that break a paragraph into lines of the given width.
pub fn line_break_params(
    properties: &ParagraphFormat,
    available_width: Emu,
) -> (params: LineBreakParams)
    ensures
        params@ == line_params_of(*properties, available_width),
{
    let tab_stops = match &properties.tabs {
        Some(tabs) => tab_stops(tabs),
        None => Vec::new(),
    };
    LineBreakParams {
        available_width,
        ind_left: or_zero(properties.ind_left),
        ind_right: or_zero(properties.ind_right),
        ind_first_line: or_zero(properties.ind_first_line),
        ind_hanging: or_zero(properties.ind_hanging),
        tab_stops,
        line_spacing: line_spacing(properties),
        jc: alignment(properties.jc),
        wrap: true,
        default_tab_interval: Twips(DEFAULT_TAB_TWIPS),
        hangul_word_wrap: rule_is(properties, "font-natural"),
    }
}

/// Under the rule `font-natural` the stated distance between lines has no
/// effect: lines are spaced singly and their heights stay as they are.
pub proof fn law_font_natural_ignores_the_stated_spacing(properties: ParagraphFormat)
    requires
        has_rule(properties, "font-natural"@),
    ensures
        line_spacing_of(properties) == LineSpacing::Single,
        line_height_of(properties) == LineHeight::Untouched,
{
}

/// Where the height of lines is restored, it follows the stated spacing, and
/// exactly one rule decides it.
pub proof fn law_line_height_follows_the_spacing(properties: ParagraphFormat)
    requires
        !has_rule(properties, "font-natural"@),
    ensures
        line_height_of(properties) == match properties.line_spacing {
            None => LineHeight::Glyphs,
            Some(spacing) => if has_rule(properties, "exact"@) {
                LineHeight::Exact(spacing)
            } else if has_rule(properties, "atLeast"@) {
                LineHeight::AtLeast(spacing)
            } else {
                LineHeight::Multiple(spacing.0)
            },
        },
        !(has_rule(properties, "exact"@) && has_rule(properties, "atLeast"@)),
{
    lemma_rules_differ();
}

} // verus!
