//! Where every property of a paragraph and of a run comes from, one by one.

use vstd::prelude::*;

use crate::color::Color;
use crate::convert::{Align, LineHeight, LineSpacing, TabAlign, Underline};
use crate::document::{
    HighlightColor, Justification, LayoutInput, NumberingLevel, Paragraph, ParagraphFormat,
    RunProperties, TabKind, Theme, UnderlineKind,
};
use crate::style::ChangeMarks;
use crate::units::{Emu, Twips};

verus! {

/// Whether a property has the value that is set directly, or, where none is, the
/// value that the list level sets, or, where neither is, the value of the style.
pub open spec fn is_closest<T>(
    value: Option<T>,
    direct: Option<T>,
    level: Option<T>,
    style: Option<T>,
) -> bool {
    &&& direct is Some ==> value == direct
    &&& direct is None && level is Some ==> value == level
    &&& direct is None && level is None ==> value == style
}

/// Whether every property of a paragraph format is the closest one.
pub open spec fn every_property_is_closest(
    format: ParagraphFormat,
    direct: ParagraphFormat,
    level: ParagraphFormat,
    style: ParagraphFormat,
) -> bool {
    &&& is_closest(format.jc, direct.jc, level.jc, style.jc)
    &&& is_closest(format.space_before, direct.space_before, level.space_before, style.space_before)
    &&& is_closest(format.space_after, direct.space_after, level.space_after, style.space_after)
    &&& is_closest(format.line_spacing, direct.line_spacing, level.line_spacing, style.line_spacing)
    &&& is_closest(format.line_rule, direct.line_rule, level.line_rule, style.line_rule)
    &&& is_closest(format.ind_left, direct.ind_left, level.ind_left, style.ind_left)
    &&& is_closest(format.ind_right, direct.ind_right, level.ind_right, style.ind_right)
    &&& is_closest(
        format.ind_first_line,
        direct.ind_first_line,
        level.ind_first_line,
        style.ind_first_line,
    )
    &&& is_closest(format.ind_hanging, direct.ind_hanging, level.ind_hanging, style.ind_hanging)
    &&& is_closest(format.keep_next, direct.keep_next, level.keep_next, style.keep_next)
    &&& is_closest(format.keep_lines, direct.keep_lines, level.keep_lines, style.keep_lines)
    &&& is_closest(
        format.page_break_before,
        direct.page_break_before,
        level.page_break_before,
        style.page_break_before,
    )
    &&& is_closest(
        format.widow_control,
        direct.widow_control,
        level.widow_control,
        style.widow_control,
    )
    &&& is_closest(format.borders, direct.borders, level.borders, style.borders)
    &&& is_closest(format.tabs, direct.tabs, level.tabs, style.tabs)
    &&& is_closest(format.shading, direct.shading, level.shading, style.shading)
    &&& is_closest(format.num_id, direct.num_id, level.num_id, style.num_id)
    &&& is_closest(format.num_ilvl, direct.num_ilvl, level.num_ilvl, style.num_ilvl)
}

/// Whether a format sets nothing.
pub open spec fn sets_nothing(format: ParagraphFormat) -> bool {
    &&& format.jc is None
    &&& format.space_before is None
    &&& format.space_after is None
    &&& format.line_spacing is None
    &&& format.line_rule is None
    &&& format.ind_left is None
    &&& format.ind_right is None
    &&& format.ind_first_line is None
    &&& format.ind_hanging is None
    &&& format.keep_next is None
    &&& format.keep_lines is None
    &&& format.page_break_before is None
    &&& format.widow_control is None
    &&& format.borders is None
    &&& format.tabs is None
    &&& format.shading is None
    &&& format.num_id is None
    &&& format.num_ilvl is None
}

/// Merging a format over another keeps every property that the upper one sets and
/// every other property of the lower one.
pub proof fn law_merging_keeps_what_is_set(below: ParagraphFormat, direct: ParagraphFormat)
    ensures
        ({
            let merged = crate::properties::merged_format(below, direct);
            let none = crate::document::unset_format();
            &&& sets_nothing(none)
            &&& every_property_is_closest(merged, direct, none, below)
        }),
{
}

/// Whether `direct` is what is set on a paragraph directly.
pub open spec fn is_direct(paragraph: Paragraph, direct: ParagraphFormat) -> bool {
    match paragraph.properties {
        Some(properties) => direct == properties.format,
        None => sets_nothing(direct),
    }
}

/// Whether a numbering level is the one of a paragraph: that of its list and of
/// its indent, which is the outermost one where none is stated.
pub open spec fn is_level_of(
    level: NumberingLevel,
    direct: ParagraphFormat,
    style: ParagraphFormat,
) -> bool {
    &&& direct.num_id is Some ==> Some(level.num_id) == direct.num_id
    &&& direct.num_id is None ==> Some(level.num_id) == style.num_id
    &&& direct.num_ilvl is Some ==> Some(level.ilvl) == direct.num_ilvl
    &&& direct.num_ilvl is None && style.num_ilvl is Some ==> Some(level.ilvl) == style.num_ilvl
    &&& direct.num_ilvl is None && style.num_ilvl is None ==> level.ilvl == 0
}

/// Every property of a paragraph that its list level and its style share out: where
/// the paragraph sets it directly, it has that value; where it does not and the
/// level of its list does, it has the value of the level; and otherwise it has the
/// value of the style.
pub proof fn law_properties_come_from_the_closest_level(
    input: LayoutInput,
    paragraph: Paragraph,
    direct: ParagraphFormat,
    levels: Seq<NumberingLevel>,
    l: int,
)
    requires
        is_direct(paragraph, direct),
        input.numbering is Some,
        levels == input.numbering->Some_0@,
        0 <= l < levels.len(),
        is_level_of(levels[l], direct, paragraph.style),
        forall|m: int| 0 <= m < l ==> !is_level_of(#[trigger] levels[m], direct, paragraph.style),
    ensures
        every_property_is_closest(
            crate::paragraph::effective_format(input, paragraph),
            direct,
            levels[l].format,
            paragraph.style,
        ),
{
    let number = crate::paragraph::list_number(paragraph);
    let ilvl = crate::paragraph::list_level(paragraph);
    assert(number == Some(levels[l].num_id));
    let holds = crate::paragraph::is_level(levels[l].num_id, ilvl);
    crate::text::lemma_first_from(levels, holds, 0);
    assert(holds(levels[l]));
    let found = crate::text::first_where(levels, holds);
    if let Some(f) = found {
        assert(holds(levels[f]));
        assert(is_level_of(levels[f], direct, paragraph.style));
        assert(f == l);
    }
    assert(crate::paragraph::level_format(input, paragraph) == Some(levels[l].format));
    let leveled = crate::properties::merged_format(paragraph.style, levels[l].format);
    law_merging_keeps_what_is_set(paragraph.style, levels[l].format);
    law_merging_keeps_what_is_set(leveled, direct);
}

/// A paragraph without a list level has what is set on it directly, and otherwise
/// what its style sets.
pub proof fn law_properties_without_a_level_come_from_the_style(
    input: LayoutInput,
    paragraph: Paragraph,
    direct: ParagraphFormat,
    none: ParagraphFormat,
)
    requires
        is_direct(paragraph, direct),
        sets_nothing(none),
        match input.numbering {
            Some(levels) => forall|m: int|
                0 <= m < levels@.len() ==> !is_level_of(
                    #[trigger] levels@[m],
                    direct,
                    paragraph.style,
                ),
            None => true,
        },
    ensures
        every_property_is_closest(
            crate::paragraph::effective_format(input, paragraph),
            direct,
            none,
            paragraph.style,
        ),
{
    if let (Some(num_id), Some(levels)) = (
        crate::paragraph::list_number(paragraph),
        input.numbering,
    ) {
        let ilvl = crate::paragraph::list_level(paragraph);
        let holds = crate::paragraph::is_level(num_id, ilvl);
        crate::text::lemma_first_from(levels@, holds, 0);
        if let Some(f) = crate::text::first_where(levels@, holds) {
            assert(holds(levels@[f]));
            assert(is_level_of(levels@[f], direct, paragraph.style));
        }
    }
    assert(crate::paragraph::level_format(input, paragraph) is None);
    law_merging_keeps_what_is_set(paragraph.style, direct);
}

/// Whether a length is the stated one, or zero where none is.
pub open spec fn is_length(length: Twips, stated: Option<Twips>) -> bool {
    match stated {
        Some(value) => length == value,
        None => length.0 == 0,
    }
}

/// Whether an alignment is the one that a justification asks for.
pub open spec fn is_alignment(align: Option<Align>, stated: Option<Justification>) -> bool {
    match stated {
        None => align is None,
        Some(value) => align is Some && ((align->Some_0 is Start) == (value is Start
            || value is Left)) && ((align->Some_0 is End) == (value is End || value is Right)) && ((
        align->Some_0 is Center) == (value is Center)) && ((align->Some_0 is Justify) == (
        value is Both)) && ((align->Some_0 is Distribute) == (value is Distribute)),
    }
}

/// The layout of a paragraph has the measures that its properties state: each
/// indent and each distance, its alignment, its borders, its shading, whether it
/// is kept together, and whether it begins a page.
pub proof fn law_a_layout_has_the_stated_measures(
    input: LayoutInput,
    paragraph: Paragraph,
    width: Emu,
)
    ensures
        ({
            let stated = crate::paragraph::effective_format(input, paragraph);
            let block = crate::paragraph::laid_out(input, paragraph, width).0;
            &&& block.params.available_width == width
            &&& is_length(block.params.ind_left, stated.ind_left)
            &&& is_length(block.params.ind_right, stated.ind_right)
            &&& is_length(block.params.ind_first_line, stated.ind_first_line)
            &&& is_length(block.params.ind_hanging, stated.ind_hanging)
            &&& is_alignment(block.params.jc, stated.jc)
            &&& block.params.wrap
            &&& block.params.default_tab_interval.0 == 720
            &&& is_length(block.format.ind_left, stated.ind_left)
            &&& is_length(block.format.ind_right, stated.ind_right)
            &&& is_length(block.format.space_before, stated.space_before)
            &&& is_length(block.format.space_after, stated.space_after)
            &&& is_alignment(block.format.jc, stated.jc)
            &&& block.format.borders == stated.borders
            &&& block.format.keep_next == (stated.keep_next == Some(true))
            &&& block.format.keep_lines == (stated.keep_lines == Some(true))
            &&& block.format.page_break_before == (stated.page_break_before == Some(true))
            &&& block.format.widow_control == (stated.widow_control != Some(false))
            &&& match stated.shading {
                Some(Some(fill)) => if fill@ == "auto"@ {
                    block.format.shading is None
                } else {
                    block.format.shading == Some(Color::Hex(fill))
                },
                _ => block.format.shading is None,
            }
            &&& stated.tabs is None ==> block.params.tab_stops.len() == 0
            &&& stated.tabs is Some ==> block.params.tab_stops == crate::convert::tab_stops_of(
                stated.tabs->Some_0@,
            )
        }),
{
}

/// The spacing between lines and their heights are those that the line rule asks
/// for, and Korean words stay whole exactly under the rule `font-natural`.
pub proof fn law_line_rules_are_kept(input: LayoutInput, paragraph: Paragraph, width: Emu)
    ensures
        ({
            let stated = crate::paragraph::effective_format(input, paragraph);
            let block = crate::paragraph::laid_out(input, paragraph, width).0;
            let rule = match stated.line_rule {
                Some(rule) => rule@,
                None => Seq::empty(),
            };
            &&& block.params.hangul_word_wrap == (rule == "font-natural"@)
            &&& match stated.line_spacing {
                None => block.params.line_spacing is Single && block.format.line_height == (
                if rule == "font-natural"@ {
                    LineHeight::Untouched
                } else {
                    LineHeight::Glyphs
                }),
                Some(spacing) => if rule == "font-natural"@ {
                    block.params.line_spacing is Single && block.format.line_height
                        is Untouched
                } else if rule == "exact"@ {
                    block.params.line_spacing == LineSpacing::Exact(spacing)
                        && block.format.line_height == LineHeight::Exact(spacing)
                } else if rule == "atLeast"@ {
                    block.params.line_spacing == LineSpacing::AtLeast(spacing)
                        && block.format.line_height == LineHeight::AtLeast(spacing)
                } else {
                    block.params.line_spacing == LineSpacing::Multiple(spacing.0)
                        && block.format.line_height == LineHeight::Multiple(spacing.0)
                },
            }
        }),
{
    reveal_strlit("font-natural");
    reveal_strlit("exact");
    reveal_strlit("atLeast");
    assert("font-natural"@.len() == 12);
    assert("exact"@.len() == 5);
    assert("atLeast"@.len() == 7);
}

/// Whether text is set against a tab stop as its definition asks.
pub open spec fn is_tab_align(align: TabAlign, kind: TabKind) -> bool {
    &&& (align is Left) == (kind is Left)
    &&& (align is Center) == (kind is Center)
    &&& (align is Right) == (kind is Right)
    &&& (align is Decimal) == (kind is Decimal || kind is Num)
    &&& (align is Bar) == (kind is Bar)
}

/// How many of the first `n` tab stops clear nothing.
pub open spec fn stops_before(values: Seq<crate::document::TabDefinition>, n: nat) -> nat
    decreases n,
{
    if n == 0 {
        0
    } else {
        stops_before(values, (n - 1) as nat) + if values[n - 1].val is Clear {
            0nat
        } else {
            1nat
        }
    }
}

proof fn lemma_tab_stops(values: Seq<crate::document::TabDefinition>, i: int, n: nat)
    requires
        n <= values.len(),
    ensures
        ({
            let stops = crate::convert::tab_stops_of(values.take(n as int));
            let k = stops_before(values, i as nat) as int;
            &&& stops.len() == stops_before(values, n)
            &&& 0 <= i < n && !(values[i].val is Clear) ==> k < stops.len() && stops[k].pos
                == values[i].pos && stops[k].leader == values[i].leader && is_tab_align(
                stops[k].align,
                values[i].val,
            )
        }),
    decreases n,
{
    if n > 0 {
        lemma_tab_stops(values, i, (n - 1) as nat);
        assert(values.take(n as int).drop_last() =~= values.take(n - 1));
        assert(values.take(n as int).last() == values[n - 1]);
    }
}

/// The tab stops of a line are the defined ones that clear nothing, in their
/// order, each at its own position and with its own leader, and no others.
pub proof fn law_tab_stops_keep_their_positions(
    values: Seq<crate::document::TabDefinition>,
    i: int,
)
    requires
        0 <= i < values.len(),
    ensures
        ({
            let stops = crate::convert::tab_stops_of(values);
            let k = stops_before(values, i as nat) as int;
            &&& stops.len() == stops_before(values, values.len())
            &&& !(values[i].val is Clear) ==> k < stops.len() && stops[k].pos == values[i].pos
                && stops[k].leader == values[i].leader && is_tab_align(
                stops[k].align,
                values[i].val,
            )
        }),
{
    lemma_tab_stops(values, i, values.len());
    assert(values.take(values.len() as int) =~= values);
}

/// Whether a property has the value that is set on the run, or, where none is, the
/// value of its styles.
pub open spec fn is_own_or_styled<T>(
    value: Option<T>,
    direct: Option<T>,
    style: Option<T>,
) -> bool {
    &&& direct is Some ==> value == direct
    &&& direct is None ==> value == style
}

/// Every property of a run that has properties of its own is the one that is set
/// on it, and, where none is set, the one of its styles.
pub proof fn law_run_properties_come_from_the_run_or_its_styles(
    style: RunProperties,
    direct: RunProperties,
)
    ensures
        crate::properties::effective_run(style, None) == style,
        ({
            let effective = crate::properties::effective_run(style, Some(direct));
            &&& is_own_or_styled(effective.font_ascii, direct.font_ascii, style.font_ascii)
            &&& is_own_or_styled(
                effective.font_ascii_theme,
                direct.font_ascii_theme,
                style.font_ascii_theme,
            )
            &&& is_own_or_styled(effective.bold, direct.bold, style.bold)
            &&& is_own_or_styled(effective.italic, direct.italic, style.italic)
            &&& is_own_or_styled(effective.underline, direct.underline, style.underline)
            &&& is_own_or_styled(effective.strike, direct.strike, style.strike)
            &&& is_own_or_styled(effective.dstrike, direct.dstrike, style.dstrike)
            &&& is_own_or_styled(effective.sz, direct.sz, style.sz)
            &&& is_own_or_styled(effective.color, direct.color, style.color)
            &&& is_own_or_styled(effective.color_theme, direct.color_theme, style.color_theme)
            &&& is_own_or_styled(effective.highlight, direct.highlight, style.highlight)
            &&& is_own_or_styled(effective.caps, direct.caps, style.caps)
            &&& is_own_or_styled(effective.vert_align, direct.vert_align, style.vert_align)
            &&& is_own_or_styled(effective.spacing, direct.spacing, style.spacing)
            &&& is_own_or_styled(effective.position, direct.position, style.position)
            &&& is_own_or_styled(effective.vanish, direct.vanish, style.vanish)
        }),
{
}

/// Whether text properties put text on the line, above it or below it.
pub open spec fn is_raised_as(properties: RunProperties, name: Seq<char>) -> bool {
    match properties.vert_align {
        Some(place) => place@ == name,
        None => false,
    }
}

/// The size of text in half points: the stated one, or eleven points.
pub open spec fn half_points(properties: RunProperties) -> int {
    match properties.sz {
        Some(size) => size.0 as int,
        None => 22,
    }
}

/// The size and the height of text: on the line it has its own size, above or
/// below it 58 percent of it; it is raised by 33 percent of its size, lowered by 14
/// percent, or left on the line, and then moved by its stated position.
pub proof fn law_text_has_its_stated_size_and_height(
    properties: RunProperties,
    theme: Option<Theme>,
    marks: ChangeMarks,
    font: usize,
    url: Option<String>,
)
    ensures
        ({
            let style = crate::style::text_style(properties, theme, marks, font, url);
            let full = half_points(properties) * 10000;
            let moved = match properties.position {
                Some(position) => position * 10000,
                None => 0,
            };
            if is_raised_as(properties, "superscript"@) {
                100 * style.size.0 == 58 * full && 100 * (style.baseline_offset.0 - moved) == 33
                    * full
            } else if is_raised_as(properties, "subscript"@) {
                100 * style.size.0 == 58 * full && 100 * (style.baseline_offset.0 - moved) == -14
                    * full
            } else {
                style.size.0 == full && style.baseline_offset.0 == moved
            }
        }),
{
    let full = half_points(properties) * 10000;
    assert(0 <= half_points(properties) <= u32::MAX);
    assert(full * 58 % 100 == 0 && full * 33 % 100 == 0 && full * 14 % 100 == 0);
    reveal_strlit("superscript");
    reveal_strlit("subscript");
    assert("superscript"@.len() == 11);
    assert("subscript"@.len() == 9);
}

/// Whether an underline is the stated one.
pub open spec fn is_underline(shown: Option<Underline>, stated: Option<UnderlineKind>) -> bool {
    match stated {
        None => shown is None,
        Some(kind) => if kind is NoUnderline {
            shown is None
        } else {
            &&& shown is Some
            &&& (shown->Some_0 is Single) == (kind is Single)
            &&& (shown->Some_0 is Words) == (kind is Words)
            &&& (shown->Some_0 is Double) == (kind is Double)
            &&& (shown->Some_0 is Thick) == (kind is Thick)
            &&& (shown->Some_0 is Dotted) == (kind is Dotted)
            &&& (shown->Some_0 is Dash) == (kind is Dash)
            &&& (shown->Some_0 is DotDash) == (kind is DotDash)
            &&& (shown->Some_0 is DotDotDash) == (kind is DotDotDash)
            &&& (shown->Some_0 is Wave) == (kind is Wave)
        },
    }
}

/// The decorations, the spacing, the link and the font of text are those that its
/// properties and its change marks state.
pub proof fn law_text_has_its_stated_decorations(
    properties: RunProperties,
    theme: Option<Theme>,
    marks: ChangeMarks,
    font: usize,
    url: Option<String>,
)
    ensures
        ({
            let style = crate::style::text_style(properties, theme, marks, font, url);
            &&& style.font == font
            &&& style.hyperlink_url == url
            &&& style.spacing == properties.spacing
            &&& style.strike == (marks.strike || properties.strike == Some(true))
            &&& style.dstrike == (properties.dstrike == Some(true))
            &&& marks.underline ==> style.underline == Some(Underline::Single)
            &&& !marks.underline ==> is_underline(style.underline, properties.underline)
            &&& (style.highlight is None) == (properties.highlight is None
                || properties.highlight->Some_0 is NoHighlight)
            &&& properties.highlight is Some ==> style.highlight == crate::color::highlight_color(
                properties.highlight->Some_0,
            )
        }),
{
}

/// The color of text: the one that is set on it, unless that is automatic; or else
/// the one that the theme gives the name it states; or else black.
pub proof fn law_text_has_its_stated_color(
    properties: RunProperties,
    theme: Option<Theme>,
    marks: ChangeMarks,
    font: usize,
    url: Option<String>,
    t: int,
)
    ensures
        ({
            let style = crate::style::text_style(properties, theme, marks, font, url);
            let literal = properties.color is Some && properties.color->Some_0@ != "auto"@;
            &&& literal ==> style.color == Color::Hex(properties.color->Some_0)
            &&& !literal && (properties.color_theme is None || theme is None) ==> style.color == (
            Color::Rgb { red: 0, green: 0, blue: 0 })
            &&& !literal && properties.color_theme is Some && theme is Some && 0 <= t
                < theme->Some_0.colors@.len() && theme->Some_0.colors@[t].name@
                == properties.color_theme->Some_0@ && (forall|u: int|
                0 <= u < t ==> (#[trigger] theme->Some_0.colors@[u]).name@
                    != properties.color_theme->Some_0@) ==> style.color == Color::Hex(
                theme->Some_0.colors@[t].hex,
            )
            &&& !literal && properties.color_theme is Some && theme is Some && (forall|u: int|
                0 <= u < theme->Some_0.colors@.len() ==> (
                #[trigger] theme->Some_0.colors@[u]).name@ != properties.color_theme->Some_0@)
                ==> style.color == (Color::Rgb { red: 0, green: 0, blue: 0 })
        }),
{
    if let (Some(name), Some(palette)) = (properties.color_theme, theme) {
        let holds = crate::color::has_name(name@);
        crate::text::lemma_first_from(palette.colors@, holds, 0);
        if 0 <= t < palette.colors@.len() && palette.colors@[t].name@ == name@ && (forall|u: int|
            0 <= u < t ==> (#[trigger] palette.colors@[u]).name@ != name@) {
            assert(holds(palette.colors@[t]));
            let found = crate::text::first_where(palette.colors@, holds)->Some_0;
            assert(holds(palette.colors@[found]));
            assert(found == t);
        }
        if let Some(found) = crate::text::first_where(palette.colors@, holds) {
            assert(holds(palette.colors@[found]));
            assert(palette.colors@[found].name@ == name@);
        }
    }
}

/// The font of text: bold and italic only where it says so, and the family that is
/// set on it, or else the font of the theme for headings or for body text that it
/// refers to.
pub proof fn law_text_asks_for_its_stated_font(
    properties: RunProperties,
    theme: Option<Theme>,
    sample: Seq<char>,
)
    ensures
        ({
            let font = crate::style::run_font(properties, theme, sample);
            &&& font.sample == sample
            &&& font.bold == (properties.bold == Some(true))
            &&& font.italic == (properties.italic == Some(true))
            &&& properties.font_ascii is Some ==> font.family == properties.font_ascii
            &&& properties.font_ascii is None && (theme is None
                || properties.font_ascii_theme is None) ==> font.family is None
            &&& properties.font_ascii is None && theme is Some
                && properties.font_ascii_theme is Some ==> {
                let reference = properties.font_ascii_theme->Some_0@;
                let major = reference == "majorAscii"@ || reference == "majorHAnsi"@ || reference
                    == "majorBidi"@ || reference == "majorEastAsia"@;
                let minor = reference == "minorAscii"@ || reference == "minorHAnsi"@ || reference
                    == "minorBidi"@ || reference == "minorEastAsia"@;
                &&& major ==> font.family == theme->Some_0.major_font
                &&& minor ==> font.family == theme->Some_0.minor_font
                &&& !major && !minor ==> font.family is None
            }
        }),
{
    reveal_strlit("majorAscii");
    reveal_strlit("majorHAnsi");
    reveal_strlit("majorBidi");
    reveal_strlit("majorEastAsia");
    reveal_strlit("minorAscii");
    reveal_strlit("minorHAnsi");
    reveal_strlit("minorBidi");
    reveal_strlit("minorEastAsia");
    assert("majorAscii"@[1] == 'a');
    assert("majorHAnsi"@[1] == 'a');
    assert("majorBidi"@[1] == 'a');
    assert("majorEastAsia"@[1] == 'a');
    assert("minorAscii"@[1] == 'i');
    assert("minorHAnsi"@[1] == 'i');
    assert("minorBidi"@[1] == 'i');
    assert("minorEastAsia"@[1] == 'i');
}

/// Colors that are dark versions of others: a dark highlight has a share of its
/// full color in the same channels and nothing in the others, a gray has the same
/// in all, and only the absence of a highlight has no color.
pub proof fn law_dark_highlights_are_shares_of_full_ones(highlight: HighlightColor)
    ensures
        (crate::color::highlight_color(highlight) is None) == (highlight is NoHighlight),
        is_share(HighlightColor::Blue, HighlightColor::DarkBlue, 545),
        is_share(HighlightColor::Cyan, HighlightColor::DarkCyan, 545),
        is_share(HighlightColor::Magenta, HighlightColor::DarkMagenta, 545),
        is_share(HighlightColor::Red, HighlightColor::DarkRed, 545),
        is_share(HighlightColor::Yellow, HighlightColor::DarkYellow, 545),
        is_share(HighlightColor::Green, HighlightColor::DarkGreen, 392),
        is_share(HighlightColor::White, HighlightColor::LightGray, 827),
        is_share(HighlightColor::White, HighlightColor::DarkGray, 663),
        is_share(HighlightColor::White, HighlightColor::Black, 0),
        is_sum(HighlightColor::Red, HighlightColor::Green, HighlightColor::Yellow),
        is_sum(HighlightColor::Red, HighlightColor::Blue, HighlightColor::Magenta),
        is_sum(HighlightColor::Green, HighlightColor::Blue, HighlightColor::Cyan),
        is_sum(HighlightColor::Yellow, HighlightColor::Blue, HighlightColor::White),
        crate::color::highlight_color(HighlightColor::Red) == Some(
            Color::Rgb { red: 1000, green: 0, blue: 0 },
        ),
        crate::color::highlight_color(HighlightColor::Green) == Some(
            Color::Rgb { red: 0, green: 1000, blue: 0 },
        ),
        crate::color::highlight_color(HighlightColor::Blue) == Some(
            Color::Rgb { red: 0, green: 0, blue: 1000 },
        ),
{
}

/// Whether one highlight has a number of thousandths of another in each channel.
pub open spec fn is_share(full: HighlightColor, part: HighlightColor, share: int) -> bool {
    match (crate::color::highlight_color(full), crate::color::highlight_color(part)) {
        (
            Some(Color::Rgb { red, green, blue }),
            Some(Color::Rgb { red: r, green: g, blue: b }),
        ) => 1000 * r == share * red && 1000 * g == share * green && 1000 * b == share * blue,
        _ => false,
    }
}

/// Whether one highlight is the light of two others together.
pub open spec fn is_sum(x: HighlightColor, y: HighlightColor, both: HighlightColor) -> bool {
    match (
        crate::color::highlight_color(x),
        crate::color::highlight_color(y),
        crate::color::highlight_color(both),
    ) {
        (
            Some(Color::Rgb { red, green, blue }),
            Some(Color::Rgb { red: r, green: g, blue: b }),
            Some(Color::Rgb { red: r2, green: g2, blue: b2 }),
        ) => r2 == red + r && g2 == green + g && b2 == blue + b,
        _ => false,
    }
}

} // verus!
