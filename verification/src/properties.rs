//! Inheritance of paragraph and run properties: what is set closer to the text
//! wins, one property at a time.

use std::rc::Rc;

use vstd::prelude::*;

use crate::document::{ParagraphFormat, RunProperties, TabDefinition};

verus! {

/// `Rc::clone`: another pointer to the same value.
#[verifier::external_body]
pub(crate) fn share<T>(shared: &Rc<T>) -> (other: Rc<T>)
    ensures
        other == *shared,
{
    shared.clone()
}

/// The closer setting of a property, or else the one below it.
pub open spec fn closer<T>(close: Option<T>, below: Option<T>) -> Option<T> {
    match close {
        Some(value) => Some(value),
        None => below,
    }
}

/// The closer setting of a property, or else the one below it.
fn closer_of<T: Copy>(close: Option<T>, below: Option<T>) -> (setting: Option<T>)
    ensures
        setting == closer(close, below),
{
    match close {
        Some(value) => Some(value),
        None => below,
    }
}

/// The closer setting of a text property, or else the one below it.
fn closer_text(close: &Option<String>, below: &Option<String>) -> (setting: Option<String>)
    ensures
        setting == closer(*close, *below),
{
    match close {
        Some(value) => Some(value.clone()),
        None => below.clone(),
    }
}

/// The closer tab stops, or else those below.
fn closer_tabs(
    close: &Option<Rc<Vec<TabDefinition>>>,
    below: &Option<Rc<Vec<TabDefinition>>>,
) -> (setting: Option<Rc<Vec<TabDefinition>>>)
    ensures
        setting == closer(*close, *below),
{
    match close {
        Some(value) => Some(share(value)),
        None => share_tabs(below),
    }
}

/// The closer shading, or else the one below it.
fn closer_shading(
    close: &Option<Option<String>>,
    below: &Option<Option<String>>,
) -> (setting: Option<Option<String>>)
    ensures
        setting == closer(*close, *below),
{
    match close {
        Some(value) => Some(value.clone()),
        None => copy_shading(below),
    }
}

proof fn lemma_closer<T>(a: Option<T>, b: Option<T>, c: Option<T>)
    ensures
        closer(c, closer(b, a)) == closer(closer(c, b), a),
        closer(b, closer(b, a)) == closer(b, a),
{
}

/// The format that results when `direct` is applied on top of `below`.
pub open spec fn merged_format(below: ParagraphFormat, direct: ParagraphFormat) -> ParagraphFormat {
    ParagraphFormat {
        jc: closer(direct.jc, below.jc),
        space_before: closer(direct.space_before, below.space_before),
        space_after: closer(direct.space_after, below.space_after),
        line_spacing: closer(direct.line_spacing, below.line_spacing),
        line_rule: closer(direct.line_rule, below.line_rule),
        ind_left: closer(direct.ind_left, below.ind_left),
        ind_right: closer(direct.ind_right, below.ind_right),
        ind_first_line: closer(direct.ind_first_line, below.ind_first_line),
        ind_hanging: closer(direct.ind_hanging, below.ind_hanging),
        keep_next: closer(direct.keep_next, below.keep_next),
        keep_lines: closer(direct.keep_lines, below.keep_lines),
        page_break_before: closer(direct.page_break_before, below.page_break_before),
        widow_control: closer(direct.widow_control, below.widow_control),
        borders: closer(direct.borders, below.borders),
        tabs: closer(direct.tabs, below.tabs),
        shading: closer(direct.shading, below.shading),
        num_id: closer(direct.num_id, below.num_id),
        num_ilvl: closer(direct.num_ilvl, below.num_ilvl),
    }
}

fn share_tabs(tabs: &Option<Rc<Vec<TabDefinition>>>) -> (copy: Option<Rc<Vec<TabDefinition>>>)
    ensures
        copy == *tabs,
{
    match tabs {
        Some(shared) => Some(share(shared)),
        None => None,
    }
}

fn copy_shading(shading: &Option<Option<String>>) -> (copy: Option<Option<String>>)
    ensures
        copy == *shading,
{
    match shading {
        Some(fill) => Some(fill.clone()),
        None => None,
    }
}

impl ParagraphFormat {
    /// A copy of the format.
    pub fn duplicate(&self) -> (copy: ParagraphFormat)
        ensures
            copy == *self,
    {
        ParagraphFormat {
            jc: self.jc,
            space_before: self.space_before,
            space_after: self.space_after,
            line_spacing: self.line_spacing,
            line_rule: self.line_rule.clone(),
            ind_left: self.ind_left,
            ind_right: self.ind_right,
            ind_first_line: self.ind_first_line,
            ind_hanging: self.ind_hanging,
            keep_next: self.keep_next,
            keep_lines: self.keep_lines,
            page_break_before: self.page_break_before,
            widow_control: self.widow_control,
            borders: self.borders,
            tabs: share_tabs(&self.tabs),
            shading: copy_shading(&self.shading),
            num_id: self.num_id,
            num_ilvl: self.num_ilvl,
        }
    }
}

/// Applies the properties that `direct` sets on top of `effective`.
pub fn merge_direct_ppr(effective: &mut ParagraphFormat, direct: &ParagraphFormat)
    ensures
        *final(effective) == merged_format(*old(effective), *direct),
{
    effective.jc = closer_of(direct.jc, effective.jc);
    effective.space_before = closer_of(direct.space_before, effective.space_before);
    effective.space_after = closer_of(direct.space_after, effective.space_after);
    effective.line_spacing = closer_of(direct.line_spacing, effective.line_spacing);
    effective.line_rule = closer_text(&direct.line_rule, &effective.line_rule);
    effective.ind_left = closer_of(direct.ind_left, effective.ind_left);
    effective.ind_right = closer_of(direct.ind_right, effective.ind_right);
    effective.ind_first_line = closer_of(direct.ind_first_line, effective.ind_first_line);
    effective.ind_hanging = closer_of(direct.ind_hanging, effective.ind_hanging);
    effective.keep_next = closer_of(direct.keep_next, effective.keep_next);
    effective.keep_lines = closer_of(direct.keep_lines, effective.keep_lines);
    effective.page_break_before = closer_of(direct.page_break_before, effective.page_break_before);
    effective.widow_control = closer_of(direct.widow_control, effective.widow_control);
    effective.borders = closer_of(direct.borders, effective.borders);
    effective.tabs = closer_tabs(&direct.tabs, &effective.tabs);
    effective.shading = closer_shading(&direct.shading, &effective.shading);
    effective.num_id = closer_of(direct.num_id, effective.num_id);
    effective.num_ilvl = closer_of(direct.num_ilvl, effective.num_ilvl);
}

/// The run properties that result when `direct` is applied on top of `below`.
pub open spec fn merged_run(below: RunProperties, direct: RunProperties) -> RunProperties {
    RunProperties {
        font_ascii: closer(direct.font_ascii, below.font_ascii),
        font_ascii_theme: closer(direct.font_ascii_theme, below.font_ascii_theme),
        bold: closer(direct.bold, below.bold),
        italic: closer(direct.italic, below.italic),
        underline: closer(direct.underline, below.underline),
        strike: closer(direct.strike, below.strike),
        dstrike: closer(direct.dstrike, below.dstrike),
        sz: closer(direct.sz, below.sz),
        color: closer(direct.color, below.color),
        color_theme: closer(direct.color_theme, below.color_theme),
        highlight: closer(direct.highlight, below.highlight),
        caps: closer(direct.caps, below.caps),
        vert_align: closer(direct.vert_align, below.vert_align),
        spacing: closer(direct.spacing, below.spacing),
        position: closer(direct.position, below.position),
        vanish: closer(direct.vanish, below.vanish),
        changed: below.changed,
        revision_markers: below.revision_markers,
    }
}

/// The properties of a run: those of its styles, with those that are set on it
/// directly on top.
pub open spec fn effective_run(
    style: RunProperties,
    direct: Option<RunProperties>,
) -> RunProperties {
    match direct {
        Some(properties) => merged_run(style, properties),
        None => style,
    }
}

impl RunProperties {
    /// A copy of the properties.
    pub fn duplicate(&self) -> (copy: RunProperties)
        ensures
            copy == *self,
    {
        RunProperties {
            font_ascii: self.font_ascii.clone(),
            font_ascii_theme: self.font_ascii_theme.clone(),
            bold: self.bold,
            italic: self.italic,
            underline: self.underline,
            strike: self.strike,
            dstrike: self.dstrike,
            sz: self.sz,
            color: self.color.clone(),
            color_theme: self.color_theme.clone(),
            highlight: self.highlight,
            caps: self.caps,
            vert_align: self.vert_align.clone(),
            spacing: self.spacing,
            position: self.position,
            vanish: self.vanish,
            changed: self.changed,
            revision_markers: self.revision_markers,
        }
    }

    /// Applies the properties that `direct` sets on top of these.
    pub fn merge_from(&mut self, direct: &RunProperties)
        ensures
            *final(self) == merged_run(*old(self), *direct),
    {
        self.font_ascii = closer_text(&direct.font_ascii, &self.font_ascii);
        self.font_ascii_theme = closer_text(&direct.font_ascii_theme, &self.font_ascii_theme);
        self.bold = closer_of(direct.bold, self.bold);
        self.italic = closer_of(direct.italic, self.italic);
        self.underline = closer_of(direct.underline, self.underline);
        self.strike = closer_of(direct.strike, self.strike);
        self.dstrike = closer_of(direct.dstrike, self.dstrike);
        self.sz = closer_of(direct.sz, self.sz);
        self.color = closer_text(&direct.color, &self.color);
        self.color_theme = closer_text(&direct.color_theme, &self.color_theme);
        self.highlight = closer_of(direct.highlight, self.highlight);
        self.caps = closer_of(direct.caps, self.caps);
        self.vert_align = closer_text(&direct.vert_align, &self.vert_align);
        self.spacing = closer_of(direct.spacing, self.spacing);
        self.position = closer_of(direct.position, self.position);
        self.vanish = closer_of(direct.vanish, self.vanish);
    }
}

/// The properties of a run: those of its styles, with those that are set on it
/// directly on top.
pub fn effective_run_properties(
    style: &RunProperties,
    direct: &Option<RunProperties>,
) -> (effective: RunProperties)
    ensures
        effective == effective_run(*style, *direct),
{
    let mut effective = style.duplicate();
    if let Some(properties) = direct {
        effective.merge_from(properties);
    }
    effective
}

/// Applying formats one after the other is the same as applying their merge.
pub proof fn law_merging_formats_is_associative(
    a: ParagraphFormat,
    b: ParagraphFormat,
    c: ParagraphFormat,
)
    ensures
        merged_format(merged_format(a, b), c) == merged_format(a, merged_format(b, c)),
{
    lemma_closer(a.jc, b.jc, c.jc);
    lemma_closer(a.space_before, b.space_before, c.space_before);
    lemma_closer(a.space_after, b.space_after, c.space_after);
    lemma_closer(a.line_spacing, b.line_spacing, c.line_spacing);
    lemma_closer(a.line_rule, b.line_rule, c.line_rule);
    lemma_closer(a.ind_left, b.ind_left, c.ind_left);
    lemma_closer(a.ind_right, b.ind_right, c.ind_right);
    lemma_closer(a.ind_first_line, b.ind_first_line, c.ind_first_line);
    lemma_closer(a.ind_hanging, b.ind_hanging, c.ind_hanging);
    lemma_closer(a.keep_next, b.keep_next, c.keep_next);
    lemma_closer(a.keep_lines, b.keep_lines, c.keep_lines);
    lemma_closer(a.page_break_before, b.page_break_before, c.page_break_before);
    lemma_closer(a.widow_control, b.widow_control, c.widow_control);
    lemma_closer(a.borders, b.borders, c.borders);
    lemma_closer(a.tabs, b.tabs, c.tabs);
    lemma_closer(a.shading, b.shading, c.shading);
    lemma_closer(a.num_id, b.num_id, c.num_id);
    lemma_closer(a.num_ilvl, b.num_ilvl, c.num_ilvl);
}

/// Applying a format a second time changes nothing.
pub proof fn law_merging_a_format_is_idempotent(a: ParagraphFormat, b: ParagraphFormat)
    ensures
        merged_format(merged_format(a, b), b) == merged_format(a, b),
{
    lemma_closer(a.jc, b.jc, b.jc);
    lemma_closer(a.space_before, b.space_before, b.space_before);
    lemma_closer(a.space_after, b.space_after, b.space_after);
    lemma_closer(a.line_spacing, b.line_spacing, b.line_spacing);
    lemma_closer(a.line_rule, b.line_rule, b.line_rule);
    lemma_closer(a.ind_left, b.ind_left, b.ind_left);
    lemma_closer(a.ind_right, b.ind_right, b.ind_right);
    lemma_closer(a.ind_first_line, b.ind_first_line, b.ind_first_line);
    lemma_closer(a.ind_hanging, b.ind_hanging, b.ind_hanging);
    lemma_closer(a.keep_next, b.keep_next, b.keep_next);
    lemma_closer(a.keep_lines, b.keep_lines, b.keep_lines);
    lemma_closer(a.page_break_before, b.page_break_before, b.page_break_before);
    lemma_closer(a.widow_control, b.widow_control, b.widow_control);
    lemma_closer(a.borders, b.borders, b.borders);
    lemma_closer(a.tabs, b.tabs, b.tabs);
    lemma_closer(a.shading, b.shading, b.shading);
    lemma_closer(a.num_id, b.num_id, b.num_id);
    lemma_closer(a.num_ilvl, b.num_ilvl, b.num_ilvl);
}

/// Applying run properties one after the other is the same as applying their
/// merge.
pub proof fn law_merging_run_properties_is_associative(
    a: RunProperties,
    b: RunProperties,
    c: RunProperties,
)
    ensures
        merged_run(merged_run(a, b), c) == merged_run(a, merged_run(b, c)),
{
    lemma_closer(a.font_ascii, b.font_ascii, c.font_ascii);
    lemma_closer(a.font_ascii_theme, b.font_ascii_theme, c.font_ascii_theme);
    lemma_closer(a.bold, b.bold, c.bold);
    lemma_closer(a.italic, b.italic, c.italic);
    lemma_closer(a.underline, b.underline, c.underline);
    lemma_closer(a.strike, b.strike, c.strike);
    lemma_closer(a.dstrike, b.dstrike, c.dstrike);
    lemma_closer(a.sz, b.sz, c.sz);
    lemma_closer(a.color, b.color, c.color);
    lemma_closer(a.color_theme, b.color_theme, c.color_theme);
    lemma_closer(a.highlight, b.highlight, c.highlight);
    lemma_closer(a.caps, b.caps, c.caps);
    lemma_closer(a.vert_align, b.vert_align, c.vert_align);
    lemma_closer(a.spacing, b.spacing, c.spacing);
    lemma_closer(a.position, b.position, c.position);
    lemma_closer(a.vanish, b.vanish, c.vanish);
}

} // verus!
