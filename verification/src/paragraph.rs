//! The layout of a paragraph, up to the point where fonts measure its text.

use vstd::prelude::*;

use crate::color::Color;
use crate::convert::{
    alignment, line_break_params, line_height, or_zero, Align, LineBreakParams,
    LineBreakParamsView, LineHeight,
};
use crate::document::{
    Anchor, AnchorFrame, BordersId, Drawing, LayoutInput, NumberingLevel, Paragraph,
    ParagraphFormat, RevisionView, Run, RunContent, Shape,
};
use crate::drawing::render_word_chart;
use crate::plan::{
    ChartSource, Diagnostic, DiagnosticView, InlineItem, ItemView, ParagraphPlan,
};
use crate::properties::merge_direct_ppr;
use crate::revision::{paragraph_has_visible_revision, project_paragraph_runs};
use crate::run_plan::{count_marker_items, plan_paragraph};
use crate::style::{on, FontRequest, FontRequestView, TextStyle};
use crate::text::str_eq;
use crate::units::{Emu, Twips};

verus! {

/// What a paragraph looks like around its lines.
#[derive(Debug, PartialEq)]
pub struct BlockFormat {
    pub space_before: Twips,
    pub space_after: Twips,
    pub borders: Option<BordersId>,
    pub shading: Option<Color>,
    pub ind_left: Twips,
    pub ind_right: Twips,
    pub jc: Option<Align>,
    pub keep_next: bool,
    pub keep_lines: bool,
    pub page_break_before: bool,
    pub widow_control: bool,
    /// What becomes of the height of each line.
    pub line_height: LineHeight,
    /// Whether the paragraph is to be marked as changed.
    pub has_visible_revision: bool,
}

/// A paragraph that is ready to be set in lines.
#[derive(Debug, PartialEq)]
pub struct ParagraphBlock {
    pub fonts: Vec<FontRequest>,
    pub styles: Vec<TextStyle>,
    pub items: Vec<InlineItem>,
    /// How many of the items make up the list marker and what follows it. They
    /// come first, and are left out where no font can show the marker.
    pub marker_items: usize,
    pub params: LineBreakParams,
    pub format: BlockFormat,
    pub anchored: Vec<AnchoredDrawing>,
}

/// A floating drawing of a paragraph.
#[derive(Debug, PartialEq)]
pub struct AnchoredDrawing {
    pub frame: AnchorFrame,
    pub content: AnchoredContent,
}

/// What a floating drawing shows.
#[derive(Debug, PartialEq)]
pub enum AnchoredContent {
    Chart(ChartSource),
    Shape { preset: Option<String>, fill: Option<Color>, text: Vec<ParagraphBlock> },
    Image { embed_id: String },
}

/// What a [`ParagraphBlock`] stands for.
pub struct BlockView {
    pub fonts: Seq<FontRequestView>,
    pub styles: Seq<TextStyle>,
    pub items: Seq<ItemView>,
    pub marker_items: usize,
    pub params: LineBreakParamsView,
    pub format: BlockFormat,
    pub anchored: Seq<AnchoredView>,
}

/// What an [`AnchoredDrawing`] stands for.
pub struct AnchoredView {
    pub frame: AnchorFrame,
    pub content: AnchoredContentView,
}

/// What [`AnchoredContent`] stands for.
pub enum AnchoredContentView {
    Chart(ChartSource),
    Shape { preset: Option<String>, fill: Option<Color>, text: Seq<BlockView> },
    Image { embed_id: String },
}

/// What a block stands for.
pub open spec fn block_view(block: ParagraphBlock) -> BlockView
    decreases block,
{
    BlockView {
        fonts: crate::plan::font_views(block.fonts@),
        styles: block.styles@,
        items: crate::plan::item_views(block.items@),
        marker_items: block.marker_items,
        params: block.params@,
        format: block.format,
        anchored: Seq::new(
            block.anchored@.len(),
            |i: int|
                if 0 <= i < block.anchored@.len() {
                    anchored_view(block.anchored@[i])
                } else {
                    arbitrary()
                },
        ),
    }
}

/// What a floating drawing stands for.
pub open spec fn anchored_view(anchored: AnchoredDrawing) -> AnchoredView
    decreases anchored,
{
    AnchoredView {
        frame: anchored.frame,
        content: match anchored.content {
            AnchoredContent::Chart(source) => AnchoredContentView::Chart(source),
            AnchoredContent::Shape { preset, fill, text } => AnchoredContentView::Shape {
                preset,
                fill,
                text: Seq::new(
                    text@.len(),
                    |i: int|
                        if 0 <= i < text@.len() {
                            block_view(text@[i])
                        } else {
                            arbitrary()
                        },
                ),
            },
            AnchoredContent::Image { embed_id } => AnchoredContentView::Image { embed_id },
        },
    }
}

impl View for ParagraphBlock {
    type V = BlockView;

    open spec fn view(&self) -> BlockView {
        block_view(*self)
    }
}

impl View for AnchoredDrawing {
    type V = AnchoredView;

    open spec fn view(&self) -> AnchoredView {
        anchored_view(*self)
    }
}

/// What blocks stand for.
pub open spec fn block_views(blocks: Seq<ParagraphBlock>) -> Seq<BlockView> {
    Seq::new(blocks.len(), |i: int| blocks[i]@)
}

/// What floating drawings stand for.
pub open spec fn anchored_views(drawings: Seq<AnchoredDrawing>) -> Seq<AnchoredView> {
    Seq::new(drawings.len(), |i: int| drawings[i]@)
}

/// The condition that a numbering level is the one of a list and an indent.
pub open spec fn is_level(num_id: u32, ilvl: u32) -> spec_fn(NumberingLevel) -> bool {
    |level: NumberingLevel| level.num_id == num_id && level.ilvl == ilvl
}

/// The properties that are set on a paragraph directly.
pub open spec fn direct_format(paragraph: Paragraph) -> Option<ParagraphFormat> {
    match paragraph.properties {
        Some(properties) => Some(properties.format),
        None => None,
    }
}

/// The list that a paragraph belongs to, as its style and it itself state it.
pub open spec fn list_number(paragraph: Paragraph) -> Option<u32> {
    match direct_format(paragraph) {
        Some(direct) => crate::properties::closer(direct.num_id, paragraph.style.num_id),
        None => paragraph.style.num_id,
    }
}

/// The list level of a paragraph, as its style and it itself state it.
pub open spec fn list_level(paragraph: Paragraph) -> u32 {
    let stated = match direct_format(paragraph) {
        Some(direct) => crate::properties::closer(direct.num_ilvl, paragraph.style.num_ilvl),
        None => paragraph.style.num_ilvl,
    };
    match stated {
        Some(level) => level,
        None => 0,
    }
}

/// The properties that the list level of a paragraph gives it.
pub open spec fn level_format(input: LayoutInput, paragraph: Paragraph) -> Option<ParagraphFormat> {
    match (list_number(paragraph), input.numbering) {
        (Some(num_id), Some(levels)) => match crate::text::first_where(
            levels@,
            is_level(num_id, list_level(paragraph)),
        ) {
            Some(i) => Some(levels@[i].format),
            None => None,
        },
        _ => None,
    }
}

/// A format with another one on top, if there is one.
pub open spec fn topped(below: ParagraphFormat, top: Option<ParagraphFormat>) -> ParagraphFormat {
    match top {
        Some(top) => crate::properties::merged_format(below, top),
        None => below,
    }
}

/// The properties of a paragraph: those of its style, those of its list level on
/// top of them, and those that are set on it directly on top of both.
pub open spec fn effective_format(input: LayoutInput, paragraph: Paragraph) -> ParagraphFormat {
    topped(topped(paragraph.style, level_format(input, paragraph)), direct_format(paragraph))
}

/// The shading of a paragraph. An automatic fill is none.
pub open spec fn shading_color(format: ParagraphFormat) -> Option<Color> {
    match format.shading {
        Some(Some(fill)) => if fill@ == "auto"@ {
            None
        } else {
            Some(Color::Hex(fill))
        },
        _ => None,
    }
}

/// What a paragraph looks like around its lines. Widows are controlled unless it
/// says otherwise, and its changes are marked only where changes are shown.
pub open spec fn block_format(input: LayoutInput, paragraph: Paragraph) -> BlockFormat {
    let format = effective_format(input, paragraph);
    BlockFormat {
        space_before: crate::convert::twips_or_zero(format.space_before),
        space_after: crate::convert::twips_or_zero(format.space_after),
        borders: format.borders,
        shading: shading_color(format),
        ind_left: crate::convert::twips_or_zero(format.ind_left),
        ind_right: crate::convert::twips_or_zero(format.ind_right),
        jc: crate::convert::alignment_of(format.jc),
        keep_next: crate::style::is_on(format.keep_next),
        keep_lines: crate::style::is_on(format.keep_lines),
        page_break_before: crate::style::is_on(format.page_break_before),
        widow_control: format.widow_control != Some(false),
        line_height: crate::convert::line_height_of(format),
        has_visible_revision: input.revision_view == RevisionView::Markup
            && crate::revision::paragraph_revised(paragraph),
    }
}

/// Floating drawings, and what is reported of them.
pub struct AnchoredPlan {
    pub drawings: Seq<AnchoredView>,
    pub diagnostics: Seq<DiagnosticView>,
}

impl AnchoredPlan {
    /// No drawing, and nothing to report.
    pub open spec fn empty() -> AnchoredPlan {
        AnchoredPlan { drawings: Seq::empty(), diagnostics: Seq::empty() }
    }

    /// These drawings, and others after them.
    pub open spec fn plus(self, other: AnchoredPlan) -> AnchoredPlan {
        AnchoredPlan {
            drawings: self.drawings + other.drawings,
            diagnostics: self.diagnostics + other.diagnostics,
        }
    }
}

/// The layout of a paragraph in a given width, and what is reported of it. The
/// items come first, the floating drawings after them.
pub open spec fn laid_out(input: LayoutInput, paragraph: Paragraph, width: Emu) -> (
    BlockView,
    Seq<DiagnosticView>,
)
    decreases paragraph, 1nat, 0nat,
{
    let format = effective_format(input, paragraph);
    let plan = crate::run_plan::paragraph_plan(input, paragraph, format.num_id);
    let anchored = paragraph_anchored(
        input,
        paragraph,
        crate::revision::projection(paragraph, input.revision_view).len(),
    );
    (
        BlockView {
            fonts: plan.fonts,
            styles: plan.styles,
            items: plan.items,
            marker_items: crate::run_plan::marker_item_count(input, paragraph, format.num_id),
            params: crate::convert::line_params_of(format, width),
            format: block_format(input, paragraph),
            anchored: anchored.drawings,
        },
        plan.diagnostics + anchored.diagnostics,
    )
}

/// The floating drawings of the first `n` runs of a paragraph.
pub open spec fn paragraph_anchored(
    input: LayoutInput,
    paragraph: Paragraph,
    n: nat,
) -> AnchoredPlan
    decreases paragraph, 0nat, n,
{
    let runs = crate::revision::projection(paragraph, input.revision_view);
    if n == 0 || n > runs.len() {
        AnchoredPlan::empty()
    } else {
        proof {
            crate::revision_laws::lemma_projected_runs_are_parts(paragraph, input.revision_view);
        }
        paragraph_anchored(input, paragraph, (n - 1) as nat).plus(
            run_anchored(input, runs[n - 1].run),
        )
    }
}

/// The floating drawings of a run: those in its content, then those that were
/// recovered for it.
pub open spec fn run_anchored(input: LayoutInput, run: Run) -> AnchoredPlan
    decreases run, 1nat, 0nat,
{
    contents_anchored(input, run, run.content@.len()).plus(
        recovered_anchored(input, run, run.alt_drawings@.len()),
    )
}

/// The floating drawings in the first `n` pieces of a run.
pub open spec fn contents_anchored(input: LayoutInput, run: Run, n: nat) -> AnchoredPlan
    decreases run, 0nat, n,
{
    if n == 0 || n > run.content@.len() {
        AnchoredPlan::empty()
    } else {
        contents_anchored(input, run, (n - 1) as nat).plus(
            match run.content@[n - 1] {
                RunContent::Drawing(drawing) => drawing_anchored(input, drawing),
                _ => AnchoredPlan::empty(),
            },
        )
    }
}

/// The first `n` floating drawings that were recovered for a run.
pub open spec fn recovered_anchored(input: LayoutInput, run: Run, n: nat) -> AnchoredPlan
    decreases run, 0nat, n,
{
    if n == 0 || n > run.alt_drawings@.len() {
        AnchoredPlan::empty()
    } else {
        recovered_anchored(input, run, (n - 1) as nat).plus(
            drawing_anchored(input, run.alt_drawings@[n - 1]),
        )
    }
}

/// A drawing, if it floats and shows something: a chart, or else a picture, or
/// else a shape. The text of a shape is as wide as the shape.
pub open spec fn drawing_anchored(input: LayoutInput, drawing: Drawing) -> AnchoredPlan
    decreases drawing, 1nat, 0nat,
{
    match drawing.anchor {
        Some(anchor) => match anchor.chart_rel_id {
            Some(rel_id) => {
                let (source, diagnostic) = crate::drawing::chart_of(input.charts@, rel_id@);
                AnchoredPlan {
                    drawings: seq![
                        AnchoredView {
                            frame: anchor.frame,
                            content: AnchoredContentView::Chart(source),
                        },
                    ],
                    diagnostics: seq![diagnostic],
                }
            },
            None => if anchor.embed_id@.len() > 0 {
                AnchoredPlan {
                    drawings: seq![
                        AnchoredView {
                            frame: anchor.frame,
                            content: AnchoredContentView::Image { embed_id: anchor.embed_id },
                        },
                    ],
                    diagnostics: Seq::empty(),
                }
            } else {
                match anchor.shape {
                    Some(shape) => {
                        let (text, diagnostics) = shape_text(
                            input,
                            shape,
                            anchor.frame.extent_cx,
                            shape.text@.len(),
                        );
                        AnchoredPlan {
                            drawings: seq![
                                AnchoredView {
                                    frame: anchor.frame,
                                    content: AnchoredContentView::Shape {
                                        preset: shape.preset,
                                        fill: shape_fill(shape),
                                        text,
                                    },
                                },
                            ],
                            diagnostics,
                        }
                    },
                    None => AnchoredPlan::empty(),
                }
            },
        },
        None => AnchoredPlan::empty(),
    }
}

/// The color that a shape is filled with.
pub open spec fn shape_fill(shape: Shape) -> Option<Color> {
    match shape.solid_fill {
        Some(fill) => Some(Color::Hex(fill)),
        None => None,
    }
}

/// The layout of the first `n` paragraphs of a shape.
pub open spec fn shape_text(input: LayoutInput, shape: Shape, width: Emu, n: nat) -> (
    Seq<BlockView>,
    Seq<DiagnosticView>,
)
    decreases shape, 0nat, n,
{
    if n == 0 || n > shape.text@.len() {
        (Seq::empty(), Seq::empty())
    } else {
        let (blocks, diagnostics) = shape_text(input, shape, width, (n - 1) as nat);
        let (block, more) = laid_out(input, shape.text@[n - 1], width);
        (blocks.push(block), diagnostics + more)
    }
}

/// The properties that a list level gives.
fn find_level<'a>(levels: &'a Vec<NumberingLevel>, num_id: u32, ilvl: u32) -> (found: Option<
    &'a NumberingLevel,
>)
    ensures
        match (found, crate::text::first_where(levels@, is_level(num_id, ilvl))) {
            (Some(level), Some(i)) => 0 <= i < levels@.len() && *level == levels@[i],
            (None, None) => true,
            _ => false,
        },
{
    let mut i: usize = 0;
    while i < levels.len()
        invariant
            i <= levels@.len(),
            crate::text::first_where(levels@, is_level(num_id, ilvl)) == crate::text::first_from(
                levels@,
                is_level(num_id, ilvl),
                i as int,
            ),
        decreases levels@.len() - i,
    {
        let level = &levels[i];
        proof {
            assert(is_level(num_id, ilvl)(levels@[i as int]) == (level.num_id == num_id
                && level.ilvl == ilvl));
        }
        if level.num_id == num_id && level.ilvl == ilvl {
            return Some(level);
        }
        i += 1;
    }
    None
}

/// The properties of a paragraph.
pub fn effective_paragraph_format(
    input: &LayoutInput,
    paragraph: &Paragraph,
) -> (format: ParagraphFormat)
    ensures
        format == effective_format(*input, *paragraph),
{
    let mut format = paragraph.style.duplicate();
    let mut num_id: Option<u32> = paragraph.style.num_id;
    let mut ilvl: Option<u32> = paragraph.style.num_ilvl;
    if let Some(direct) = &paragraph.properties {
        if direct.format.num_id.is_some() {
            num_id = direct.format.num_id;
        }
        if direct.format.num_ilvl.is_some() {
            ilvl = direct.format.num_ilvl;
        }
    }
    let level = match ilvl {
        Some(level) => level,
        None => 0,
    };
    if let (Some(num_id), Some(levels)) = (num_id, &input.numbering) {
        if let Some(found) = find_level(levels, num_id, level) {
            merge_direct_ppr(&mut format, &found.format);
        }
    }
    if let Some(direct) = &paragraph.properties {
        merge_direct_ppr(&mut format, &direct.format);
    }
    format
}

/// The shading of a paragraph.
fn shading_of(format: &ParagraphFormat) -> (color: Option<Color>)
    ensures
        color == shading_color(*format),
{
    match &format.shading {
        Some(Some(fill)) => if str_eq(fill.as_str(), "auto") {
            None
        } else {
            Some(Color::from_hex(fill))
        },
        _ => None,
    }
}

/// What a paragraph looks like around its lines.
fn format_block(
    input: &LayoutInput,
    paragraph: &Paragraph,
    format: &ParagraphFormat,
) -> (block: BlockFormat)
    requires
        *format == effective_format(*input, *paragraph),
    ensures
        block == block_format(*input, *paragraph),
{
    let widow_control = match format.widow_control {
        Some(control) => control,
        None => true,
    };
    let has_visible_revision = match input.revision_view {
        RevisionView::Markup => paragraph_has_visible_revision(paragraph),
        RevisionView::Accepted => false,
    };
    BlockFormat {
        space_before: or_zero(format.space_before),
        space_after: or_zero(format.space_after),
        borders: format.borders,
        shading: shading_of(format),
        ind_left: or_zero(format.ind_left),
        ind_right: or_zero(format.ind_right),
        jc: alignment(format.jc),
        keep_next: on(format.keep_next),
        keep_lines: on(format.keep_lines),
        page_break_before: on(format.page_break_before),
        widow_control,
        line_height: line_height(format),
        has_visible_revision,
    }
}

proof fn lemma_anchored_push(drawings: Seq<AnchoredDrawing>, drawing: AnchoredDrawing)
    ensures
        anchored_views(drawings.push(drawing)) == anchored_views(drawings) + seq![drawing@],
{
    assert(anchored_views(drawings.push(drawing)) =~= anchored_views(drawings) + seq![drawing@]);
}

/// Adds the floating drawing of a drawing, if it floats and shows something.
fn add_anchored(
    drawing: &Drawing,
    input: &LayoutInput,
    drawings: &mut Vec<AnchoredDrawing>,
    diagnostics: &mut Vec<Diagnostic>,
)
    ensures
        anchored_views(final(drawings)@) == anchored_views(old(drawings)@) + drawing_anchored(
            *input,
            *drawing,
        ).drawings,
        crate::plan::diagnostic_views(final(diagnostics)@) == crate::plan::diagnostic_views(
            old(diagnostics)@,
        ) + drawing_anchored(*input, *drawing).diagnostics,
    decreases *drawing, 1nat,
{
    let ghost before = crate::plan::diagnostic_views(diagnostics@);
    proof {
        assert(anchored_views(drawings@) =~= anchored_views(drawings@) + Seq::empty());
        assert(before =~= before + Seq::empty());
    }
    let anchor: &Anchor = match &drawing.anchor {
        Some(anchor) => anchor,
        None => {
            return;
        },
    };
    let content = match &anchor.chart_rel_id {
        Some(rel_id) => {
            let source = render_word_chart(rel_id, input, diagnostics);
            proof {
                let diagnostic = crate::drawing::chart_of(input.charts@, rel_id@).1;
                assert(before.push(diagnostic) =~= before + seq![diagnostic]);
            }
            AnchoredContent::Chart(source)
        },
        None => if anchor.embed_id.as_str().unicode_len() > 0 {
            AnchoredContent::Image { embed_id: anchor.embed_id.clone() }
        } else {
            match &anchor.shape {
                Some(shape) => {
                    let text = layout_shape_text(
                        shape,
                        anchor.frame.extent_cx,
                        input,
                        diagnostics,
                    );
                    let fill = match &shape.solid_fill {
                        Some(fill) => Some(Color::from_hex(fill)),
                        None => None,
                    };
                    AnchoredContent::Shape { preset: shape.preset.clone(), fill, text }
                },
                None => {
                    return;
                },
            }
        },
    };
    let anchored = AnchoredDrawing { frame: anchor.frame, content };
    proof {
        lemma_anchored_push(drawings@, anchored);
        if anchored.content is Shape {
            assert(anchored@.content->text =~= block_views(anchored.content->text@));
        }
    }
    drawings.push(anchored);
}

/// Lays out the paragraphs of a shape.
fn layout_shape_text(
    shape: &Shape,
    width: Emu,
    input: &LayoutInput,
    diagnostics: &mut Vec<Diagnostic>,
) -> (text: Vec<ParagraphBlock>)
    ensures
        block_views(text@) == shape_text(*input, *shape, width, shape.text@.len()).0,
        crate::plan::diagnostic_views(final(diagnostics)@) == crate::plan::diagnostic_views(
            old(diagnostics)@,
        ) + shape_text(*input, *shape, width, shape.text@.len()).1,
    decreases *shape, 0nat,
{
    let ghost before = crate::plan::diagnostic_views(diagnostics@);
    let mut text: Vec<ParagraphBlock> = Vec::new();
    let mut i: usize = 0;
    proof {
        assert(block_views(text@) =~= shape_text(*input, *shape, width, 0).0);
        assert(before =~= before + shape_text(*input, *shape, width, 0).1);
    }
    while i < shape.text.len()
        invariant
            i <= shape.text@.len(),
            block_views(text@) == shape_text(*input, *shape, width, i as nat).0,
            crate::plan::diagnostic_views(diagnostics@) == before + shape_text(
                *input,
                *shape,
                width,
                i as nat,
            ).1,
        decreases shape.text@.len() - i,
    {
        proof {
            assert(decreases_to!(*shape => shape.text@[i as int]));
        }
        let block = layout_paragraph(&shape.text[i], width, input, diagnostics);
        proof {
            assert(block_views(text@.push(block)) =~= block_views(text@).push(block@));
            assert(crate::plan::diagnostic_views(diagnostics@) =~= before + shape_text(
                *input,
                *shape,
                width,
                (i + 1) as nat,
            ).1);
        }
        text.push(block);
        i += 1;
    }
    text
}

/// Adds the floating drawings of a run.
fn add_run_anchored(
    run: &Run,
    input: &LayoutInput,
    drawings: &mut Vec<AnchoredDrawing>,
    diagnostics: &mut Vec<Diagnostic>,
)
    ensures
        anchored_views(final(drawings)@) == anchored_views(old(drawings)@) + run_anchored(
            *input,
            *run,
        ).drawings,
        crate::plan::diagnostic_views(final(diagnostics)@) == crate::plan::diagnostic_views(
            old(diagnostics)@,
        ) + run_anchored(*input, *run).diagnostics,
    decreases *run, 1nat,
{
    let ghost shown = anchored_views(drawings@);
    let ghost reported = crate::plan::diagnostic_views(diagnostics@);
    let mut i: usize = 0;
    proof {
        assert(shown =~= shown + contents_anchored(*input, *run, 0).drawings);
        assert(reported =~= reported + contents_anchored(*input, *run, 0).diagnostics);
    }
    while i < run.content.len()
        invariant
            i <= run.content@.len(),
            anchored_views(drawings@) == shown + contents_anchored(*input, *run, i as nat).drawings,
            crate::plan::diagnostic_views(diagnostics@) == reported + contents_anchored(
                *input,
                *run,
                i as nat,
            ).diagnostics,
        decreases run.content@.len() - i,
    {
        proof {
            assert(decreases_to!(*run => run.content@[i as int]));
        }
        if let RunContent::Drawing(drawing) = &run.content[i] {
            add_anchored(drawing, input, drawings, diagnostics);
        }
        proof {
            let more = contents_anchored(*input, *run, (i + 1) as nat);
            assert(anchored_views(drawings@) =~= shown + more.drawings);
            assert(crate::plan::diagnostic_views(diagnostics@) =~= reported + more.diagnostics);
        }
        i += 1;
    }
    let ghost shown_then = anchored_views(drawings@);
    let ghost reported_then = crate::plan::diagnostic_views(diagnostics@);
    let mut j: usize = 0;
    proof {
        assert(shown_then =~= shown_then + recovered_anchored(*input, *run, 0).drawings);
        assert(reported_then =~= reported_then + recovered_anchored(*input, *run, 0).diagnostics);
    }
    while j < run.alt_drawings.len()
        invariant
            j <= run.alt_drawings@.len(),
            anchored_views(drawings@) == shown_then + recovered_anchored(
                *input,
                *run,
                j as nat,
            ).drawings,
            crate::plan::diagnostic_views(diagnostics@) == reported_then + recovered_anchored(
                *input,
                *run,
                j as nat,
            ).diagnostics,
        decreases run.alt_drawings@.len() - j,
    {
        proof {
            assert(decreases_to!(*run => run.alt_drawings@[j as int]));
        }
        add_anchored(&run.alt_drawings[j], input, drawings, diagnostics);
        proof {
            let more = recovered_anchored(*input, *run, (j + 1) as nat);
            assert(anchored_views(drawings@) =~= shown_then + more.drawings);
            assert(crate::plan::diagnostic_views(diagnostics@) =~= reported_then
                + more.diagnostics);
        }
        j += 1;
    }
    proof {
        let all = run_anchored(*input, *run);
        assert(anchored_views(drawings@) =~= shown + all.drawings);
        assert(crate::plan::diagnostic_views(diagnostics@) =~= reported + all.diagnostics);
    }
}

/// Collects the floating drawings of a paragraph.
///
/// The offsets stay paired with the frame that they are measured from: only the
/// finished pages tell where that frame stands.
pub fn collect_anchored_drawings(
    paragraph: &Paragraph,
    input: &LayoutInput,
    diagnostics: &mut Vec<Diagnostic>,
) -> (drawings: Vec<AnchoredDrawing>)
    ensures
        ({
            let runs = crate::revision::projection(*paragraph, input.revision_view);
            let anchored = paragraph_anchored(*input, *paragraph, runs.len());
            &&& anchored_views(drawings@) == anchored.drawings
            &&& crate::plan::diagnostic_views(final(diagnostics)@) == crate::plan::diagnostic_views(
                old(diagnostics)@,
            ) + anchored.diagnostics
        }),
    decreases *paragraph, 0nat,
{
    let ghost reported = crate::plan::diagnostic_views(diagnostics@);
    let projected = project_paragraph_runs(paragraph, input.revision_view);
    let ghost runs = crate::revision::projection(*paragraph, input.revision_view);
    let mut drawings: Vec<AnchoredDrawing> = Vec::new();
    let mut i: usize = 0;
    proof {
        crate::revision_laws::lemma_projected_runs_are_parts(*paragraph, input.revision_view);
        let none = paragraph_anchored(*input, *paragraph, 0);
        assert(anchored_views(drawings@) =~= none.drawings);
        assert(reported =~= reported + none.diagnostics);
    }
    while i < projected.len()
        invariant
            i <= projected@.len(),
            runs == crate::revision::projection(*paragraph, input.revision_view),
            crate::revision::projected_views(projected@) == runs,
            forall|k: int|
                0 <= k < runs.len() ==> decreases_to!(*paragraph => (#[trigger] runs[k]).run),
            anchored_views(drawings@) == paragraph_anchored(
                *input,
                *paragraph,
                i as nat,
            ).drawings,
            crate::plan::diagnostic_views(diagnostics@) == reported + paragraph_anchored(
                *input,
                *paragraph,
                i as nat,
            ).diagnostics,
        decreases projected@.len() - i,
    {
        proof {
            assert(runs[i as int] == projected@[i as int]@);
            assert(decreases_to!(*paragraph => runs[i as int].run));
        }
        add_run_anchored(projected[i].run, input, &mut drawings, diagnostics);
        proof {
            let more = paragraph_anchored(*input, *paragraph, (i + 1) as nat);
            assert(anchored_views(drawings@) =~= more.drawings);
            assert(crate::plan::diagnostic_views(diagnostics@) =~= reported + more.diagnostics);
        }
        i += 1;
    }
    drawings
}

/// Lays out a single paragraph in a given width.
pub fn layout_paragraph(
    paragraph: &Paragraph,
    available_width: Emu,
    input: &LayoutInput,
    diagnostics: &mut Vec<Diagnostic>,
) -> (block: ParagraphBlock)
    ensures
        block@ == laid_out(*input, *paragraph, available_width).0,
        crate::plan::diagnostic_views(final(diagnostics)@) == crate::plan::diagnostic_views(
            old(diagnostics)@,
        ) + laid_out(*input, *paragraph, available_width).1,
    decreases *paragraph, 1nat,
{
    let ghost reported = crate::plan::diagnostic_views(diagnostics@);
    let format = effective_paragraph_format(input, paragraph);
    let plan = plan_paragraph(input, paragraph, format.num_id);
    let ParagraphPlan { fonts, styles, items, diagnostics: mut found } = plan;
    let marker_items = count_marker_items(input, paragraph, format.num_id);
    let params = line_break_params(&format, available_width);
    let block_format = format_block(input, paragraph, &format);
    let ghost planned = crate::plan::diagnostic_views(found@);
    diagnostics.append(&mut found);
    proof {
        assert(crate::plan::diagnostic_views(diagnostics@) =~= reported + planned);
    }
    let anchored = collect_anchored_drawings(paragraph, input, diagnostics);
    let block = ParagraphBlock {
        fonts,
        styles,
        items,
        marker_items,
        params,
        format: block_format,
        anchored,
    };
    proof {
        let (view, all) = laid_out(*input, *paragraph, available_width);
        assert(block@.anchored =~= anchored_views(anchored@));
        assert(crate::plan::diagnostic_views(diagnostics@) =~= reported + all);
        assert(block@.anchored == view.anchored);
    }
    block
}

/// What is set on a paragraph directly wins over its list level and its style:
/// applying it once more changes nothing.
pub proof fn law_direct_formatting_wins(input: LayoutInput, paragraph: Paragraph)
    ensures
        topped(effective_format(input, paragraph), direct_format(paragraph)) == effective_format(
            input,
            paragraph,
        ),
{
    if let Some(direct) = direct_format(paragraph) {
        crate::properties::law_merging_a_format_is_idempotent(
            topped(paragraph.style, level_format(input, paragraph)),
            direct,
        );
    }
}

/// A paragraph is marked as changed only where changes are shown.
pub proof fn law_accepted_paragraphs_are_not_marked(
    input: LayoutInput,
    paragraph: Paragraph,
    width: Emu,
)
    requires
        input.revision_view == RevisionView::Accepted,
    ensures
        !laid_out(input, paragraph, width).0.format.has_visible_revision,
{
}

} // verus!
