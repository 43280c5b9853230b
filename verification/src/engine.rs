//! The layout engine: it turns the body of a document into sections, and keeps
//! the layouts of paragraphs from one document to the next.

use std::collections::HashMap;
use std::rc::Rc;

use vstd::prelude::*;

use crate::document::{BodyContent, LayoutInput, Paragraph, SectionProperties};
use crate::drawing::document_has_wrapping_drawing;
use crate::fingerprint::{fingerprint_fonts, key_of_block};
use crate::heading::detect_heading_level;
use crate::paragraph::{layout_paragraph, BlockView, ParagraphBlock};
use crate::plan::{Diagnostic, DiagnosticView, InlineItem, ItemView};
use crate::properties::share;
use crate::revision::projected_paragraph_text;
use crate::section::{
    layout_header_footer, sect_pr_to_geometry, HeaderFooterContent, HeaderFooterView, PageGeometry,
};
use crate::style::on;
use crate::units::Emu;

verus! {

/// A heading for the outline.
#[derive(Debug, PartialEq)]
pub struct Heading {
    pub level: u32,
    pub text: String,
}

/// What a [`Heading`] stands for.
pub struct HeadingView {
    pub level: u32,
    pub text: Seq<char>,
}

/// A block of a section.
#[derive(Debug)]
pub enum LayoutBlock {
    Paragraph {
        block: Rc<ParagraphBlock>,
        /// Whether the paragraph may have to be broken into lines again.
        reflow: bool,
        heading: Option<Heading>,
    },
    /// The table at an index of the body, in a given width.
    Table { body_index: usize, width: Emu },
}

/// What a [`LayoutBlock`] stands for.
pub enum LayoutBlockView {
    Paragraph { block: BlockView, reflow: bool, heading: Option<HeadingView> },
    Table { body_index: int, width: Emu },
}

/// A section of the document.
#[derive(Debug)]
pub struct Section {
    pub blocks: Vec<LayoutBlock>,
    pub geometry: PageGeometry,
    pub header_footer: Option<HeaderFooterContent>,
    /// Whether the first page has a header and a footer of its own.
    pub title_pg: bool,
}

/// What a [`Section`] stands for.
pub struct SectionView {
    pub blocks: Seq<LayoutBlockView>,
    pub geometry: PageGeometry,
    pub header_footer: Option<HeaderFooterView>,
    pub title_pg: bool,
}

/// What an optional heading stands for.
pub open spec fn heading_view(heading: Option<Heading>) -> Option<HeadingView> {
    match heading {
        Some(heading) => Some(HeadingView { level: heading.level, text: heading.text@ }),
        None => None,
    }
}

impl View for LayoutBlock {
    type V = LayoutBlockView;

    open spec fn view(&self) -> LayoutBlockView {
        match *self {
            LayoutBlock::Paragraph { block, reflow, heading } => LayoutBlockView::Paragraph {
                block: block@,
                reflow,
                heading: heading_view(heading),
            },
            LayoutBlock::Table { body_index, width } => LayoutBlockView::Table {
                body_index: body_index as int,
                width,
            },
        }
    }
}

/// What the blocks of a section stand for.
pub open spec fn layout_views(blocks: Seq<LayoutBlock>) -> Seq<LayoutBlockView> {
    blocks.map_values(|block: LayoutBlock| block@)
}

impl View for Section {
    type V = SectionView;

    open spec fn view(&self) -> SectionView {
        SectionView {
            blocks: layout_views(self.blocks@),
            geometry: self.geometry,
            header_footer: crate::section::header_footer_view(self.header_footer),
            title_pg: self.title_pg,
        }
    }
}

/// What sections stand for.
pub open spec fn section_views(sections: Seq<Section>) -> Seq<SectionView> {
    sections.map_values(|section: Section| section@)
}

/// The sections of a document, and what is left to do about them.
#[derive(Debug)]
pub struct LayoutPlan {
    /// Whether the fonts that come with the document are new, and have to be
    /// loaded before any text is measured.
    pub load_fonts: bool,
    pub sections: Vec<Section>,
    pub diagnostics: Vec<Diagnostic>,
}

/// What a [`LayoutPlan`] stands for.
pub struct LayoutPlanView {
    pub load_fonts: bool,
    pub sections: Seq<SectionView>,
    pub diagnostics: Seq<DiagnosticView>,
}

impl View for LayoutPlan {
    type V = LayoutPlanView;

    open spec fn view(&self) -> LayoutPlanView {
        LayoutPlanView {
            load_fonts: self.load_fonts,
            sections: section_views(self.sections@),
            diagnostics: crate::plan::diagnostic_views(self.diagnostics@),
        }
    }
}

/// The layout engine.
#[derive(Debug)]
pub struct Engine {
    /// Whether fonts of the system may be used.
    system_fonts: bool,
    /// The fingerprint of the fonts that were loaded last, so that the same
    /// fonts are not loaded for every layout.
    fonts_fingerprint: u64,
    /// The layouts of paragraphs from earlier documents, by their keys. Only
    /// paragraphs without a list marker are kept. An edit therefore lays out
    /// anew only the paragraphs that it touches.
    block_cache: HashMap<u64, Rc<ParagraphBlock>>,
}

/// What an [`Engine`] stands for.
pub struct EngineView {
    pub system_fonts: bool,
    pub fonts_fingerprint: u64,
    pub cache: Map<u64, BlockView>,
}

impl View for Engine {
    type V = EngineView;

    closed spec fn view(&self) -> EngineView {
        EngineView {
            system_fonts: self.system_fonts,
            fonts_fingerprint: self.fonts_fingerprint,
            cache: self.block_cache@.map_values(|block: Rc<ParagraphBlock>| block@),
        }
    }
}

/// How many layouts are kept before all of them are dropped.
pub const CACHE_LIMIT: usize = 20_000;

/// Whether an item is a list marker.
pub open spec fn is_marker(item: ItemView) -> bool {
    item is Marker
}

/// Whether a block has a list marker.
pub open spec fn has_marker(block: BlockView) -> bool {
    exists|i: int| 0 <= i < block.items.len() && is_marker(#[trigger] block.items[i])
}

/// The kept layouts after one more, for which full ones make room.
pub open spec fn remembered(cache: Map<u64, BlockView>, key: u64, block: BlockView) -> Map<
    u64,
    BlockView,
> {
    if has_marker(block) {
        cache
    } else if cache.dom().len() >= CACHE_LIMIT {
        Map::<u64, BlockView>::empty().insert(key, block)
    } else {
        cache.insert(key, block)
    }
}

/// How far the layout of a body has come.
pub struct FlowView {
    pub cache: Map<u64, BlockView>,
    pub sections: Seq<SectionView>,
    /// The blocks of the section that has begun.
    pub blocks: Seq<LayoutBlockView>,
    /// The section that ended last.
    pub current: Option<SectionProperties>,
    pub diagnostics: Seq<DiagnosticView>,
}

/// The pages of a section, or letter paper where there is none.
pub open spec fn geometry_or_letter(section: Option<SectionProperties>) -> PageGeometry {
    match section {
        Some(section) => crate::section::geometry_of(section),
        None => crate::section::letter_geometry(),
    }
}

/// The first of two sections that there is.
pub open spec fn either(
    first: Option<SectionProperties>,
    second: Option<SectionProperties>,
) -> Option<SectionProperties> {
    match first {
        Some(_) => first,
        None => second,
    }
}

/// The section that a paragraph ends.
pub open spec fn section_ended_by(paragraph: Paragraph) -> Option<SectionProperties> {
    match paragraph.properties {
        Some(properties) => properties.sect_pr,
        None => None,
    }
}

/// The heading that a paragraph is.
pub open spec fn heading_of(input: LayoutInput, paragraph: Paragraph) -> Option<HeadingView> {
    match crate::heading::heading_level(input.styles@, paragraph) {
        Some(level) => Some(
            HeadingView {
                level,
                text: crate::revision::projected_text(
                    crate::revision::projection(paragraph, input.revision_view),
                ),
            },
        ),
        None => None,
    }
}

/// The width in which a paragraph of the body is set: that of the section that
/// it ends, or else that of the section that ended last, or else that of the
/// last section of the document.
pub open spec fn paragraph_width(flow: FlowView, input: LayoutInput, paragraph: Paragraph) -> Emu {
    geometry_or_letter(
        either(either(section_ended_by(paragraph), flow.current), input.document.sect_pr),
    ).width_between()
}

/// The width in which a table of the body is set.
pub open spec fn table_width(flow: FlowView, input: LayoutInput) -> Emu {
    geometry_or_letter(either(flow.current, input.document.sect_pr)).width_between()
}

/// Whether the layout of a paragraph is kept. A paragraph that was not written as
/// anything is not recognized, so its layout is always a new one.
pub open spec fn is_kept(cache: Map<u64, BlockView>, paragraph: Paragraph, key: u64) -> bool {
    paragraph.source@.len() > 0 && cache.dom().contains(key)
}

/// The kept layouts after the layout of a paragraph was not among them.
pub open spec fn cache_after(
    cache: Map<u64, BlockView>,
    paragraph: Paragraph,
    key: u64,
    block: BlockView,
) -> Map<u64, BlockView> {
    if paragraph.source@.len() == 0 {
        cache
    } else {
        remembered(cache, key, block)
    }
}

/// The flow after a paragraph: its layout is the one that is kept under its key,
/// if one is, and a new one otherwise.
pub open spec fn paragraph_placed(
    flow: FlowView,
    input: LayoutInput,
    fonts: u64,
    paragraph: Paragraph,
) -> FlowView {
    let width = paragraph_width(flow, input, paragraph);
    let key = crate::fingerprint::block_key(
        paragraph.source@,
        width,
        input.revision_view,
        fonts,
    );
    let (fresh, reported) = crate::paragraph::laid_out(input, paragraph, width);
    let hit = is_kept(flow.cache, paragraph, key);
    FlowView {
        cache: if hit {
            flow.cache
        } else {
            cache_after(flow.cache, paragraph, key, fresh)
        },
        blocks: flow.blocks.push(
            LayoutBlockView::Paragraph {
                block: if hit {
                    flow.cache[key]
                } else {
                    fresh
                },
                reflow: crate::drawing::document_wraps(input),
                heading: heading_of(input, paragraph),
            },
        ),
        diagnostics: if hit {
            flow.diagnostics
        } else {
            flow.diagnostics + reported
        },
        ..flow
    }
}

/// The flow after a section has ended: its blocks make up the section.
pub open spec fn section_closed(
    flow: FlowView,
    input: LayoutInput,
    section: Option<SectionProperties>,
) -> FlowView {
    let (header_footer, reported) = match section {
        Some(section) => crate::section::header_footer_of(input, section),
        None => (None, Seq::empty()),
    };
    FlowView {
        sections: flow.sections.push(
            SectionView {
                blocks: flow.blocks,
                geometry: geometry_or_letter(section),
                header_footer,
                title_pg: match section {
                    Some(section) => crate::style::is_on(section.title_pg),
                    None => false,
                },
            },
        ),
        blocks: Seq::empty(),
        current: section,
        diagnostics: flow.diagnostics + reported,
        ..flow
    }
}

/// The flow after a piece of the body. Only paragraphs and tables are laid out.
#[verifier::opaque]
pub open spec fn content_placed(
    flow: FlowView,
    input: LayoutInput,
    fonts: u64,
    content: BodyContent,
    body_index: int,
) -> FlowView {
    match content {
        BodyContent::Paragraph(paragraph) => {
            let placed = paragraph_placed(flow, input, fonts, paragraph);
            match section_ended_by(paragraph) {
                Some(section) => section_closed(placed, input, Some(section)),
                None => placed,
            }
        },
        BodyContent::Table(_) => FlowView {
            blocks: flow.blocks.push(
                LayoutBlockView::Table { body_index, width: table_width(flow, input) },
            ),
            ..flow
        },
        _ => flow,
    }
}

/// The flow after the first `n` pieces of the body.
pub open spec fn body_placed(
    cache: Map<u64, BlockView>,
    input: LayoutInput,
    fonts: u64,
    n: nat,
) -> FlowView
    decreases n,
{
    if n == 0 {
        FlowView {
            cache,
            sections: Seq::empty(),
            blocks: Seq::empty(),
            current: None,
            diagnostics: Seq::empty(),
        }
    } else {
        content_placed(
            body_placed(cache, input, fonts, (n - 1) as nat),
            input,
            fonts,
            input.document.body@[n - 1],
            n - 1,
        )
    }
}

/// The flow at the end of a document. What is left belongs to its last section.
pub open spec fn document_flow(
    cache: Map<u64, BlockView>,
    input: LayoutInput,
    fonts: u64,
) -> FlowView {
    section_closed(
        body_placed(cache, input, fonts, input.document.body@.len()),
        input,
        input.document.sect_pr,
    )
}

/// The fingerprint of the fonts that are loaded when a document is laid out. A
/// document without fonts changes nothing.
pub open spec fn loaded_fonts(before: u64, input: LayoutInput) -> u64 {
    if input.fonts@.len() == 0 {
        before
    } else {
        crate::fingerprint::fonts_prefix(input.fonts@, input.fonts@.len())
    }
}

/// The plan that an engine makes of a document.
pub open spec fn planned(engine: EngineView, input: LayoutInput) -> LayoutPlanView {
    let fonts = loaded_fonts(engine.fonts_fingerprint, input);
    let flow = document_flow(engine.cache, input, fonts);
    LayoutPlanView {
        load_fonts: fonts != engine.fonts_fingerprint,
        sections: flow.sections,
        diagnostics: flow.diagnostics,
    }
}

/// What an engine is once it has laid out a document: it knows the fonts of the
/// document, and keeps layouts of it.
pub open spec fn engine_after(engine: EngineView, input: LayoutInput) -> EngineView {
    let fonts = loaded_fonts(engine.fonts_fingerprint, input);
    EngineView {
        fonts_fingerprint: fonts,
        cache: document_flow(engine.cache, input, fonts).cache,
        ..engine
    }
}

impl EngineView {
    /// Whether no more layouts are kept than there is room for.
    pub open spec fn wf(self) -> bool {
        self.cache.dom().finite() && self.cache.dom().len() <= CACHE_LIMIT
    }
}

/// What kept layouts stand for.
spec fn cache_view(cache: Map<u64, Rc<ParagraphBlock>>) -> Map<u64, BlockView> {
    cache.map_values(|block: Rc<ParagraphBlock>| block@)
}

proof fn lemma_cache_insert(
    cache: Map<u64, Rc<ParagraphBlock>>,
    key: u64,
    block: Rc<ParagraphBlock>,
)
    ensures
        cache_view(cache).dom() == cache.dom(),
        cache_view(cache.insert(key, block)) == cache_view(cache).insert(key, block@),
        cache_view(Map::<u64, Rc<ParagraphBlock>>::empty()) == Map::<u64, BlockView>::empty(),
{
    assert(cache_view(cache).dom() =~= cache.dom());
    assert(cache_view(cache.insert(key, block)) =~= cache_view(cache).insert(key, block@));
    assert(cache_view(Map::<u64, Rc<ParagraphBlock>>::empty()) =~= Map::<u64, BlockView>::empty());
}

/// Whether a block has a list marker.
fn block_has_marker(block: &ParagraphBlock) -> (found: bool)
    ensures
        found == has_marker(block@),
{
    let ghost items = block@.items;
    let mut i: usize = 0;
    while i < block.items.len()
        invariant
            i <= block.items@.len(),
            items == block@.items,
            items == crate::plan::item_views(block.items@),
            forall|k: int| 0 <= k < i ==> !is_marker(#[trigger] items[k]),
        decreases block.items@.len() - i,
    {
        proof {
            assert(items[i as int] == block.items@[i as int]@);
        }
        if let InlineItem::Marker(_) = &block.items[i] {
            proof {
                assert(is_marker(items[i as int]));
            }
            return true;
        }
        i += 1;
    }
    false
}

/// The pages of a section, or letter paper where there is none.
fn geometry_for(section: Option<&SectionProperties>) -> (geometry: PageGeometry)
    ensures
        geometry == geometry_or_letter(section_value(section)),
{
    match section {
        Some(section) => sect_pr_to_geometry(section),
        None => sect_pr_to_geometry(&SectionProperties::default_letter()),
    }
}

/// The section that a reference leads to.
spec fn section_value(section: Option<&SectionProperties>) -> Option<SectionProperties> {
    match section {
        Some(section) => Some(*section),
        None => None,
    }
}

fn either_of<'a>(
    first: Option<&'a SectionProperties>,
    second: Option<&'a SectionProperties>,
) -> (found: Option<&'a SectionProperties>)
    ensures
        section_value(found) == either(section_value(first), section_value(second)),
{
    match first {
        Some(section) => Some(section),
        None => second,
    }
}

fn borrowed(section: &Option<SectionProperties>) -> (reference: Option<&SectionProperties>)
    ensures
        section_value(reference) == *section,
{
    match section {
        Some(section) => Some(section),
        None => None,
    }
}

/// The section that a paragraph ends.
fn ended_section(paragraph: &Paragraph) -> (section: Option<&SectionProperties>)
    ensures
        section_value(section) == section_ended_by(*paragraph),
{
    match &paragraph.properties {
        Some(properties) => borrowed(&properties.sect_pr),
        None => None,
    }
}

/// The heading that a paragraph is.
fn find_heading(input: &LayoutInput, paragraph: &Paragraph) -> (heading: Option<Heading>)
    ensures
        heading_view(heading) == heading_of(*input, *paragraph),
{
    match detect_heading_level(paragraph, &input.styles) {
        Some(level) => Some(
            Heading { level, text: projected_paragraph_text(paragraph, input.revision_view) },
        ),
        None => None,
    }
}

impl Default for Engine {
    fn default() -> (engine: Engine)
        ensures
            engine@ == (EngineView {
                system_fonts: true,
                fonts_fingerprint: 0,
                cache: Map::<u64, BlockView>::empty(),
            }),
    {
        Engine::new()
    }
}

impl Engine {
    /// An engine that may use the fonts of the system.
    pub fn new() -> (engine: Engine)
        ensures
            engine@ == (EngineView {
                system_fonts: true,
                fonts_fingerprint: 0,
                cache: Map::<u64, BlockView>::empty(),
            }),
            engine@.wf(),
    {
        let engine = Engine {
            system_fonts: true,
            fonts_fingerprint: 0,
            block_cache: HashMap::new(),
        };
        proof {
            assert(engine@.cache =~= Map::<u64, BlockView>::empty());
        }
        engine
    }

    /// An engine that finds fonts without looking at the system, if the fonts
    /// that it has to make do with could be loaded.
    pub fn new_deterministic<E>(bundled_fonts: Result<(), E>) -> (engine: Result<Engine, E>)
        ensures
            match (engine, bundled_fonts) {
                (Ok(engine), Ok(_)) => engine@.wf() && engine@ == (EngineView {
                    system_fonts: false,
                    fonts_fingerprint: 0,
                    cache: Map::<u64, BlockView>::empty(),
                }),
                (Err(error), Err(cause)) => error == cause,
                _ => false,
            },
    {
        match bundled_fonts {
            Ok(_) => {
                let engine = Engine {
                    system_fonts: false,
                    fonts_fingerprint: 0,
                    block_cache: HashMap::new(),
                };
                proof {
                    assert(engine@.cache =~= Map::<u64, BlockView>::empty());
                }
                Ok(engine)
            },
            Err(cause) => Err(cause),
        }
    }

    /// Whether fonts of the system may be used.
    pub fn uses_system_fonts(&self) -> (yes: bool)
        ensures
            yes == self@.system_fonts,
    {
        self.system_fonts
    }

    /// The layout of a paragraph of the body in a given width: the one that is
    /// kept, or else a new one, which is kept if the paragraph is recognizable
    /// and has no list marker.
    fn block_for(
        &mut self,
        input: &LayoutInput,
        paragraph: &Paragraph,
        width: Emu,
        diagnostics: &mut Vec<Diagnostic>,
    ) -> (block: Rc<ParagraphBlock>)
        ensures
            ({
                let before = old(self)@;
                let key = crate::fingerprint::block_key(
                    paragraph.source@,
                    width,
                    input.revision_view,
                    before.fonts_fingerprint,
                );
                let (fresh, reported) = crate::paragraph::laid_out(*input, *paragraph, width);
                let hit = is_kept(before.cache, *paragraph, key);
                &&& final(self)@ == (EngineView {
                    cache: if hit {
                        before.cache
                    } else {
                        cache_after(before.cache, *paragraph, key, fresh)
                    },
                    ..before
                })
                &&& block@ == if hit {
                    before.cache[key]
                } else {
                    fresh
                }
                &&& crate::plan::diagnostic_views(final(diagnostics)@)
                    == crate::plan::diagnostic_views(old(diagnostics)@) + if hit {
                    Seq::empty()
                } else {
                    reported
                }
            }),
            old(self)@.wf() ==> final(self)@.wf(),
    {
        broadcast use vstd::std_specs::hash::group_hash_axioms;

        let key = key_of_block(
            &paragraph.source,
            width,
            input.revision_view,
            self.fonts_fingerprint,
        );
        let ghost before = self@;
        proof {
            assert(before.cache.dom() =~= self.block_cache@.dom());
            let reported = crate::plan::diagnostic_views(diagnostics@);
            assert(reported =~= reported + Seq::empty());
        }
        let known = paragraph.source.len() > 0;
        if known {
            if let Some(kept) = self.block_cache.get(&key) {
                return share(kept);
            }
        }
        let block = Rc::new(layout_paragraph(paragraph, width, input, diagnostics));
        if known && !block_has_marker(&block) {
            if self.block_cache.len() >= CACHE_LIMIT {
                self.block_cache.clear();
            }
            proof {
                lemma_cache_insert(self.block_cache@, key, block);
            }
            self.block_cache.insert(key, share(&block));
        }
        proof {
            assert(self@.cache.dom() =~= self.block_cache@.dom());
        }
        block
    }

    /// Places a paragraph after what has been placed before it.
    fn place_paragraph<'a>(
        &mut self,
        flow: BodyFlow<'a>,
        input: &'a LayoutInput,
        reflow: bool,
        paragraph: &'a Paragraph,
    ) -> (placed: BodyFlow<'a>)
        requires
            reflow == crate::drawing::document_wraps(*input),
        ensures
            placed.with_cache(final(self)@.cache) == paragraph_placed(
                flow.with_cache(old(self)@.cache),
                *input,
                old(self)@.fonts_fingerprint,
                *paragraph,
            ),
            final(self)@ == (EngineView { cache: final(self)@.cache, ..old(self)@ }),
            old(self)@.wf() ==> final(self)@.wf(),
    {
        let ghost before = flow.with_cache(self@.cache);
        let ghost after = paragraph_placed(
            before,
            *input,
            self@.fonts_fingerprint,
            *paragraph,
        );
        let BodyFlow { sections, mut blocks, current, mut diagnostics } = flow;
        let width = geometry_for(
            either_of(
                either_of(ended_section(paragraph), current),
                borrowed(&input.document.sect_pr),
            ),
        ).content_width();
        let block = self.block_for(input, paragraph, width, &mut diagnostics);
        let heading = find_heading(input, paragraph);
        let shown = LayoutBlock::Paragraph { block, reflow, heading };
        proof {
            assert(layout_views(blocks@.push(shown)) =~= after.blocks);
            assert(crate::plan::diagnostic_views(diagnostics@) =~= after.diagnostics);
        }
        blocks.push(shown);
        BodyFlow { sections, blocks, current, diagnostics }
    }

    /// Places a piece of the body after what has been placed before it.
    fn place_content<'a>(
        &mut self,
        flow: BodyFlow<'a>,
        input: &'a LayoutInput,
        reflow: bool,
        content: &'a BodyContent,
        body_index: usize,
    ) -> (placed: BodyFlow<'a>)
        requires
            reflow == crate::drawing::document_wraps(*input),
        ensures
            placed.with_cache(final(self)@.cache) == content_placed(
                flow.with_cache(old(self)@.cache),
                *input,
                old(self)@.fonts_fingerprint,
                *content,
                body_index as int,
            ),
            final(self)@ == (EngineView { cache: final(self)@.cache, ..old(self)@ }),
            old(self)@.wf() ==> final(self)@.wf(),
    {
        proof {
            reveal(content_placed);
        }
        match content {
            BodyContent::Paragraph(paragraph) => {
                let placed = self.place_paragraph(flow, input, reflow, paragraph);
                match ended_section(paragraph) {
                    Some(section) => placed.close(Some(section), input),
                    None => placed,
                }
            },
            BodyContent::Table(_) => flow.place_table(input, body_index),
            _ => flow,
        }
    }

    /// Places the pieces of the body one after the other.
    fn place_body<'a>(&mut self, input: &'a LayoutInput, reflow: bool) -> (placed: BodyFlow<'a>)
        requires
            reflow == crate::drawing::document_wraps(*input),
        ensures
            placed.with_cache(final(self)@.cache) == body_placed(
                old(self)@.cache,
                *input,
                old(self)@.fonts_fingerprint,
                input.document.body@.len(),
            ),
            final(self)@ == (EngineView { cache: final(self)@.cache, ..old(self)@ }),
            old(self)@.wf() ==> final(self)@.wf(),
    {
        let ghost before = self@;
        let ghost fonts = self@.fonts_fingerprint;
        let mut flow = BodyFlow::start();
        let mut i: usize = 0;
        while i < input.document.body.len()
            invariant
                i <= input.document.body@.len(),
                reflow == crate::drawing::document_wraps(*input),
                before.wf() ==> self@.wf(),
                fonts == before.fonts_fingerprint,
                self@ == (EngineView { cache: self@.cache, ..before }),
                flow.with_cache(self@.cache) == body_placed(before.cache, *input, fonts, i as nat),
            decreases input.document.body@.len() - i,
        {
            flow = self.place_content(flow, input, reflow, &input.document.body[i], i);
            i += 1;
        }
        flow
    }

    /// Lays out the body of a document: its sections, one after the other, each
    /// with its blocks, its pages, and its headers and footers.
    pub fn layout(&mut self, input: &LayoutInput) -> (plan: LayoutPlan)
        ensures
            plan@ == planned(old(self)@, *input),
            final(self)@ == engine_after(old(self)@, *input),
            old(self)@.wf() ==> final(self)@.wf(),
    {
        let ghost before = self@;
        let mut load_fonts = false;
        if input.fonts.len() > 0 {
            let fingerprint = fingerprint_fonts(&input.fonts);
            if fingerprint != self.fonts_fingerprint {
                load_fonts = true;
                self.fonts_fingerprint = fingerprint;
            }
        }
        let ghost fonts = loaded_fonts(before.fonts_fingerprint, *input);
        let reflow = document_has_wrapping_drawing(input);
        let flow = self.place_body(input, reflow);
        let ghost placed = flow.with_cache(self@.cache);
        let done = flow.close(borrowed(&input.document.sect_pr), input);
        proof {
            let end = document_flow(before.cache, *input, fonts);
            assert(placed == body_placed(
                before.cache,
                *input,
                fonts,
                input.document.body@.len(),
            ));
            assert(done.with_cache(self@.cache) == end);
        }
        LayoutPlan { load_fonts, sections: done.sections, diagnostics: done.diagnostics }
    }
}

/// How far the layout of a body has come, without the layouts that are kept.
struct BodyFlow<'a> {
    sections: Vec<Section>,
    /// The blocks of the section that has begun.
    blocks: Vec<LayoutBlock>,
    /// The section that ended last.
    current: Option<&'a SectionProperties>,
    diagnostics: Vec<Diagnostic>,
}

impl<'a> BodyFlow<'a> {
    /// What the flow and the kept layouts stand for.
    spec fn with_cache(self, cache: Map<u64, BlockView>) -> FlowView {
        FlowView {
            cache,
            sections: section_views(self.sections@),
            blocks: layout_views(self.blocks@),
            current: section_value(self.current),
            diagnostics: crate::plan::diagnostic_views(self.diagnostics@),
        }
    }

    /// Nothing has been placed yet.
    fn start() -> (flow: BodyFlow<'a>)
        ensures
            forall|cache: Map<u64, BlockView>| #[trigger]
                flow.with_cache(cache) == (FlowView {
                    cache,
                    sections: Seq::empty(),
                    blocks: Seq::empty(),
                    current: None,
                    diagnostics: Seq::empty(),
                }),
    {
        let flow = BodyFlow {
            sections: Vec::new(),
            blocks: Vec::new(),
            current: None,
            diagnostics: Vec::new(),
        };
        proof {
            assert(section_views(flow.sections@) =~= Seq::empty());
            assert(layout_views(flow.blocks@) =~= Seq::empty());
            assert(crate::plan::diagnostic_views(flow.diagnostics@) =~= Seq::empty());
        }
        flow
    }

    /// Places a table.
    fn place_table(self, input: &'a LayoutInput, body_index: usize) -> (placed: BodyFlow<'a>)
        ensures
            forall|cache: Map<u64, BlockView>| #[trigger]
                placed.with_cache(cache) == (FlowView {
                    blocks: self.with_cache(cache).blocks.push(
                        LayoutBlockView::Table {
                            body_index: body_index as int,
                            width: table_width(self.with_cache(cache), *input),
                        },
                    ),
                    ..self.with_cache(cache)
                }),
    {
        let BodyFlow { sections, mut blocks, current, diagnostics } = self;
        let width = geometry_for(
            either_of(current, borrowed(&input.document.sect_pr)),
        ).content_width();
        let table = LayoutBlock::Table { body_index, width };
        proof {
            assert(layout_views(blocks@.push(table)) =~= layout_views(blocks@).push(table@));
        }
        blocks.push(table);
        BodyFlow { sections, blocks, current, diagnostics }
    }

    /// Ends a section: the blocks that were placed since the one before it make it
    /// up.
    fn close(self, section: Option<&'a SectionProperties>, input: &'a LayoutInput) -> (closed:
        BodyFlow<'a>)
        ensures
            forall|cache: Map<u64, BlockView>| #[trigger]
                closed.with_cache(cache) == section_closed(
                    self.with_cache(cache),
                    *input,
                    section_value(section),
                ),
    {
        let BodyFlow { mut sections, blocks, current: _, mut diagnostics } = self;
        let ended = close_section(blocks, section, input, &mut diagnostics);
        proof {
            assert(section_views(sections@.push(ended)) =~= section_views(sections@).push(ended@));
        }
        sections.push(ended);
        let closed = BodyFlow { sections, blocks: Vec::new(), current: section, diagnostics };
        proof {
            assert(layout_views(closed.blocks@) =~= Seq::empty());
        }
        closed
    }
}

/// The widths of sections, which notes are set in.
pub fn content_widths(sections: &Vec<Section>) -> (widths: Vec<Emu>)
    ensures
        widths@ == sections@.map_values(|section: Section| section.geometry.width_between()),
{
    let mut widths: Vec<Emu> = Vec::new();
    let mut i: usize = 0;
    while i < sections.len()
        invariant
            i <= sections@.len(),
            widths@.len() == i,
            forall|k: int|
                0 <= k < i ==> #[trigger] widths@[k] == sections@[k].geometry.width_between(),
        decreases sections@.len() - i,
    {
        widths.push(sections[i].geometry.content_width());
        i += 1;
    }
    proof {
        assert(widths@ =~= sections@.map_values(
            |section: Section| section.geometry.width_between(),
        ));
    }
    widths
}

/// The metadata of the finished document.
#[derive(Debug, PartialEq)]
pub struct DocumentMetadata {
    pub title: Option<String>,
    pub author: Option<String>,
    pub subject: Option<String>,
    pub keywords: Option<String>,
    pub creator: Option<String>,
}

/// The metadata of a document that has descriptive properties.
pub fn document_metadata(input: &LayoutInput) -> (metadata: Option<DocumentMetadata>)
    ensures
        match (metadata, input.core_properties) {
            (Some(metadata), Some(properties)) => {
                &&& metadata.title == properties.title
                &&& metadata.author == properties.creator
                &&& metadata.subject == properties.subject
                &&& metadata.keywords == properties.keywords
                &&& crate::text::opt_view(metadata.creator) == Some("rdocx"@)
            },
            (None, None) => true,
            _ => false,
        },
{
    match &input.core_properties {
        Some(properties) => Some(
            DocumentMetadata {
                title: properties.title.clone(),
                author: properties.creator.clone(),
                subject: properties.subject.clone(),
                keywords: properties.keywords.clone(),
                creator: Some("rdocx".to_owned()),
            },
        ),
        None => None,
    }
}

/// A section with the blocks that were placed since the one before it.
fn close_section(
    blocks: Vec<LayoutBlock>,
    section: Option<&SectionProperties>,
    input: &LayoutInput,
    diagnostics: &mut Vec<Diagnostic>,
) -> (closed: Section)
    ensures
        ({
            let reference = section_value(section);
            let (header_footer, reported) = match reference {
                Some(section) => crate::section::header_footer_of(*input, section),
                None => (None, Seq::empty()),
            };
            &&& closed@ == (SectionView {
                blocks: layout_views(blocks@),
                geometry: geometry_or_letter(reference),
                header_footer,
                title_pg: match reference {
                    Some(section) => crate::style::is_on(section.title_pg),
                    None => false,
                },
            })
            &&& crate::plan::diagnostic_views(final(diagnostics)@) == crate::plan::diagnostic_views(
                old(diagnostics)@,
            ) + reported
        }),
{
    proof {
        let reported = crate::plan::diagnostic_views(diagnostics@);
        assert(reported =~= reported + Seq::empty());
    }
    let geometry = geometry_for(section);
    match section {
        Some(section) => Section {
            blocks,
            geometry,
            header_footer: layout_header_footer(section, input, diagnostics),
            title_pg: on(section.title_pg),
        },
        None => Section { blocks, geometry, header_footer: None, title_pg: false },
    }
}

} // verus!
