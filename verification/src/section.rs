//! Sections: their pages, and their headers and footers.

use vstd::prelude::*;

use crate::document::{
    HeaderFooterKind, HeaderFooterPart, HeaderFooterRef, LayoutInput, Paragraph, SectionProperties,
};
use crate::paragraph::{layout_paragraph, BlockView, ParagraphBlock};
use crate::plan::{Diagnostic, DiagnosticView};
use crate::text::str_eq;
use crate::units::{Emu, Twips};

verus! {

/// The size and the margins of a page.
#[derive(Debug, Clone, Copy, PartialEq, Eq, Structural)]
pub struct PageGeometry {
    pub page_width: Twips,
    pub page_height: Twips,
    pub margin_top: Twips,
    pub margin_right: Twips,
    pub margin_bottom: Twips,
    pub margin_left: Twips,
    pub header_distance: Twips,
    pub footer_distance: Twips,
}

impl PageGeometry {
    /// The width between the margins.
    pub open spec fn width_between(self) -> Emu {
        Emu(
            ((self.page_width.0 - self.margin_left.0 - self.margin_right.0)
                * crate::units::EMU_PER_TWIP) as i64,
        )
    }

    /// The width between the margins.
    pub fn content_width(&self) -> (width: Emu)
        ensures
            width == self.width_between(),
            width.0 == (self.page_width.0 - self.margin_left.0 - self.margin_right.0)
                * crate::units::EMU_PER_TWIP,
    {
        let twips: i64 = self.page_width.0 as i64 - self.margin_left.0 as i64
            - self.margin_right.0 as i64;
        Emu(twips * crate::units::EMU_PER_TWIP)
    }
}

/// A stated length, or else the one that is usual.
pub open spec fn stated_or(value: Option<Twips>, usual: i32) -> Twips {
    match value {
        Some(value) => value,
        None => Twips(usual),
    }
}

fn value_or(value: Option<Twips>, usual: i32) -> (length: Twips)
    ensures
        length == stated_or(value, usual),
{
    match value {
        Some(value) => value,
        None => Twips(usual),
    }
}

/// The pages of a section. Letter paper with margins of an inch, and headers and
/// footers half an inch from the edge, stand in for what is not stated.
pub open spec fn geometry_of(section: SectionProperties) -> PageGeometry {
    PageGeometry {
        page_width: stated_or(section.page_width, 12240),
        page_height: stated_or(section.page_height, 15840),
        margin_top: stated_or(section.margin_top, 1440),
        margin_right: stated_or(section.margin_right, 1440),
        margin_bottom: stated_or(section.margin_bottom, 1440),
        margin_left: stated_or(section.margin_left, 1440),
        header_distance: stated_or(section.header_distance, 720),
        footer_distance: stated_or(section.footer_distance, 720),
    }
}

/// The pages of a document that says nothing about them.
pub open spec fn letter_geometry() -> PageGeometry {
    PageGeometry {
        page_width: Twips(12240),
        page_height: Twips(15840),
        margin_top: Twips(1440),
        margin_right: Twips(1440),
        margin_bottom: Twips(1440),
        margin_left: Twips(1440),
        header_distance: Twips(720),
        footer_distance: Twips(720),
    }
}

/// Converts section properties to page geometry.
pub fn sect_pr_to_geometry(section: &SectionProperties) -> (geometry: PageGeometry)
    ensures
        geometry == geometry_of(*section),
{
    PageGeometry {
        page_width: value_or(section.page_width, 12240),
        page_height: value_or(section.page_height, 15840),
        margin_top: value_or(section.margin_top, 1440),
        margin_right: value_or(section.margin_right, 1440),
        margin_bottom: value_or(section.margin_bottom, 1440),
        margin_left: value_or(section.margin_left, 1440),
        header_distance: value_or(section.header_distance, 720),
        footer_distance: value_or(section.footer_distance, 720),
    }
}

/// Whether a section states paper of a width and a height in twips, margins of
/// an inch, headers and footers half an inch from the edge, and nothing else.
pub open spec fn states_paper(section: SectionProperties, width: i32, height: i32) -> bool {
    &&& section.page_width == Some(Twips(width))
    &&& section.page_height == Some(Twips(height))
    &&& section.margin_top == Some(Twips(1440))
    &&& section.margin_right == Some(Twips(1440))
    &&& section.margin_bottom == Some(Twips(1440))
    &&& section.margin_left == Some(Twips(1440))
    &&& section.header_distance == Some(Twips(720))
    &&& section.footer_distance == Some(Twips(720))
    &&& section.title_pg is None
    &&& section.header_refs@.len() == 0
    &&& section.footer_refs@.len() == 0
    &&& !section.changed
}

impl SectionProperties {
    /// A section that states one kind of paper, margins of an inch, and nothing
    /// else.
    fn paper(width: i32, height: i32) -> (section: SectionProperties)
        ensures
            states_paper(section, width, height),
    {
        SectionProperties {
            page_width: Some(Twips(width)),
            page_height: Some(Twips(height)),
            margin_top: Some(Twips(1440)),
            margin_right: Some(Twips(1440)),
            margin_bottom: Some(Twips(1440)),
            margin_left: Some(Twips(1440)),
            header_distance: Some(Twips(720)),
            footer_distance: Some(Twips(720)),
            title_pg: None,
            header_refs: Vec::new(),
            footer_refs: Vec::new(),
            changed: false,
        }
    }

    /// Letter paper with margins of an inch.
    pub fn default_letter() -> (section: SectionProperties)
        ensures
            states_paper(section, 12240, 15840),
            geometry_of(section) == letter_geometry(),
    {
        SectionProperties::paper(12240, 15840)
    }

    /// A4 paper with margins of an inch.
    pub fn default_a4() -> (section: SectionProperties)
        ensures
            states_paper(section, 11906, 16838),
            geometry_of(section) == (PageGeometry {
                page_width: Twips(11906),
                page_height: Twips(16838),
                ..letter_geometry()
            }),
    {
        SectionProperties::paper(11906, 16838)
    }
}

/// The headers and footers of a section.
#[derive(Debug, PartialEq)]
pub struct HeaderFooterContent {
    pub header_blocks: Vec<ParagraphBlock>,
    pub footer_blocks: Vec<ParagraphBlock>,
    pub first_header_blocks: Vec<ParagraphBlock>,
    pub first_footer_blocks: Vec<ParagraphBlock>,
}

/// What [`HeaderFooterContent`] stands for.
pub struct HeaderFooterView {
    pub header_blocks: Seq<BlockView>,
    pub footer_blocks: Seq<BlockView>,
    pub first_header_blocks: Seq<BlockView>,
    pub first_footer_blocks: Seq<BlockView>,
}

impl View for HeaderFooterContent {
    type V = HeaderFooterView;

    open spec fn view(&self) -> HeaderFooterView {
        HeaderFooterView {
            header_blocks: crate::paragraph::block_views(self.header_blocks@),
            footer_blocks: crate::paragraph::block_views(self.footer_blocks@),
            first_header_blocks: crate::paragraph::block_views(self.first_header_blocks@),
            first_footer_blocks: crate::paragraph::block_views(self.first_footer_blocks@),
        }
    }
}

/// What optional headers and footers stand for.
pub open spec fn header_footer_view(
    content: Option<HeaderFooterContent>,
) -> Option<HeaderFooterView> {
    match content {
        Some(content) => Some(content@),
        None => None,
    }
}

/// The layout of the first `n` of some paragraphs.
pub open spec fn flow(input: LayoutInput, paragraphs: Seq<Paragraph>, width: Emu, n: nat) -> (
    Seq<BlockView>,
    Seq<DiagnosticView>,
)
    decreases n,
{
    if n == 0 {
        (Seq::empty(), Seq::empty())
    } else {
        let (blocks, diagnostics) = flow(input, paragraphs, width, (n - 1) as nat);
        let (block, more) = crate::paragraph::laid_out(input, paragraphs[n - 1], width);
        (blocks.push(block), diagnostics + more)
    }
}

/// The condition that a header or footer has a relationship.
pub open spec fn part_has_rel(rel_id: Seq<char>) -> spec_fn(HeaderFooterPart) -> bool {
    |part: HeaderFooterPart| part.rel_id@ == rel_id
}

/// The blocks that references to headers, or to footers, lead to.
pub struct RefsView {
    pub blocks: Seq<BlockView>,
    pub first_blocks: Seq<BlockView>,
    /// Whether any reference leads somewhere.
    pub found: bool,
    pub diagnostics: Seq<DiagnosticView>,
}

/// The blocks that one more reference adds. A reference for even pages adds
/// none, and neither does one that leads nowhere.
pub open spec fn ref_added(
    refs: RefsView,
    input: LayoutInput,
    parts: Seq<HeaderFooterPart>,
    reference: HeaderFooterRef,
    width: Emu,
) -> RefsView {
    if reference.kind == HeaderFooterKind::Even {
        refs
    } else {
        match crate::text::first_where(parts, part_has_rel(reference.rel_id@)) {
            Some(i) => {
                let paragraphs = parts[i].paragraphs@;
                let (blocks, diagnostics) = flow(input, paragraphs, width, paragraphs.len());
                RefsView {
                    blocks: if reference.kind == HeaderFooterKind::Default {
                        refs.blocks + blocks
                    } else {
                        refs.blocks
                    },
                    first_blocks: if reference.kind == HeaderFooterKind::First {
                        refs.first_blocks + blocks
                    } else {
                        refs.first_blocks
                    },
                    found: true,
                    diagnostics: refs.diagnostics + diagnostics,
                }
            },
            None => refs,
        }
    }
}

/// The blocks that the first `n` references lead to.
pub open spec fn refs_of(
    input: LayoutInput,
    parts: Seq<HeaderFooterPart>,
    references: Seq<HeaderFooterRef>,
    width: Emu,
    n: nat,
) -> RefsView
    decreases n,
{
    if n == 0 {
        RefsView {
            blocks: Seq::empty(),
            first_blocks: Seq::empty(),
            found: false,
            diagnostics: Seq::empty(),
        }
    } else {
        ref_added(
            refs_of(input, parts, references, width, (n - 1) as nat),
            input,
            parts,
            references[n - 1],
            width,
        )
    }
}

/// The headers and footers of a section, if any of its references leads
/// somewhere, and what is reported of them.
pub open spec fn header_footer_of(input: LayoutInput, section: SectionProperties) -> (
    Option<HeaderFooterView>,
    Seq<DiagnosticView>,
) {
    let width = geometry_of(section).width_between();
    let headers = refs_of(
        input,
        input.headers@,
        section.header_refs@,
        width,
        section.header_refs@.len(),
    );
    let footers = refs_of(
        input,
        input.footers@,
        section.footer_refs@,
        width,
        section.footer_refs@.len(),
    );
    (
        if headers.found || footers.found {
            Some(
                HeaderFooterView {
                    header_blocks: headers.blocks,
                    footer_blocks: footers.blocks,
                    first_header_blocks: headers.first_blocks,
                    first_footer_blocks: footers.first_blocks,
                },
            )
        } else {
            None
        },
        headers.diagnostics + footers.diagnostics,
    )
}

/// Lays out paragraphs one after the other, and adds them to others.
pub fn layout_flow(
    paragraphs: &Vec<Paragraph>,
    width: Emu,
    input: &LayoutInput,
    blocks: &mut Vec<ParagraphBlock>,
    diagnostics: &mut Vec<Diagnostic>,
)
    ensures
        crate::paragraph::block_views(final(blocks)@) == crate::paragraph::block_views(old(blocks)@)
            + flow(*input, paragraphs@, width, paragraphs@.len()).0,
        crate::plan::diagnostic_views(final(diagnostics)@) == crate::plan::diagnostic_views(
            old(diagnostics)@,
        ) + flow(*input, paragraphs@, width, paragraphs@.len()).1,
{
    let ghost placed = crate::paragraph::block_views(blocks@);
    let ghost reported = crate::plan::diagnostic_views(diagnostics@);
    let mut i: usize = 0;
    proof {
        assert(placed =~= placed + flow(*input, paragraphs@, width, 0).0);
        assert(reported =~= reported + flow(*input, paragraphs@, width, 0).1);
    }
    while i < paragraphs.len()
        invariant
            i <= paragraphs@.len(),
            crate::paragraph::block_views(blocks@) == placed + flow(
                *input,
                paragraphs@,
                width,
                i as nat,
            ).0,
            crate::plan::diagnostic_views(diagnostics@) == reported + flow(
                *input,
                paragraphs@,
                width,
                i as nat,
            ).1,
        decreases paragraphs@.len() - i,
    {
        let block = layout_paragraph(&paragraphs[i], width, input, diagnostics);
        proof {
            let (all, more) = flow(*input, paragraphs@, width, (i + 1) as nat);
            assert(crate::paragraph::block_views(blocks@.push(block))
                =~= crate::paragraph::block_views(blocks@).push(block@));
            assert(crate::paragraph::block_views(blocks@).push(block@) =~= placed + all);
            assert(crate::plan::diagnostic_views(diagnostics@) =~= reported + more);
        }
        blocks.push(block);
        i += 1;
    }
}

/// The header or footer of a relationship.
fn find_part<'a>(parts: &'a Vec<HeaderFooterPart>, rel_id: &str) -> (found: Option<
    &'a HeaderFooterPart,
>)
    ensures
        match (found, crate::text::first_where(parts@, part_has_rel(rel_id@))) {
            (Some(part), Some(i)) => 0 <= i < parts@.len() && *part == parts@[i],
            (None, None) => true,
            _ => false,
        },
{
    let mut i: usize = 0;
    while i < parts.len()
        invariant
            i <= parts@.len(),
            crate::text::first_where(parts@, part_has_rel(rel_id@)) == crate::text::first_from(
                parts@,
                part_has_rel(rel_id@),
                i as int,
            ),
        decreases parts@.len() - i,
    {
        let part = &parts[i];
        if str_eq(part.rel_id.as_str(), rel_id) {
            proof {
                assert(part_has_rel(rel_id@)(parts@[i as int]));
            }
            return Some(part);
        }
        i += 1;
    }
    None
}

/// Lays out what references lead to, for ordinary pages and for the first page.
fn layout_refs(
    references: &Vec<HeaderFooterRef>,
    parts: &Vec<HeaderFooterPart>,
    width: Emu,
    input: &LayoutInput,
    diagnostics: &mut Vec<Diagnostic>,
) -> (result: (Vec<ParagraphBlock>, Vec<ParagraphBlock>, bool))
    ensures
        ({
            let refs = refs_of(*input, parts@, references@, width, references@.len());
            &&& crate::paragraph::block_views(result.0@) == refs.blocks
            &&& crate::paragraph::block_views(result.1@) == refs.first_blocks
            &&& result.2 == refs.found
            &&& crate::plan::diagnostic_views(final(diagnostics)@) == crate::plan::diagnostic_views(
                old(diagnostics)@,
            ) + refs.diagnostics
        }),
{
    let ghost reported = crate::plan::diagnostic_views(diagnostics@);
    let mut blocks: Vec<ParagraphBlock> = Vec::new();
    let mut first_blocks: Vec<ParagraphBlock> = Vec::new();
    let mut found = false;
    let mut i: usize = 0;
    proof {
        let none = refs_of(*input, parts@, references@, width, 0);
        assert(crate::paragraph::block_views(blocks@) =~= none.blocks);
        assert(crate::paragraph::block_views(first_blocks@) =~= none.first_blocks);
        assert(reported =~= reported + none.diagnostics);
    }
    while i < references.len()
        invariant
            i <= references@.len(),
            ({
                let refs = refs_of(*input, parts@, references@, width, i as nat);
                &&& crate::paragraph::block_views(blocks@) == refs.blocks
                &&& crate::paragraph::block_views(first_blocks@) == refs.first_blocks
                &&& found == refs.found
                &&& crate::plan::diagnostic_views(diagnostics@) == reported + refs.diagnostics
            }),
        decreases references@.len() - i,
    {
        let reference = &references[i];
        let ghost before = refs_of(*input, parts@, references@, width, i as nat);
        let ghost after = refs_of(*input, parts@, references@, width, (i + 1) as nat);
        if reference.kind != HeaderFooterKind::Even {
            if let Some(part) = find_part(parts, reference.rel_id.as_str()) {
                if reference.kind == HeaderFooterKind::Default {
                    layout_flow(&part.paragraphs, width, input, &mut blocks, diagnostics);
                } else {
                    layout_flow(&part.paragraphs, width, input, &mut first_blocks, diagnostics);
                }
                found = true;
                proof {
                    assert(crate::plan::diagnostic_views(diagnostics@) =~= reported
                        + after.diagnostics);
                }
            }
        }
        i += 1;
    }
    (blocks, first_blocks, found)
}

/// Lays out the headers and footers of a section, both for ordinary pages and
/// for the first page.
pub fn layout_header_footer(
    section: &SectionProperties,
    input: &LayoutInput,
    diagnostics: &mut Vec<Diagnostic>,
) -> (content: Option<HeaderFooterContent>)
    ensures
        header_footer_view(content) == header_footer_of(*input, *section).0,
        crate::plan::diagnostic_views(final(diagnostics)@) == crate::plan::diagnostic_views(
            old(diagnostics)@,
        ) + header_footer_of(*input, *section).1,
{
    let ghost reported = crate::plan::diagnostic_views(diagnostics@);
    let width = sect_pr_to_geometry(section).content_width();
    let (header_blocks, first_header_blocks, has_header) = layout_refs(
        &section.header_refs,
        &input.headers,
        width,
        input,
        diagnostics,
    );
    let (footer_blocks, first_footer_blocks, has_footer) = layout_refs(
        &section.footer_refs,
        &input.footers,
        width,
        input,
        diagnostics,
    );
    proof {
        assert(crate::plan::diagnostic_views(diagnostics@) =~= reported + header_footer_of(
            *input,
            *section,
        ).1);
    }
    if has_header || has_footer {
        Some(
            HeaderFooterContent {
                header_blocks,
                footer_blocks,
                first_header_blocks,
                first_footer_blocks,
            },
        )
    } else {
        None
    }
}

} // verus!
