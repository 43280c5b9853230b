//! What holds of the pages, the headers and the footers of sections.

use vstd::prelude::*;

use crate::document::{
    HeaderFooterKind, HeaderFooterPart, HeaderFooterRef, LayoutInput, SectionProperties,
};
use crate::paragraph::BlockView;
use crate::units::{Emu, Twips};

verus! {

/// Whether a reference leads to the part at an index, the first with its
/// relationship.
pub open spec fn leads_to(
    reference: HeaderFooterRef,
    parts: Seq<HeaderFooterPart>,
    j: int,
) -> bool {
    &&& 0 <= j < parts.len()
    &&& parts[j].rel_id@ == reference.rel_id@
    &&& forall|m: int| 0 <= m < j ==> (#[trigger] parts[m]).rel_id@ != reference.rel_id@
}

/// Whether a reference is shown: it is for ordinary pages or for the first page,
/// and it leads to a part.
pub open spec fn is_shown(reference: HeaderFooterRef, parts: Seq<HeaderFooterPart>) -> bool {
    &&& reference.kind is Default || reference.kind is First
    &&& exists|j: int|
        0 <= j < parts.len() && (#[trigger] parts[j]).rel_id@ == reference.rel_id@
}

/// Whether any reference is shown.
pub open spec fn any_shown(
    references: Seq<HeaderFooterRef>,
    parts: Seq<HeaderFooterPart>,
) -> bool {
    exists|i: int| 0 <= i < references.len() && is_shown(#[trigger] references[i], parts)
}

/// How many paragraphs the first `n` references of a kind lead to.
pub open spec fn paragraphs_before(
    references: Seq<HeaderFooterRef>,
    parts: Seq<HeaderFooterPart>,
    kind: HeaderFooterKind,
    n: nat,
) -> nat
    decreases n,
{
    if n == 0 {
        0
    } else {
        let before = paragraphs_before(references, parts, kind, (n - 1) as nat);
        if references[n - 1].kind == kind {
            before + paragraphs_of(references[n - 1], parts)
        } else {
            before
        }
    }
}

/// How many paragraphs a reference leads to.
pub open spec fn paragraphs_of(reference: HeaderFooterRef, parts: Seq<HeaderFooterPart>) -> nat {
    if exists|j: int| leads_to(reference, parts, j) {
        let j = choose|j: int| leads_to(reference, parts, j);
        parts[j].paragraphs@.len()
    } else {
        0
    }
}

/// Whether blocks hold the layouts of all paragraphs of a part, one after the
/// other from a place on.
pub open spec fn holds_part(
    blocks: Seq<BlockView>,
    place: int,
    input: LayoutInput,
    part: HeaderFooterPart,
    width: Emu,
) -> bool {
    &&& 0 <= place
    &&& place + part.paragraphs@.len() <= blocks.len()
    &&& forall|m: int|
        0 <= m < part.paragraphs@.len() ==> blocks[place + m] == crate::paragraph::laid_out(
            input,
            #[trigger] part.paragraphs@[m],
            width,
        ).0
}

proof fn lemma_leads_to(reference: HeaderFooterRef, parts: Seq<HeaderFooterPart>)
    ensures
        match crate::text::first_where(
            parts,
            crate::section::part_has_rel(reference.rel_id@),
        ) {
            Some(j) => leads_to(reference, parts, j) && forall|k: int|
                leads_to(reference, parts, k) ==> k == j,
            None => forall|k: int| !leads_to(reference, parts, k) && (0 <= k < parts.len()
                ==> (#[trigger] parts[k]).rel_id@ != reference.rel_id@),
        },
{
    let holds = crate::section::part_has_rel(reference.rel_id@);
    crate::text::lemma_first_from(parts, holds, 0);
    match crate::text::first_where(parts, holds) {
        Some(j) => {
            assert(holds(parts[j]));
            assert forall|m: int| 0 <= m < j implies (#[trigger] parts[m]).rel_id@
                != reference.rel_id@ by {
                assert(!holds(parts[m]));
            }
            assert forall|k: int| leads_to(reference, parts, k) implies k == j by {
                if k < j {
                    assert(!holds(parts[k]));
                } else if j < k {
                    assert(parts[j].rel_id@ != reference.rel_id@);
                }
            }
        },
        None => {
            assert forall|k: int| !leads_to(reference, parts, k) && (0 <= k < parts.len()
                ==> (#[trigger] parts[k]).rel_id@ != reference.rel_id@) by {
                if 0 <= k < parts.len() {
                    assert(!holds(parts[k]));
                }
            }
        },
    }
}

proof fn lemma_flow(
    input: LayoutInput,
    paragraphs: Seq<crate::document::Paragraph>,
    width: Emu,
    n: nat,
)
    requires
        n <= paragraphs.len(),
    ensures
        crate::section::flow(input, paragraphs, width, n).0.len() == n,
        forall|m: int|
            0 <= m < n ==> crate::section::flow(input, paragraphs, width, n).0[m]
                == crate::paragraph::laid_out(input, #[trigger] paragraphs[m], width).0,
    decreases n,
{
    if n > 0 {
        lemma_flow(input, paragraphs, width, (n - 1) as nat);
    }
}

/// The blocks of references for one kind of page.
spec fn blocks_for(refs: crate::section::RefsView, kind: HeaderFooterKind) -> Seq<BlockView> {
    if kind == HeaderFooterKind::Default {
        refs.blocks
    } else {
        refs.first_blocks
    }
}

proof fn lemma_refs(
    input: LayoutInput,
    parts: Seq<HeaderFooterPart>,
    references: Seq<HeaderFooterRef>,
    width: Emu,
    kind: HeaderFooterKind,
    n: nat,
)
    requires
        n <= references.len(),
        kind is Default || kind is First,
    ensures
        ({
            let refs = crate::section::refs_of(input, parts, references, width, n);
            let blocks = blocks_for(refs, kind);
            &&& blocks.len() == paragraphs_before(references, parts, kind, n)
            &&& refs.found == any_shown(references.take(n as int), parts)
            &&& forall|i: int, j: int|
                0 <= i < n && references[i].kind == kind && #[trigger] leads_to(
                    references[i],
                    parts,
                    j,
                ) ==> holds_part(
                    blocks,
                    paragraphs_before(references, parts, kind, i as nat) as int,
                    input,
                    parts[j],
                    width,
                )
        }),
    decreases n,
{
    if n > 0 {
        let m = (n - 1) as nat;
        lemma_refs(input, parts, references, width, kind, m);
        let before = crate::section::refs_of(input, parts, references, width, m);
        let after = crate::section::refs_of(input, parts, references, width, n);
        let reference = references[m as int];
        lemma_leads_to(reference, parts);
        let old_blocks = blocks_for(before, kind);
        let blocks = blocks_for(after, kind);
        let found = crate::text::first_where(
            parts,
            crate::section::part_has_rel(reference.rel_id@),
        );
        if let Some(j) = found {
            let paragraphs = parts[j].paragraphs@;
            lemma_flow(input, paragraphs, width, paragraphs.len());
            assert(leads_to(reference, parts, j));
        }
        assert(old_blocks.len() <= blocks.len());
        assert(blocks.take(old_blocks.len() as int) =~= old_blocks);
        assert forall|i: int, j: int|
            0 <= i < n && references[i].kind == kind && #[trigger] leads_to(
                references[i],
                parts,
                j,
            ) implies holds_part(
            blocks,
            paragraphs_before(references, parts, kind, i as nat) as int,
            input,
            parts[j],
            width,
        ) by {
            let place = paragraphs_before(references, parts, kind, i as nat) as int;
            if i < m {
                assert(holds_part(old_blocks, place, input, parts[j], width));
                assert forall|k: int| 0 <= k < parts[j].paragraphs@.len() implies blocks[place + k]
                    == crate::paragraph::laid_out(
                    input,
                    #[trigger] parts[j].paragraphs@[k],
                    width,
                ).0 by {
                    assert(blocks.take(old_blocks.len() as int)[place + k] == blocks[place + k]);
                    assert(old_blocks[place + k] == crate::paragraph::laid_out(
                        input,
                        parts[j].paragraphs@[k],
                        width,
                    ).0);
                }
            } else {
                assert(found == Some(j));
                let added = crate::section::flow(
                    input,
                    parts[j].paragraphs@,
                    width,
                    parts[j].paragraphs@.len(),
                ).0;
                assert(blocks == old_blocks + added);
                assert forall|k: int| 0 <= k < parts[j].paragraphs@.len() implies blocks[place + k]
                    == crate::paragraph::laid_out(
                    input,
                    #[trigger] parts[j].paragraphs@[k],
                    width,
                ).0 by {
                    assert(blocks[place + k] == added[k]);
                }
            }
        }
        lemma_any_shown(references, parts, n);
        if is_shown(reference, parts) {
            let j = choose|j: int|
                0 <= j < parts.len() && (#[trigger] parts[j]).rel_id@ == reference.rel_id@;
            assert(parts[j].rel_id@ == reference.rel_id@);
            assert(found is Some);
        } else if let Some(j) = found {
            assert(parts[j].rel_id@ == reference.rel_id@);
        }
    } else {
        assert(!any_shown(references.take(0), parts));
    }
}

proof fn lemma_any_shown(
    references: Seq<HeaderFooterRef>,
    parts: Seq<HeaderFooterPart>,
    n: nat,
)
    requires
        0 < n <= references.len(),
    ensures
        any_shown(references.take(n as int), parts) == (any_shown(references.take(n - 1), parts)
            || is_shown(references[n - 1], parts)),
{
    let all = references.take(n as int);
    let fewer = references.take(n - 1);
    if any_shown(all, parts) {
        let i = choose|i: int| 0 <= i < all.len() && is_shown(#[trigger] all[i], parts);
        if i < n - 1 {
            assert(is_shown(fewer[i], parts));
        }
    }
    if any_shown(fewer, parts) {
        let i = choose|i: int| 0 <= i < fewer.len() && is_shown(#[trigger] fewer[i], parts);
        assert(is_shown(all[i], parts));
    }
    if is_shown(references[n - 1], parts) {
        assert(is_shown(all[n - 1], parts));
    }
}

/// The width between the margins of a section, in EMUs: letter paper with margins
/// of an inch stands in for what the section does not state.
pub open spec fn width_of(section: SectionProperties) -> int {
    635 * (length_or(section.page_width, 12240) - length_or(section.margin_left, 1440) - length_or(
        section.margin_right,
        1440,
    ))
}

/// A stated length, or else the usual one.
pub open spec fn length_or(stated: Option<Twips>, usual: int) -> int {
    match stated {
        Some(value) => value.0 as int,
        None => usual,
    }
}

/// The pages of a section are those that it states, and letter paper with margins
/// of an inch and headers and footers half an inch from the edge otherwise.
pub proof fn law_sections_have_the_stated_pages(section: SectionProperties)
    ensures
        ({
            let pages = crate::section::geometry_of(section);
            &&& pages.page_width.0 == length_or(section.page_width, 12240)
            &&& pages.page_height.0 == length_or(section.page_height, 15840)
            &&& pages.margin_top.0 == length_or(section.margin_top, 1440)
            &&& pages.margin_right.0 == length_or(section.margin_right, 1440)
            &&& pages.margin_bottom.0 == length_or(section.margin_bottom, 1440)
            &&& pages.margin_left.0 == length_or(section.margin_left, 1440)
            &&& pages.header_distance.0 == length_or(section.header_distance, 720)
            &&& pages.footer_distance.0 == length_or(section.footer_distance, 720)
            &&& pages.width_between().0 == width_of(section)
        }),
{
}

/// A section has headers and footers exactly if any of its references, to a header
/// or to a footer, for ordinary pages or for the first page, leads to a part.
pub proof fn law_any_header_or_footer_is_content(input: LayoutInput, section: SectionProperties)
    ensures
        (crate::section::header_footer_of(input, section).0 is Some) == (any_shown(
            section.header_refs@,
            input.headers@,
        ) || any_shown(section.footer_refs@, input.footers@)),
{
    let width = crate::section::geometry_of(section).width_between();
    let heads = section.header_refs@;
    let feet = section.footer_refs@;
    lemma_refs(input, input.headers@, heads, width, HeaderFooterKind::Default, heads.len());
    lemma_refs(input, input.footers@, feet, width, HeaderFooterKind::Default, feet.len());
    assert(heads.take(heads.len() as int) =~= heads);
    assert(feet.take(feet.len() as int) =~= feet);
}

/// Every reference to a header or a footer that is shown has the layouts of all
/// paragraphs of its part, in their order and in the width of the section, in the
/// list for its kind of page, after those of the references before it; and the
/// lists hold nothing else.
pub proof fn law_headers_and_footers_hold_their_parts(
    input: LayoutInput,
    section: SectionProperties,
    i: int,
    j: int,
)
    requires
        any_shown(section.header_refs@, input.headers@) || any_shown(
            section.footer_refs@,
            input.footers@,
        ),
    ensures
        ({
            let content = crate::section::header_footer_of(input, section).0->Some_0;
            let width = Emu(width_of(section) as i64);
            let heads = section.header_refs@;
            let feet = section.footer_refs@;
            let usual = HeaderFooterKind::Default;
            let first = HeaderFooterKind::First;
            &&& content.header_blocks.len() == paragraphs_before(
                heads,
                input.headers@,
                usual,
                heads.len(),
            )
            &&& content.first_header_blocks.len() == paragraphs_before(
                heads,
                input.headers@,
                first,
                heads.len(),
            )
            &&& content.footer_blocks.len() == paragraphs_before(
                feet,
                input.footers@,
                usual,
                feet.len(),
            )
            &&& content.first_footer_blocks.len() == paragraphs_before(
                feet,
                input.footers@,
                first,
                feet.len(),
            )
            &&& 0 <= i < heads.len() && heads[i].kind == usual && leads_to(
                heads[i],
                input.headers@,
                j,
            ) ==> holds_part(
                content.header_blocks,
                paragraphs_before(heads, input.headers@, usual, i as nat) as int,
                input,
                input.headers@[j],
                width,
            )
            &&& 0 <= i < heads.len() && heads[i].kind == first && leads_to(
                heads[i],
                input.headers@,
                j,
            ) ==> holds_part(
                content.first_header_blocks,
                paragraphs_before(heads, input.headers@, first, i as nat) as int,
                input,
                input.headers@[j],
                width,
            )
            &&& 0 <= i < feet.len() && feet[i].kind == usual && leads_to(
                feet[i],
                input.footers@,
                j,
            ) ==> holds_part(
                content.footer_blocks,
                paragraphs_before(feet, input.footers@, usual, i as nat) as int,
                input,
                input.footers@[j],
                width,
            )
            &&& 0 <= i < feet.len() && feet[i].kind == first && leads_to(
                feet[i],
                input.footers@,
                j,
            ) ==> holds_part(
                content.first_footer_blocks,
                paragraphs_before(feet, input.footers@, first, i as nat) as int,
                input,
                input.footers@[j],
                width,
            )
        }),
{
    law_any_header_or_footer_is_content(input, section);
    law_sections_have_the_stated_pages(section);
    let width = crate::section::geometry_of(section).width_between();
    let heads = section.header_refs@;
    let feet = section.footer_refs@;
    lemma_refs(input, input.headers@, heads, width, HeaderFooterKind::Default, heads.len());
    lemma_refs(input, input.headers@, heads, width, HeaderFooterKind::First, heads.len());
    lemma_refs(input, input.footers@, feet, width, HeaderFooterKind::Default, feet.len());
    lemma_refs(input, input.footers@, feet, width, HeaderFooterKind::First, feet.len());
}

} // verus!
