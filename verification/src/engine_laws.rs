//! What holds of the layout of every document.

use vstd::prelude::*;

use crate::document::{BodyContent, LayoutInput, Paragraph, SectionProperties};
use crate::engine::{EngineView, FlowView, LayoutBlockView, SectionView};
use crate::paragraph::BlockView;
use crate::units::Emu;

verus! {

/// Where the paragraphs and tables stand among the first `n` pieces of a body.
pub open spec fn laid_out_pieces(body: Seq<BodyContent>, n: nat) -> Seq<int>
    decreases n,
{
    if n == 0 {
        Seq::empty()
    } else {
        let before = laid_out_pieces(body, (n - 1) as nat);
        match body[n - 1] {
            BodyContent::Paragraph(_) => before.push(n - 1),
            BodyContent::Table(_) => before.push(n - 1),
            _ => before,
        }
    }
}

/// The blocks of sections, one section after the other.
pub open spec fn all_blocks(sections: Seq<SectionView>) -> Seq<LayoutBlockView>
    decreases sections.len(),
{
    if sections.len() == 0 {
        Seq::empty()
    } else {
        all_blocks(sections.drop_last()) + sections.last().blocks
    }
}

/// The section that ended last among the first `n` pieces of a body.
pub open spec fn section_before(body: Seq<BodyContent>, n: nat) -> Option<SectionProperties>
    decreases n,
{
    if n == 0 {
        None
    } else {
        let ended = match body[n - 1] {
            BodyContent::Paragraph(paragraph) => crate::engine::section_ended_by(paragraph),
            _ => None,
        };
        crate::engine::either(ended, section_before(body, (n - 1) as nat))
    }
}

/// The width in which the paragraph at an index of the body is set: that of the
/// section that it ends, or else that of the section that ended last before it,
/// or else that of the last section of the document.
pub open spec fn width_at(input: LayoutInput, index: int, paragraph: Paragraph) -> Emu {
    crate::engine::geometry_or_letter(
        crate::engine::either(
            crate::engine::either(
                crate::engine::section_ended_by(paragraph),
                section_before(input.document.body@, index as nat),
            ),
            input.document.sect_pr,
        ),
    ).width_between()
}

/// Which section ended last does not depend on the layouts that are kept.
proof fn lemma_section_before(cache: Map<u64, BlockView>, input: LayoutInput, fonts: u64, n: nat)
    ensures
        crate::engine::body_placed(cache, input, fonts, n).current == section_before(
            input.document.body@,
            n,
        ),
    decreases n,
{
    if n > 0 {
        reveal(crate::engine::content_placed);
        lemma_section_before(cache, input, fonts, (n - 1) as nat);
    }
}

/// The layout that the paragraph at an index of the body gets: the one that is
/// kept when it is reached, or else a new one.
pub open spec fn layout_at(
    cache: Map<u64, BlockView>,
    input: LayoutInput,
    fonts: u64,
    index: int,
    paragraph: Paragraph,
) -> BlockView {
    let kept = crate::engine::body_placed(cache, input, fonts, index as nat).cache;
    let width = width_at(input, index, paragraph);
    let key = key_of(input, fonts, paragraph, width);
    if crate::engine::is_kept(kept, paragraph, key) {
        kept[key]
    } else {
        crate::paragraph::laid_out(input, paragraph, width).0
    }
}

/// Whether a block shows the piece of the body at an index: a paragraph with its
/// layout and its heading, or a table with its place and its width.
pub open spec fn shows_piece(
    cache: Map<u64, BlockView>,
    input: LayoutInput,
    fonts: u64,
    block: LayoutBlockView,
    index: int,
) -> bool {
    match input.document.body@[index] {
        BodyContent::Paragraph(paragraph) => block == (LayoutBlockView::Paragraph {
            block: layout_at(cache, input, fonts, index, paragraph),
            reflow: crate::drawing::document_wraps(input),
            heading: crate::engine::heading_of(input, paragraph),
        }),
        BodyContent::Table(_) => block == (LayoutBlockView::Table {
            body_index: index,
            width: crate::engine::table_width(
                crate::engine::body_placed(cache, input, fonts, index as nat),
                input,
            ),
        }),
        _ => false,
    }
}

/// Whether blocks show the pieces of the body at some indices, one for one.
pub open spec fn show_pieces(
    cache: Map<u64, BlockView>,
    input: LayoutInput,
    fonts: u64,
    blocks: Seq<LayoutBlockView>,
    indices: Seq<int>,
) -> bool {
    &&& blocks.len() == indices.len()
    &&& forall|i: int|
        0 <= i < blocks.len() ==> shows_piece(
            cache,
            input,
            fonts,
            #[trigger] blocks[i],
            indices[i],
        )
}

/// The blocks of a flow: those of its sections, and those of the section that
/// has begun.
spec fn flow_blocks(flow: FlowView) -> Seq<LayoutBlockView> {
    all_blocks(flow.sections) + flow.blocks
}

proof fn lemma_close_keeps_blocks(
    flow: FlowView,
    input: LayoutInput,
    section: Option<SectionProperties>,
)
    ensures
        all_blocks(crate::engine::section_closed(flow, input, section).sections) == flow_blocks(
            flow,
        ),
        flow_blocks(crate::engine::section_closed(flow, input, section)) == flow_blocks(flow),
{
    let after = crate::engine::section_closed(flow, input, section);
    assert(after.sections.drop_last() =~= flow.sections);
    assert(flow_blocks(after) =~= flow_blocks(flow));
}

proof fn lemma_blocks_show_body(
    cache: Map<u64, BlockView>,
    input: LayoutInput,
    fonts: u64,
    n: nat,
)
    requires
        n <= input.document.body@.len(),
    ensures
        show_pieces(
            cache,
            input,
            fonts,
            flow_blocks(crate::engine::body_placed(cache, input, fonts, n)),
            laid_out_pieces(input.document.body@, n),
        ),
    decreases n,
{
    reveal(crate::engine::content_placed);
    let flow = crate::engine::body_placed(cache, input, fonts, n);
    if n == 0 {
        assert(flow_blocks(flow) =~= Seq::empty());
    } else {
        let m = (n - 1) as nat;
        lemma_blocks_show_body(cache, input, fonts, m);
        lemma_section_before(cache, input, fonts, m);
        let before = crate::engine::body_placed(cache, input, fonts, m);
        let shown = flow_blocks(before);
        let indices = laid_out_pieces(input.document.body@, m);
        match input.document.body@[m as int] {
            BodyContent::Paragraph(paragraph) => {
                let placed = crate::engine::paragraph_placed(before, input, fonts, paragraph);
                let block = placed.blocks.last();
                assert(flow_blocks(placed) =~= shown.push(block));
                if let Some(section) = crate::engine::section_ended_by(paragraph) {
                    lemma_close_keeps_blocks(placed, input, Some(section));
                }
                assert(flow_blocks(flow) == shown.push(block));
                lemma_one_more(cache, input, fonts, shown, indices, block, m as int);
            },
            BodyContent::Table(_) => {
                let block = flow.blocks.last();
                assert(flow_blocks(flow) =~= shown.push(block));
                lemma_one_more(cache, input, fonts, shown, indices, block, m as int);
            },
            _ => {},
        }
    }
}

proof fn lemma_one_more(
    cache: Map<u64, BlockView>,
    input: LayoutInput,
    fonts: u64,
    blocks: Seq<LayoutBlockView>,
    indices: Seq<int>,
    block: LayoutBlockView,
    index: int,
)
    requires
        show_pieces(cache, input, fonts, blocks, indices),
        shows_piece(cache, input, fonts, block, index),
    ensures
        show_pieces(cache, input, fonts, blocks.push(block), indices.push(index)),
{
    let more = blocks.push(block);
    let places = indices.push(index);
    assert forall|i: int| 0 <= i < more.len() implies shows_piece(
        cache,
        input,
        fonts,
        #[trigger] more[i],
        places[i],
    ) by {
        if i < blocks.len() {
            assert(shows_piece(cache, input, fonts, blocks[i], indices[i]));
        }
    }
}

/// The sections of a document show every paragraph and every table of its body
/// once, in their order, and nothing else.
pub proof fn law_sections_show_the_body(
    cache: Map<u64, BlockView>,
    input: LayoutInput,
    fonts: u64,
)
    ensures
        show_pieces(
            cache,
            input,
            fonts,
            all_blocks(crate::engine::document_flow(cache, input, fonts).sections),
            laid_out_pieces(input.document.body@, input.document.body@.len()),
        ),
{
    let n = input.document.body@.len();
    lemma_blocks_show_body(cache, input, fonts, n);
    lemma_close_keeps_blocks(
        crate::engine::body_placed(cache, input, fonts, n),
        input,
        input.document.sect_pr,
    );
}

/// How many of the first `n` pieces of a body end a section.
pub open spec fn sections_ended(body: Seq<BodyContent>, n: nat) -> nat
    decreases n,
{
    if n == 0 {
        0
    } else {
        sections_ended(body, (n - 1) as nat) + match body[n - 1] {
            BodyContent::Paragraph(paragraph) => if crate::engine::section_ended_by(
                paragraph,
            ) is Some {
                1nat
            } else {
                0nat
            },
            _ => 0nat,
        }
    }
}

proof fn lemma_section_count(cache: Map<u64, BlockView>, input: LayoutInput, fonts: u64, n: nat)
    ensures
        crate::engine::body_placed(cache, input, fonts, n).sections.len() == sections_ended(
            input.document.body@,
            n,
        ),
    decreases n,
{
    if n > 0 {
        reveal(crate::engine::content_placed);
        lemma_section_count(cache, input, fonts, (n - 1) as nat);
    }
}

/// A document has one section for each paragraph that ends one, and a last one.
pub proof fn law_one_section_more_than_section_ends(
    cache: Map<u64, BlockView>,
    input: LayoutInput,
    fonts: u64,
)
    ensures
        crate::engine::document_flow(cache, input, fonts).sections.len() == sections_ended(
            input.document.body@,
            input.document.body@.len(),
        ) + 1,
{
    lemma_section_count(cache, input, fonts, input.document.body@.len());
}

/// The key of a paragraph in a width.
pub open spec fn key_of(input: LayoutInput, fonts: u64, paragraph: Paragraph, width: Emu) -> u64 {
    crate::fingerprint::block_key(paragraph.source@, width, input.revision_view, fonts)
}

/// The key of the paragraph at an index of the body, in the width in which the
/// body sets it.
pub open spec fn key_at(input: LayoutInput, fonts: u64, index: int, paragraph: Paragraph) -> u64 {
    key_of(input, fonts, paragraph, width_at(input, index, paragraph))
}

/// The layout of the paragraph at an index of the body, in the width in which the
/// body sets it.
pub open spec fn own_layout(input: LayoutInput, index: int, paragraph: Paragraph) -> BlockView {
    crate::paragraph::laid_out(input, paragraph, width_at(input, index, paragraph)).0
}

/// Whether every layout that is kept under the key of a paragraph of the body is
/// the layout of that paragraph.
pub open spec fn is_faithful(cache: Map<u64, BlockView>, input: LayoutInput, fonts: u64) -> bool {
    forall|i: int|
        0 <= i < input.document.body@.len() ==> #[trigger] keeps_truly(cache, input, fonts, i)
}

/// Whether the layout that is kept under the key of the paragraph at index `i`,
/// if one is, is the layout of that paragraph.
pub open spec fn keeps_truly(
    cache: Map<u64, BlockView>,
    input: LayoutInput,
    fonts: u64,
    i: int,
) -> bool {
    match input.document.body@[i] {
        BodyContent::Paragraph(paragraph) => {
            let key = key_at(input, fonts, i, paragraph);
            crate::engine::is_kept(cache, paragraph, key) ==> cache[key] == own_layout(
                input,
                i,
                paragraph,
            )
        },
        _ => true,
    }
}

/// Whether two recognizable paragraphs of the body that have the same key, each
/// in the width in which the body sets it, have the same layout.
pub open spec fn keys_tell_apart(input: LayoutInput, fonts: u64) -> bool {
    forall|i: int, j: int|
        0 <= i < input.document.body@.len() && 0 <= j < input.document.body@.len()
            ==> #[trigger] told_apart(input, fonts, i, j)
}

/// Whether the paragraphs at two indices have the same layout if they have the
/// same key.
pub open spec fn told_apart(input: LayoutInput, fonts: u64, i: int, j: int) -> bool {
    match (input.document.body@[i], input.document.body@[j]) {
        (BodyContent::Paragraph(a), BodyContent::Paragraph(b)) => a.source@.len() > 0
            && b.source@.len() > 0 && key_at(input, fonts, i, a) == key_at(input, fonts, j, b)
            ==> own_layout(input, i, a) == own_layout(input, j, b),
        _ => true,
    }
}

/// An engine that keeps nothing yet is faithful to every document.
pub proof fn law_a_new_engine_is_faithful(input: LayoutInput, fonts: u64)
    ensures
        is_faithful(Map::empty(), input, fonts),
{
}

/// Keeping the layout of a paragraph of the body keeps a cache faithful.
proof fn lemma_stays_faithful(
    cache: Map<u64, BlockView>,
    input: LayoutInput,
    fonts: u64,
    at: int,
    paragraph: Paragraph,
)
    requires
        0 <= at < input.document.body@.len(),
        input.document.body@[at] == BodyContent::Paragraph(paragraph),
        is_faithful(cache, input, fonts),
        keys_tell_apart(input, fonts),
    ensures
        is_faithful(
            crate::engine::cache_after(
                cache,
                paragraph,
                key_at(input, fonts, at, paragraph),
                own_layout(input, at, paragraph),
            ),
            input,
            fonts,
        ),
{
    let key = key_at(input, fonts, at, paragraph);
    let fresh = own_layout(input, at, paragraph);
    let after = crate::engine::cache_after(cache, paragraph, key, fresh);
    assert forall|i: int| 0 <= i < input.document.body@.len() implies #[trigger] keeps_truly(
        after,
        input,
        fonts,
        i,
    ) by {
        assert(keeps_truly(cache, input, fonts, i));
        assert(told_apart(input, fonts, i, at));
    }
}

/// Two faithful caches lead to the same sections and blocks, and both stay
/// faithful.
proof fn lemma_same_flow(
    a: Map<u64, BlockView>,
    b: Map<u64, BlockView>,
    input: LayoutInput,
    fonts: u64,
    n: nat,
)
    requires
        n <= input.document.body@.len(),
        is_faithful(a, input, fonts),
        is_faithful(b, input, fonts),
        keys_tell_apart(input, fonts),
    ensures
        ({
            let x = crate::engine::body_placed(a, input, fonts, n);
            let y = crate::engine::body_placed(b, input, fonts, n);
            &&& is_faithful(x.cache, input, fonts)
            &&& is_faithful(y.cache, input, fonts)
            &&& x.sections == y.sections
            &&& x.blocks == y.blocks
            &&& x.current == y.current
        }),
    decreases n,
{
    if n > 0 {
        let m = (n - 1) as nat;
        lemma_same_flow(a, b, input, fonts, m);
        let x = crate::engine::body_placed(a, input, fonts, m);
        let y = crate::engine::body_placed(b, input, fonts, m);
        reveal(crate::engine::content_placed);
        lemma_section_before(a, input, fonts, m);
        lemma_section_before(b, input, fonts, m);
        if let BodyContent::Paragraph(paragraph) = input.document.body@[m as int] {
            assert(keeps_truly(x.cache, input, fonts, m as int));
            assert(keeps_truly(y.cache, input, fonts, m as int));
            lemma_stays_faithful(x.cache, input, fonts, m as int, paragraph);
            lemma_stays_faithful(y.cache, input, fonts, m as int, paragraph);
        }
    }
}

/// Keeping layouts changes nothing but the work: as long as every layout that is
/// kept under a key is the layout of the paragraphs with that key, a document
/// gets the sections that a new engine would give it. The layouts that are kept
/// afterwards are of the same kind.
pub proof fn law_kept_layouts_change_nothing(
    cache: Map<u64, BlockView>,
    input: LayoutInput,
    fonts: u64,
)
    requires
        is_faithful(cache, input, fonts),
        keys_tell_apart(input, fonts),
    ensures
        crate::engine::document_flow(cache, input, fonts).sections == crate::engine::document_flow(
            Map::empty(),
            input,
            fonts,
        ).sections,
        is_faithful(crate::engine::document_flow(cache, input, fonts).cache, input, fonts),
{
    law_a_new_engine_is_faithful(input, fonts);
    lemma_same_flow(cache, Map::empty(), input, fonts, input.document.body@.len());
}

/// The cache that a paragraph of the body is reached with is faithful if the
/// first one was.
proof fn lemma_faithful_at(cache: Map<u64, BlockView>, input: LayoutInput, fonts: u64, n: nat)
    requires
        n <= input.document.body@.len(),
        is_faithful(cache, input, fonts),
        keys_tell_apart(input, fonts),
    ensures
        is_faithful(crate::engine::body_placed(cache, input, fonts, n).cache, input, fonts),
{
    lemma_same_flow(cache, cache, input, fonts, n);
}

/// The blocks of the sections are the layouts of the paragraphs: as long as every
/// layout that is kept under a key is the layout of the paragraphs with that key,
/// each paragraph of the body is shown with its own layout in its own width.
pub proof fn law_sections_hold_the_layouts(
    cache: Map<u64, BlockView>,
    input: LayoutInput,
    fonts: u64,
    k: int,
    paragraph: Paragraph,
)
    requires
        is_faithful(cache, input, fonts),
        keys_tell_apart(input, fonts),
        0 <= k < laid_out_pieces(input.document.body@, input.document.body@.len()).len(),
        input.document.body@[laid_out_pieces(
            input.document.body@,
            input.document.body@.len(),
        )[k]] == BodyContent::Paragraph(paragraph),
    ensures
        ({
            let index = laid_out_pieces(input.document.body@, input.document.body@.len())[k];
            let blocks = all_blocks(crate::engine::document_flow(cache, input, fonts).sections);
            &&& k < blocks.len()
            &&& blocks[k] == (LayoutBlockView::Paragraph {
                block: own_layout(input, index, paragraph),
                reflow: crate::drawing::document_wraps(input),
                heading: crate::engine::heading_of(input, paragraph),
            })
        }),
{
    let n = input.document.body@.len();
    let index = laid_out_pieces(input.document.body@, n)[k];
    let blocks = all_blocks(crate::engine::document_flow(cache, input, fonts).sections);
    law_sections_show_the_body(cache, input, fonts);
    lemma_pieces_in_body(input.document.body@, n, k);
    lemma_faithful_at(cache, input, fonts, index as nat);
    let kept = crate::engine::body_placed(cache, input, fonts, index as nat).cache;
    assert(keeps_truly(kept, input, fonts, index));
    assert(shows_piece(cache, input, fonts, blocks[k], index));
}

proof fn lemma_pieces_in_body(body: Seq<BodyContent>, n: nat, k: int)
    requires
        n <= body.len(),
        0 <= k < laid_out_pieces(body, n).len(),
    ensures
        0 <= laid_out_pieces(body, n)[k] < n,
    decreases n,
{
    if n > 0 {
        let before = laid_out_pieces(body, (n - 1) as nat);
        if k < before.len() {
            lemma_pieces_in_body(body, (n - 1) as nat, k);
        }
    }
}

/// A layout depends on nothing but the document, the layouts that are kept and
/// the fonts that were loaded last: two engines that agree in these make the same
/// plan of the same document, and agree afterwards. Whether an engine may use the
/// fonts of the system makes no difference to its plan.
pub proof fn law_layouts_are_deterministic(
    a: EngineView,
    b: EngineView,
    x: LayoutInput,
    y: LayoutInput,
)
    requires
        a.cache == b.cache,
        a.fonts_fingerprint == b.fonts_fingerprint,
        x == y,
    ensures
        crate::engine::planned(a, x) == crate::engine::planned(b, y),
        crate::engine::engine_after(a, x).cache == crate::engine::engine_after(b, y).cache,
        crate::engine::engine_after(a, x).fonts_fingerprint == crate::engine::engine_after(
            b,
            y,
        ).fonts_fingerprint,
        a == b ==> crate::engine::engine_after(a, x) == crate::engine::engine_after(b, y),
{
}

/// The fonts of a document are loaded once: after a document has been laid out,
/// the same fonts are no longer new.
pub proof fn law_fonts_are_loaded_once(before: u64, input: LayoutInput, again: LayoutInput)
    requires
        input.fonts == again.fonts,
    ensures
        crate::engine::loaded_fonts(crate::engine::loaded_fonts(before, input), again)
            == crate::engine::loaded_fonts(before, input),
{
}

/// Laying a document out again with the same engine gives the same sections.
pub proof fn law_laying_out_again_gives_the_same_sections(engine: EngineView, input: LayoutInput)
    requires
        is_faithful(
            engine.cache,
            input,
            crate::engine::loaded_fonts(engine.fonts_fingerprint, input),
        ),
        keys_tell_apart(
            input,
            crate::engine::loaded_fonts(engine.fonts_fingerprint, input),
        ),
    ensures
        crate::engine::planned(crate::engine::engine_after(engine, input), input).sections
            == crate::engine::planned(engine, input).sections,
{
    let fonts = crate::engine::loaded_fonts(engine.fonts_fingerprint, input);
    let after = crate::engine::engine_after(engine, input);
    law_kept_layouts_change_nothing(engine.cache, input, fonts);
    law_kept_layouts_change_nothing(after.cache, input, fonts);
}

/// As long as there is room for one layout more for each piece of the body, no
/// layout that is kept is dropped.
proof fn lemma_cache_grows(
    cache: Map<u64, BlockView>,
    input: LayoutInput,
    fonts: u64,
    from: nat,
    to: nat,
)
    requires
        cache.dom().finite(),
        cache.dom().len() + to <= crate::engine::CACHE_LIMIT,
        from <= to <= input.document.body@.len(),
    ensures
        ({
            let start = crate::engine::body_placed(cache, input, fonts, from).cache;
            let end = crate::engine::body_placed(cache, input, fonts, to).cache;
            &&& end.dom().finite()
            &&& end.dom().len() <= cache.dom().len() + to
            &&& start.dom().subset_of(end.dom())
        }),
    decreases to,
{
    if to > 0 {
        let last = (to - 1) as nat;
        if from < to {
            lemma_cache_grows(cache, input, fonts, from, last);
        } else {
            lemma_cache_grows(cache, input, fonts, last, last);
        }
        reveal(crate::engine::content_placed);
        let before = crate::engine::body_placed(cache, input, fonts, last);
        let after = crate::engine::body_placed(cache, input, fonts, to);
        if let BodyContent::Paragraph(paragraph) = input.document.body@[last as int] {
            let width = crate::engine::paragraph_width(before, input, paragraph);
            let key = key_of(input, fonts, paragraph, width);
            let fresh = crate::paragraph::laid_out(input, paragraph, width).0;
            assert(before.cache.insert(key, fresh).dom() =~= before.cache.dom().insert(key));
        }
    }
}

/// An edit lays out anew only the paragraphs that it touches: while there is
/// room, the layout of every recognizable paragraph without a list marker is kept
/// under its key when the document has been laid out.
pub proof fn law_layouts_without_marker_are_kept(
    cache: Map<u64, BlockView>,
    input: LayoutInput,
    fonts: u64,
    i: int,
    paragraph: Paragraph,
)
    requires
        cache.dom().finite(),
        cache.dom().len() + input.document.body@.len() <= crate::engine::CACHE_LIMIT,
        0 <= i < input.document.body@.len(),
        input.document.body@[i] == BodyContent::Paragraph(paragraph),
        paragraph.source@.len() > 0,
    ensures
        crate::engine::has_marker(own_layout(input, i, paragraph))
            || crate::engine::document_flow(cache, input, fonts).cache.dom().contains(
            key_at(input, fonts, i, paragraph),
        ),
{
    reveal(crate::engine::content_placed);
    let key = key_at(input, fonts, i, paragraph);
    lemma_section_before(cache, input, fonts, i as nat);
    lemma_cache_grows(cache, input, fonts, i as nat, i as nat);
    lemma_cache_grows(cache, input, fonts, (i + 1) as nat, input.document.body@.len());
    let after = crate::engine::body_placed(cache, input, fonts, (i + 1) as nat);
    if !crate::engine::has_marker(own_layout(input, i, paragraph)) {
        assert(after.cache.dom().contains(key));
    }
}

/// Whether a piece of the body is a paragraph that ends a section with these
/// properties.
pub open spec fn ends_with(content: BodyContent, section: SectionProperties) -> bool {
    match content {
        BodyContent::Paragraph(paragraph) => match paragraph.properties {
            Some(properties) => properties.sect_pr == Some(section),
            None => false,
        },
        _ => false,
    }
}

/// Whether a piece of the body is a paragraph that ends a section.
pub open spec fn ends_any(content: BodyContent) -> bool {
    match content {
        BodyContent::Paragraph(paragraph) => match paragraph.properties {
            Some(properties) => properties.sect_pr is Some,
            None => false,
        },
        _ => false,
    }
}

/// How many of the first `n` pieces of a body end a section.
pub open spec fn ends_before(body: Seq<BodyContent>, n: nat) -> nat
    decreases n,
{
    if n == 0 {
        0
    } else {
        ends_before(body, (n - 1) as nat) + if ends_any(body[n - 1]) {
            1nat
        } else {
            0nat
        }
    }
}

/// Whether a section has the pages, the headers and footers, and the first page of
/// its own properties.
pub open spec fn is_section_of(
    section: SectionView,
    input: LayoutInput,
    properties: SectionProperties,
) -> bool {
    &&& section.geometry == crate::section::geometry_of(properties)
    &&& section.header_footer == crate::section::header_footer_of(input, properties).0
    &&& section.title_pg == (properties.title_pg == Some(true))
}

/// Sections that have ended stay as they are.
proof fn lemma_sections_stay(
    cache: Map<u64, BlockView>,
    input: LayoutInput,
    fonts: u64,
    from: nat,
    to: nat,
)
    requires
        from <= to <= input.document.body@.len(),
    ensures
        ({
            let early = crate::engine::body_placed(cache, input, fonts, from).sections;
            let late = crate::engine::body_placed(cache, input, fonts, to).sections;
            &&& early.len() == ends_before(input.document.body@, from)
            &&& early.len() <= late.len()
            &&& late.take(early.len() as int) == early
        }),
    decreases to,
{
    let early = crate::engine::body_placed(cache, input, fonts, from).sections;
    let late = crate::engine::body_placed(cache, input, fonts, to).sections;
    if to == 0 {
        assert(late.take(early.len() as int) =~= early);
    } else {
        reveal(crate::engine::content_placed);
        let last = (to - 1) as nat;
        let before = crate::engine::body_placed(cache, input, fonts, last).sections;
        if from < to {
            lemma_sections_stay(cache, input, fonts, from, last);
        } else {
            lemma_sections_stay(cache, input, fonts, last, last);
        }
        assert(late == before || (late.len() == before.len() + 1 && late.drop_last() =~= before));
        if from < to {
            assert(late.take(early.len() as int) =~= before.take(early.len() as int));
        } else {
            assert(late.take(early.len() as int) =~= early);
        }
    }
}

/// The section that a paragraph ends is its own: it has the pages, the headers and
/// footers and the first page that the paragraph states for it, it comes after the
/// sections that ended before, and the paragraph is the last that it shows.
pub proof fn law_each_section_is_its_own(
    cache: Map<u64, BlockView>,
    input: LayoutInput,
    fonts: u64,
    i: int,
    properties: SectionProperties,
)
    requires
        0 <= i < input.document.body@.len(),
        ends_with(input.document.body@[i], properties),
    ensures
        ({
            let sections = crate::engine::document_flow(cache, input, fonts).sections;
            let k = ends_before(input.document.body@, i as nat) as int;
            &&& k + 1 < sections.len()
            &&& is_section_of(sections[k], input, properties)
            &&& all_blocks(sections.take(k + 1)).len() == laid_out_pieces(
                input.document.body@,
                (i + 1) as nat,
            ).len()
        }),
{
    let body = input.document.body@;
    let end = crate::engine::document_flow(cache, input, fonts).sections;
    let k = ends_before(body, i as nat) as int;
    let n = (i + 1) as nat;
    reveal(crate::engine::content_placed);
    lemma_sections_stay(cache, input, fonts, i as nat, n);
    lemma_sections_stay(cache, input, fonts, n, body.len());
    let here = crate::engine::body_placed(cache, input, fonts, n);
    let late = crate::engine::body_placed(cache, input, fonts, body.len()).sections;
    assert(ends_before(body, n) == k + 1);
    assert(here.sections.len() == k + 1);
    assert(end.take(k + 1) =~= late.take(k + 1));
    assert(end[k] == here.sections[k]) by {
        assert(end.take(k + 1)[k] == here.sections[k]);
    }
    lemma_blocks_show_body(cache, input, fonts, n);
    assert(here.blocks.len() == 0);
    assert(all_blocks(end.take(k + 1)) =~= flow_blocks(here));
}

/// The last section of a document has the properties that the document states for
/// it, and letter paper without headers and footers where it states none.
pub proof fn law_the_last_section_is_that_of_the_document(
    cache: Map<u64, BlockView>,
    input: LayoutInput,
    fonts: u64,
)
    ensures
        ({
            let sections = crate::engine::document_flow(cache, input, fonts).sections;
            let last = sections.last();
            &&& sections.len() == ends_before(input.document.body@, input.document.body@.len()) + 1
            &&& match input.document.sect_pr {
                Some(properties) => is_section_of(last, input, properties),
                None => {
                    &&& last.geometry.page_width.0 == 12240
                    &&& last.geometry.page_height.0 == 15840
                    &&& last.geometry.margin_top.0 == 1440
                    &&& last.geometry.margin_right.0 == 1440
                    &&& last.geometry.margin_bottom.0 == 1440
                    &&& last.geometry.margin_left.0 == 1440
                    &&& last.geometry.header_distance.0 == 720
                    &&& last.geometry.footer_distance.0 == 720
                    &&& last.header_footer is None
                    &&& !last.title_pg
                },
            }
        }),
{
    let n = input.document.body@.len();
    lemma_sections_stay(cache, input, fonts, n, n);
}

/// Whether a section with these properties is the one that ended last before an
/// index of the body.
pub open spec fn ended_last(body: Seq<BodyContent>, i: int, section: SectionProperties) -> bool {
    exists|j: int|
        0 <= j < i && ends_with(#[trigger] body[j], section) && forall|m: int|
            j < m < i ==> !ends_any(#[trigger] body[m])
}

proof fn lemma_ended_last(body: Seq<BodyContent>, n: nat)
    requires
        n <= body.len(),
    ensures
        match section_before(body, n) {
            Some(section) => ended_last(body, n as int, section),
            None => forall|m: int| 0 <= m < n ==> !ends_any(#[trigger] body[m]),
        },
        forall|section: SectionProperties|
            ended_last(body, n as int, section) ==> section_before(body, n) == Some(section),
    decreases n,
{
    if n > 0 {
        let last = (n - 1) as nat;
        lemma_ended_last(body, last);
        if ends_any(body[last as int]) {
            let section = section_before(body, n)->Some_0;
            assert(ends_with(body[last as int], section));
            assert forall|other: SectionProperties| ended_last(
                body,
                n as int,
                other,
            ) implies section_before(body, n) == Some(other) by {
                let j = choose|j: int|
                    0 <= j < n && ends_with(#[trigger] body[j], other) && forall|m: int|
                        j < m < n ==> !ends_any(#[trigger] body[m]);
                if j < last {
                    assert(!ends_any(body[last as int]));
                }
            }
        } else {
            if let Some(section) = section_before(body, last) {
                let j = choose|j: int|
                    0 <= j < last && ends_with(#[trigger] body[j], section) && forall|m: int|
                        j < m < last ==> !ends_any(#[trigger] body[m]);
                assert(ends_with(body[j], section));
                assert forall|m: int| j < m < n implies !ends_any(#[trigger] body[m]) by {}
            }
            assert forall|other: SectionProperties| ended_last(
                body,
                n as int,
                other,
            ) implies section_before(body, n) == Some(other) by {
                let j = choose|j: int|
                    0 <= j < n && ends_with(#[trigger] body[j], other) && forall|m: int|
                        j < m < n ==> !ends_any(#[trigger] body[m]);
                assert(j < last);
                assert(ended_last(body, last as int, other));
            }
        }
    }
}

/// A paragraph of the body is set in the width of the section that it ends; or
/// else in that of the section that ended last before it; or else in that of the
/// last section; or else in that of letter paper with margins of an inch.
pub proof fn law_paragraphs_have_the_width_of_their_section(
    input: LayoutInput,
    i: int,
    paragraph: Paragraph,
    section: SectionProperties,
)
    requires
        0 <= i < input.document.body@.len(),
        input.document.body@[i] == BodyContent::Paragraph(paragraph),
    ensures
        ({
            let body = input.document.body@;
            let width = width_at(input, i, paragraph).0;
            let wide = crate::section_laws::width_of(section);
            let none_ends = forall|m: int| 0 <= m <= i ==> !ends_any(#[trigger] body[m]);
            &&& ends_with(body[i], section) ==> width == wide
            &&& !ends_any(body[i]) && ended_last(body, i, section) ==> width == wide
            &&& none_ends && input.document.sect_pr == Some(section) ==> width == wide
            &&& none_ends && input.document.sect_pr is None ==> width == 5943600
        }),
{
    let body = input.document.body@;
    crate::section_laws::law_sections_have_the_stated_pages(section);
    lemma_ended_last(body, i as nat);
    if !ends_any(body[i]) {
        if let Some(other) = section_before(body, i as nat) {
            let j = choose|j: int|
                0 <= j < i && ends_with(#[trigger] body[j], other) && forall|m: int|
                    j < m < i ==> !ends_any(#[trigger] body[m]);
            assert(ends_any(body[j]));
        }
    }
}

/// A table of the body is as wide as the section that ended last before it; or
/// else as the last section; or else as letter paper with margins of an inch.
pub proof fn law_tables_have_the_width_of_their_section(
    cache: Map<u64, BlockView>,
    input: LayoutInput,
    fonts: u64,
    k: int,
    section: SectionProperties,
)
    requires
        0 <= k < laid_out_pieces(input.document.body@, input.document.body@.len()).len(),
        input.document.body@[laid_out_pieces(
            input.document.body@,
            input.document.body@.len(),
        )[k]] is Table,
    ensures
        ({
            let body = input.document.body@;
            let i = laid_out_pieces(body, body.len())[k];
            let block = all_blocks(crate::engine::document_flow(cache, input, fonts).sections)[k];
            let none_ends = forall|m: int| 0 <= m < i ==> !ends_any(#[trigger] body[m]);
            &&& block is Table
            &&& block->body_index == i
            &&& ended_last(body, i, section) ==> block->width.0 == crate::section_laws::width_of(
                section,
            )
            &&& none_ends && input.document.sect_pr == Some(section) ==> block->width.0
                == crate::section_laws::width_of(section)
            &&& none_ends && input.document.sect_pr is None ==> block->width.0 == 5943600
        }),
{
    let body = input.document.body@;
    let i = laid_out_pieces(body, body.len())[k];
    let blocks = all_blocks(crate::engine::document_flow(cache, input, fonts).sections);
    law_sections_show_the_body(cache, input, fonts);
    lemma_pieces_in_body(body, body.len(), k);
    assert(shows_piece(cache, input, fonts, blocks[k], i));
    crate::section_laws::law_sections_have_the_stated_pages(section);
    lemma_section_before(cache, input, fonts, i as nat);
    lemma_ended_last(body, i as nat);
    if let Some(other) = section_before(body, i as nat) {
        let j = choose|j: int|
            0 <= j < i && ends_with(#[trigger] body[j], other) && forall|m: int|
                j < m < i ==> !ends_any(#[trigger] body[m]);
        assert(ends_any(body[j]));
    }
}

/// A paragraph that was not written as anything is laid out anew every time.
pub proof fn law_unrecognizable_paragraphs_are_laid_out_anew(
    cache: Map<u64, BlockView>,
    input: LayoutInput,
    fonts: u64,
    i: int,
    paragraph: Paragraph,
)
    requires
        paragraph.source@.len() == 0,
    ensures
        layout_at(cache, input, fonts, i, paragraph) == own_layout(input, i, paragraph),
{
}

/// Whether no item of a layout is a list marker.
pub open spec fn without_marker(block: BlockView) -> bool {
    forall|m: int| 0 <= m < block.items.len() ==> !((#[trigger] block.items[m]) is Marker)
}

proof fn lemma_no_marker_added(
    cache: Map<u64, BlockView>,
    input: LayoutInput,
    fonts: u64,
    n: nat,
    key: u64,
)
    requires
        n <= input.document.body@.len(),
    ensures
        ({
            let after = crate::engine::body_placed(cache, input, fonts, n).cache;
            after.dom().contains(key) ==> (cache.dom().contains(key) && after[key] == cache[key])
                || without_marker(after[key])
        }),
    decreases n,
{
    if n > 0 {
        lemma_no_marker_added(cache, input, fonts, (n - 1) as nat, key);
        reveal(crate::engine::content_placed);
        let before = crate::engine::body_placed(cache, input, fonts, (n - 1) as nat);
        if let BodyContent::Paragraph(paragraph) = input.document.body@[n - 1] {
            let width = crate::engine::paragraph_width(before, input, paragraph);
            let fresh = crate::paragraph::laid_out(input, paragraph, width).0;
            if !crate::engine::has_marker(fresh) {
                assert forall|m: int| 0 <= m < fresh.items.len() implies !((
                #[trigger] fresh.items[m]) is Marker) by {
                    assert(!crate::engine::is_marker(fresh.items[m]));
                }
            }
        }
    }
}

/// The layout of a paragraph with a list marker is never kept: its number depends
/// on what stands before it. What an engine keeps afterwards it either kept before
/// or has no list marker.
pub proof fn law_layouts_with_a_marker_are_not_kept(
    cache: Map<u64, BlockView>,
    input: LayoutInput,
    fonts: u64,
    key: u64,
)
    ensures
        ({
            let after = crate::engine::document_flow(cache, input, fonts).cache;
            after.dom().contains(key) ==> (cache.dom().contains(key) && after[key] == cache[key])
                || without_marker(after[key])
        }),
{
    lemma_no_marker_added(cache, input, fonts, input.document.body@.len(), key);
}

/// A layout without a list marker is kept as soon as it is made, however many are
/// kept already.
pub proof fn law_a_layout_is_kept_when_it_is_made(
    cache: Map<u64, BlockView>,
    input: LayoutInput,
    fonts: u64,
    i: int,
    paragraph: Paragraph,
)
    requires
        0 <= i < input.document.body@.len(),
        input.document.body@[i] == BodyContent::Paragraph(paragraph),
        paragraph.source@.len() > 0,
        without_marker(own_layout(input, i, paragraph)),
    ensures
        crate::engine::body_placed(cache, input, fonts, (i + 1) as nat).cache.dom().contains(
            key_at(input, fonts, i, paragraph),
        ),
        crate::engine::body_placed(cache, input, fonts, (i + 1) as nat).cache[key_at(
            input,
            fonts,
            i,
            paragraph,
        )] == layout_at(cache, input, fonts, i, paragraph),
{
    reveal(crate::engine::content_placed);
    lemma_section_before(cache, input, fonts, i as nat);
    let fresh = own_layout(input, i, paragraph);
    assert(!crate::engine::has_marker(fresh)) by {
        if crate::engine::has_marker(fresh) {
            let m = choose|m: int|
                0 <= m < fresh.items.len() && crate::engine::is_marker(#[trigger] fresh.items[m]);
            assert(fresh.items[m] is Marker);
        }
    }
}

/// What is reported stays reported when one more piece is placed.
proof fn lemma_report_stays(
    flow: FlowView,
    input: LayoutInput,
    fonts: u64,
    content: BodyContent,
    at: int,
)
    ensures
        ({
            let after = crate::engine::content_placed(flow, input, fonts, content, at).diagnostics;
            &&& flow.diagnostics.len() <= after.len()
            &&& after.take(flow.diagnostics.len() as int) == flow.diagnostics
        }),
{
    reveal(crate::engine::content_placed);
    let early = flow.diagnostics;
    let after = crate::engine::content_placed(flow, input, fonts, content, at).diagnostics;
    if let BodyContent::Paragraph(paragraph) = content {
        let placed = crate::engine::paragraph_placed(flow, input, fonts, paragraph).diagnostics;
        assert(placed.take(early.len() as int) =~= early);
        assert(after.take(placed.len() as int) =~= placed);
        assert(after.take(early.len() as int) =~= placed.take(early.len() as int));
    } else {
        assert(after.take(early.len() as int) =~= early);
    }
}

/// What is reported stays reported.
proof fn lemma_reports_stay(
    cache: Map<u64, BlockView>,
    input: LayoutInput,
    fonts: u64,
    from: nat,
    to: nat,
)
    requires
        from <= to <= input.document.body@.len(),
    ensures
        ({
            let early = crate::engine::body_placed(cache, input, fonts, from).diagnostics;
            let late = crate::engine::body_placed(cache, input, fonts, to).diagnostics;
            &&& early.len() <= late.len()
            &&& late.take(early.len() as int) == early
        }),
    decreases to,
{
    let early = crate::engine::body_placed(cache, input, fonts, from).diagnostics;
    let late = crate::engine::body_placed(cache, input, fonts, to).diagnostics;
    if from == to {
        assert(late.take(early.len() as int) =~= early);
    } else {
        let before = crate::engine::body_placed(cache, input, fonts, (to - 1) as nat);
        lemma_reports_stay(cache, input, fonts, from, (to - 1) as nat);
        lemma_report_stays(before, input, fonts, input.document.body@[to - 1], to - 1);
        assert(late.take(early.len() as int) =~= before.diagnostics.take(early.len() as int));
    }
}

/// Whether messages stand among others, one after the other.
pub open spec fn stand_among(
    messages: Seq<crate::plan::DiagnosticView>,
    all: Seq<crate::plan::DiagnosticView>,
) -> bool {
    exists|at: int|
        0 <= at && at + messages.len() <= all.len() && #[trigger] all.subrange(
            at,
            at + messages.len(),
        ) == messages
}

/// What stands among the first messages stands among all.
proof fn lemma_among_more(
    messages: Seq<crate::plan::DiagnosticView>,
    early: Seq<crate::plan::DiagnosticView>,
    all: Seq<crate::plan::DiagnosticView>,
)
    requires
        stand_among(messages, early),
        early.len() <= all.len(),
        all.take(early.len() as int) == early,
    ensures
        stand_among(messages, all),
{
    let at = choose|at: int|
        0 <= at && at + messages.len() <= early.len() && #[trigger] early.subrange(
            at,
            at + messages.len(),
        ) == messages;
    assert(all.subrange(at, at + messages.len()) =~= early.subrange(at, at + messages.len()));
}

proof fn lemma_among_sum(
    before: Seq<crate::plan::DiagnosticView>,
    messages: Seq<crate::plan::DiagnosticView>,
)
    ensures
        stand_among(messages, before + messages),
        (before + messages).take(before.len() as int) == before,
{
    let all = before + messages;
    let at = before.len() as int;
    assert(all.subrange(at, at + messages.len()) =~= messages);
    assert(all.take(at) =~= before);
}

/// What is reported when a paragraph is placed.
proof fn lemma_paragraph_reports(
    flow: FlowView,
    input: LayoutInput,
    fonts: u64,
    paragraph: Paragraph,
    at: int,
    properties: SectionProperties,
)
    ensures
        ({
            let content = BodyContent::Paragraph(paragraph);
            let all = crate::engine::content_placed(flow, input, fonts, content, at).diagnostics;
            let width = crate::engine::paragraph_width(flow, input, paragraph);
            let key = key_of(input, fonts, paragraph, width);
            &&& (paragraph.source@.len() == 0 || !flow.cache.dom().contains(key)) ==> stand_among(
                crate::paragraph::laid_out(input, paragraph, width).1,
                all,
            )
            &&& ends_with(content, properties) ==> stand_among(
                crate::section::header_footer_of(input, properties).1,
                all,
            )
        }),
{
    reveal(crate::engine::content_placed);
    let width = crate::engine::paragraph_width(flow, input, paragraph);
    let key = key_of(input, fonts, paragraph, width);
    let content = BodyContent::Paragraph(paragraph);
    let all = crate::engine::content_placed(flow, input, fonts, content, at).diagnostics;
    let placed = crate::engine::paragraph_placed(flow, input, fonts, paragraph).diagnostics;
    let reported = crate::paragraph::laid_out(input, paragraph, width).1;
    lemma_among_sum(flow.diagnostics, reported);
    match crate::engine::section_ended_by(paragraph) {
        Some(own) => lemma_among_sum(placed, crate::section::header_footer_of(input, own).1),
        None => assert(all.take(placed.len() as int) =~= placed),
    }
    if paragraph.source@.len() == 0 || !flow.cache.dom().contains(key) {
        lemma_among_more(reported, placed, all);
    }
}

/// Whatever is to be reported of a paragraph that is laid out anew, and of the
/// headers and footers of the section that it ends, is reported of the document.
pub proof fn law_everything_is_reported(
    cache: Map<u64, BlockView>,
    input: LayoutInput,
    fonts: u64,
    i: int,
    paragraph: Paragraph,
    properties: SectionProperties,
)
    requires
        0 <= i < input.document.body@.len(),
        input.document.body@[i] == BodyContent::Paragraph(paragraph),
    ensures
        ({
            let all = crate::engine::document_flow(cache, input, fonts).diagnostics;
            let kept = crate::engine::body_placed(cache, input, fonts, i as nat).cache;
            let width = width_at(input, i, paragraph);
            &&& (paragraph.source@.len() == 0 || !kept.dom().contains(
                key_at(input, fonts, i, paragraph),
            )) ==> stand_among(crate::paragraph::laid_out(input, paragraph, width).1, all)
            &&& ends_with(input.document.body@[i], properties) ==> stand_among(
                crate::section::header_footer_of(input, properties).1,
                all,
            )
            &&& input.document.sect_pr == Some(properties) ==> stand_among(
                crate::section::header_footer_of(input, properties).1,
                all,
            )
        }),
{
    let body = input.document.body@;
    let all = crate::engine::document_flow(cache, input, fonts).diagnostics;
    let before = crate::engine::body_placed(cache, input, fonts, i as nat);
    let after = crate::engine::body_placed(cache, input, fonts, (i + 1) as nat).diagnostics;
    let last = crate::engine::body_placed(cache, input, fonts, body.len()).diagnostics;
    let reported = crate::paragraph::laid_out(input, paragraph, width_at(input, i, paragraph)).1;
    let noted = crate::section::header_footer_of(input, properties).1;
    lemma_section_before(cache, input, fonts, i as nat);
    lemma_reports_stay(cache, input, fonts, (i + 1) as nat, body.len());
    lemma_paragraph_reports(before, input, fonts, paragraph, i, properties);
    match input.document.sect_pr {
        Some(own) => lemma_among_sum(last, crate::section::header_footer_of(input, own).1),
        None => assert(all.take(last.len() as int) =~= last),
    }
    if stand_among(reported, after) {
        lemma_among_more(reported, after, last);
        lemma_among_more(reported, last, all);
    }
    if stand_among(noted, after) {
        lemma_among_more(noted, after, last);
        lemma_among_more(noted, last, all);
    }
}

/// Fonts have to be loaded exactly if a document has some and they are not the
/// ones that were loaded last; a document without fonts leaves everything as it
/// is.
pub proof fn law_only_new_fonts_are_loaded(engine: EngineView, input: LayoutInput)
    ensures
        ({
            let hash = crate::fingerprint::fonts_prefix(input.fonts@, input.fonts@.len());
            let after = crate::engine::engine_after(engine, input);
            &&& crate::engine::planned(engine, input).load_fonts == (input.fonts@.len() > 0 && hash
                != engine.fonts_fingerprint)
            &&& input.fonts@.len() > 0 ==> after.fonts_fingerprint == hash
            &&& input.fonts@.len() == 0 ==> after.fonts_fingerprint == engine.fonts_fingerprint
            &&& after.system_fonts == engine.system_fonts
        }),
{
}

} // verus!
