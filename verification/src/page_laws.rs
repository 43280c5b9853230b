//! What holds of the fields on finished pages, of measured text, of charts and of
//! what is reported of them.

use vstd::prelude::*;

use crate::document::ChartPart;
use crate::flow::FlowItemView;
use crate::pages::{ElementView, GlyphRunView, PageFacts, PageView, ShapedTextView};
use crate::plan::{ChartSource, DiagnosticView, FieldKind, ItemView};
use crate::segments::TextSegmentView;

verus! {

/// Whether an element is a bookmark.
pub open spec fn is_bookmark<L>(element: ElementView<L>) -> bool {
    match element {
        ElementView::Text(run) => match run.field_kind {
            Some(FieldKind::Target(_)) => true,
            _ => false,
        },
        _ => false,
    }
}

/// Whether an element is a field that shows a page number or a number of pages.
pub open spec fn is_number<L>(element: ElementView<L>) -> bool {
    match element {
        ElementView::Text(run) => match run.field_kind {
            Some(FieldKind::Page) => true,
            Some(FieldKind::NumPages) => true,
            Some(FieldKind::TargetPage(_)) => true,
            _ => false,
        },
        _ => false,
    }
}

/// How many of the first `n` elements are not bookmarks.
pub open spec fn kept_before<L>(elements: Seq<ElementView<L>>, n: nat) -> nat
    decreases n,
{
    if n == 0 {
        0
    } else {
        kept_before(elements, (n - 1) as nat) + if is_bookmark(elements[n - 1]) {
            0nat
        } else {
            1nat
        }
    }
}

/// How many of the first `n` elements are such fields.
pub open spec fn numbers_before<L>(elements: Seq<ElementView<L>>, n: nat) -> nat
    decreases n,
{
    if n == 0 {
        0
    } else {
        numbers_before(elements, (n - 1) as nat) + if is_number(elements[n - 1]) {
            1nat
        } else {
            0nat
        }
    }
}

/// What a field says: a page field the number of its page, a field for the number
/// of pages that number, and a page reference the page that its bookmark is on, or
/// its own text if the bookmark is on none.
pub open spec fn says_number<L>(run: GlyphRunView<L>, facts: PageFacts, text: Seq<char>) -> bool {
    match run.field_kind {
        Some(FieldKind::Page) => text == crate::text::decimal(facts.page_number as nat),
        Some(FieldKind::NumPages) => text == crate::text::decimal(facts.total_pages as nat),
        Some(FieldKind::TargetPage(target)) => {
            &&& facts.bookmark_pages.dom().contains(target) ==> text == crate::text::decimal(
                facts.bookmark_pages[target] as nat,
            )
            &&& !facts.bookmark_pages.dom().contains(target) ==> text == run.text
        },
        _ => false,
    }
}

proof fn lemma_values<L>(elements: Seq<ElementView<L>>, facts: PageFacts, n: nat)
    requires
        n <= elements.len(),
    ensures
        crate::pages::values_on_page(elements, facts, n).len() == numbers_before(elements, n),
    decreases n,
{
    if n > 0 {
        lemma_values(elements, facts, (n - 1) as nat);
    }
}

proof fn lemma_value_at<L>(elements: Seq<ElementView<L>>, facts: PageFacts, i: int, n: nat)
    requires
        0 <= i < n <= elements.len(),
        is_number(elements[i]),
    ensures
        ({
            let values = crate::pages::values_on_page(elements, facts, n);
            let turn = numbers_before(elements, i as nat) as int;
            let run = elements[i]->Text_0;
            &&& turn < values.len()
            &&& values[turn].style == run.style
            &&& says_number(run, facts, values[turn].text)
        }),
    decreases n,
{
    lemma_values(elements, facts, (n - 1) as nat);
    if i < n - 1 {
        lemma_value_at(elements, facts, i, (n - 1) as nat);
    }
}

/// The fields of a page are asked for in the order of its elements, each with its
/// own style and with the number that it shows on this page.
pub proof fn law_fields_are_measured_in_their_order<L>(
    elements: Seq<ElementView<L>>,
    facts: PageFacts,
    i: int,
)
    requires
        0 <= i < elements.len(),
    ensures
        ({
            let values = crate::pages::values_on_page(elements, facts, elements.len());
            let turn = numbers_before(elements, i as nat) as int;
            &&& values.len() == numbers_before(elements, elements.len())
            &&& is_number(elements[i]) ==> turn < values.len() && values[turn].style
                == elements[i]->Text_0.style && says_number(
                elements[i]->Text_0,
                facts,
                values[turn].text,
            )
        }),
{
    lemma_values(elements, facts, elements.len());
    if is_number(elements[i]) {
        lemma_value_at(elements, facts, i, elements.len());
    }
}

proof fn lemma_kept<L>(
    elements: Seq<ElementView<L>>,
    facts: PageFacts,
    shapes: Seq<Option<ShapedTextView<L>>>,
    i: int,
    n: nat,
)
    requires
        n <= elements.len(),
    ensures
        ({
            let filled = crate::pages::filled_in(elements, facts, shapes);
            let left = filled.take(n as int).filter(crate::pages::shows_something());
            &&& left.len() == kept_before(elements, n)
            &&& 0 <= i < n && !is_bookmark(elements[i]) ==> kept_before(elements, i as nat)
                < left.len() && left[kept_before(elements, i as nat) as int] == filled[i]
        }),
    decreases n,
{
    reveal(Seq::filter);
    let keep = crate::pages::shows_something::<L>();
    let filled = crate::pages::filled_in(elements, facts, shapes);
    if n == 0 {
        assert(filled.take(0).filter(keep) =~= Seq::empty());
    } else {
        let m = (n - 1) as nat;
        lemma_kept(elements, facts, shapes, i, m);
        assert(filled.take(n as int).drop_last() =~= filled.take(m as int));
        assert(filled.take(n as int).last() == filled[m as int]);
        assert(filled[m as int] == crate::pages::filled_element(
            elements,
            facts,
            shapes,
            m as int,
        ));
        assert(keep(filled[m as int]) == !is_bookmark(elements[m as int]));
    }
}

/// Finished pages hold every element that is not a bookmark, in the same order. A
/// field that could be measured has the number that it shows and the glyphs that
/// were measured for it in turn, and keeps its style; everything else stays as it
/// is.
pub proof fn law_finished_pages_keep_their_elements<L>(
    elements: Seq<ElementView<L>>,
    facts: PageFacts,
    shapes: Seq<Option<ShapedTextView<L>>>,
    i: int,
)
    requires
        0 <= i < elements.len(),
    ensures
        ({
            let done = crate::pages::substituted(elements, facts, shapes);
            let at = kept_before(elements, i as nat) as int;
            let turn = numbers_before(elements, i as nat) as int;
            &&& done.len() == kept_before(elements, elements.len())
            &&& !is_bookmark(elements[i]) ==> at < done.len()
            &&& !is_bookmark(elements[i]) && !is_number(elements[i]) ==> done[at] == elements[i]
            &&& is_number(elements[i]) && shapes[turn] is None ==> done[at] == elements[i]
            &&& is_number(elements[i]) && shapes[turn] is Some ==> {
                let run = elements[i]->Text_0;
                &&& done[at] is Text
                &&& says_number(run, facts, done[at]->Text_0.text)
                &&& done[at]->Text_0.glyph_ids == shapes[turn]->Some_0.glyph_ids
                &&& done[at]->Text_0.advances == shapes[turn]->Some_0.advances
                &&& done[at]->Text_0.style == run.style
                &&& done[at]->Text_0.field_kind == run.field_kind
            }
        }),
{
    let filled = crate::pages::filled_in(elements, facts, shapes);
    lemma_kept(elements, facts, shapes, i, elements.len());
    lemma_values(elements, facts, i as nat);
    assert(filled.take(elements.len() as int) =~= filled);
    assert(filled[i] == crate::pages::filled_element(elements, facts, shapes, i));
}

/// A page on a background holds one rectangle more than before, under everything
/// else: it begins at the origin, is as large as the page, and has the color of the
/// background.
pub proof fn law_a_background_lies_under_everything<L>(
    page: PageView<L>,
    before: PageView<L>,
    hex: Seq<char>,
    origin: L,
    i: int,
)
    requires
        crate::pages::is_on_background(page, before, hex, origin),
    ensures
        page.elements.len() == before.elements.len() + 1,
        0 <= i < before.elements.len() ==> page.elements[i + 1] == before.elements[i],
        page.elements[0] is FilledRect,
        page.elements[0]->rect.x == origin,
        page.elements[0]->rect.y == origin,
        page.elements[0]->rect.width == page.width,
        page.elements[0]->rect.height == page.height,
        page.elements[0]->color is Hex,
        page.elements[0]->color->Hex_0@ == hex,
        page.page_number == before.page_number,
        page.width == before.width,
        page.height == before.height,
{
    if 0 <= i < before.elements.len() {
        assert(page.elements.skip(1)[i] == page.elements[i + 1]);
    }
}

/// Whether an item is text of any kind.
pub open spec fn is_text(item: ItemView) -> bool {
    match item {
        ItemView::Marker(_) => true,
        ItemView::Text(_) => true,
        ItemView::Whole(_) => true,
        _ => false,
    }
}

/// How many of the first `n` items are text.
pub open spec fn texts_before(items: Seq<ItemView>, n: nat) -> nat
    decreases n,
{
    if n == 0 {
        0
    } else {
        texts_before(items, (n - 1) as nat) + if is_text(items[n - 1]) {
            1nat
        } else {
            0nat
        }
    }
}

/// The item that a piece of a line belongs to.
pub open spec fn item_of<L>(piece: FlowItemView<L>) -> int {
    match piece {
        FlowItemView::Text { item, .. } => item,
        FlowItemView::Other { item } => item,
    }
}

proof fn lemma_text_count(items: Seq<ItemView>, n: nat)
    requires
        n <= items.len(),
    ensures
        crate::flow::text_count(items, n) == texts_before(items, n),
    decreases n,
{
    if n > 0 {
        lemma_text_count(items, (n - 1) as nat);
    }
}

proof fn lemma_flow_order<L>(
    items: Seq<ItemView>,
    measured: Seq<TextSegmentView<L>>,
    by_word: bool,
    n: nat,
)
    requires
        n <= items.len(),
    ensures
        ({
            let flow = crate::flow::flow_of(items, measured, by_word, n);
            &&& forall|a: int| 0 <= a < flow.len() ==> 0 <= item_of(#[trigger] flow[a]) < n
            &&& forall|a: int, b: int|
                0 <= a <= b < flow.len() ==> item_of(#[trigger] flow[a]) <= item_of(
                    #[trigger] flow[b],
                )
        }),
    decreases n,
{
    if n > 0 {
        lemma_flow_order(items, measured, by_word, (n - 1) as nat);
        let before = crate::flow::flow_of(items, measured, by_word, (n - 1) as nat);
        let flow = crate::flow::flow_of(items, measured, by_word, n);
        assert forall|a: int| before.len() <= a < flow.len() implies item_of(#[trigger] flow[a])
            == n - 1 by {}
        assert forall|a: int| 0 <= a < before.len() implies #[trigger] flow[a] == before[a] by {}
    }
}

/// Whether a piece stands among the pieces of a paragraph.
pub open spec fn has_piece<L>(flow: Seq<FlowItemView<L>>, piece: FlowItemView<L>) -> bool {
    exists|a: int| 0 <= a < flow.len() && #[trigger] flow[a] == piece
}

proof fn lemma_flow_piece<L>(
    items: Seq<ItemView>,
    measured: Seq<TextSegmentView<L>>,
    by_word: bool,
    i: int,
    n: nat,
)
    requires
        0 <= i < n <= items.len(),
    ensures
        ({
            let flow = crate::flow::flow_of(items, measured, by_word, n);
            let segment = measured[texts_before(items, i as nat) as int];
            &&& !is_text(items[i]) ==> has_piece(flow, FlowItemView::Other { item: i })
            &&& items[i] is Marker || items[i] is Whole ==> has_piece(
                flow,
                FlowItemView::Text { item: i, segment },
            )
        }),
    decreases n,
{
    lemma_text_count(items, i as nat);
    let before = crate::flow::flow_of(items, measured, by_word, (n - 1) as nat);
    let flow = crate::flow::flow_of(items, measured, by_word, n);
    let segment = measured[texts_before(items, i as nat) as int];
    if i < n - 1 {
        lemma_flow_piece(items, measured, by_word, i, (n - 1) as nat);
        if !is_text(items[i]) {
            let piece = FlowItemView::<L>::Other { item: i };
            let a = choose|a: int| 0 <= a < before.len() && #[trigger] before[a] == piece;
            assert(flow[a] == piece);
        }
        if items[i] is Marker || items[i] is Whole {
            let piece = FlowItemView::Text { item: i, segment };
            let a = choose|a: int| 0 <= a < before.len() && #[trigger] before[a] == piece;
            assert(flow[a] == piece);
        }
    } else {
        assert(is_text(items[i]) ==> flow.len() >= before.len());
        if !is_text(items[i]) {
            assert(flow[before.len() as int] == FlowItemView::<L>::Other { item: i });
        }
        if items[i] is Marker || items[i] is Whole {
            assert(flow[before.len() as int] == (FlowItemView::Text { item: i, segment }));
        }
    }
}

/// The pieces of a paragraph are in the order of its items. An item without text is
/// one piece, and a list marker, the number of a note or a target is never cut: each
/// is one piece with the text that was measured for it in turn.
pub proof fn law_pieces_are_in_the_order_of_the_items<L>(
    items: Seq<ItemView>,
    measured: Seq<TextSegmentView<L>>,
    by_word: bool,
    i: int,
)
    requires
        0 <= i < items.len(),
    ensures
        ({
            let flow = crate::flow::flow_of(items, measured, by_word, items.len());
            let segment = measured[texts_before(items, i as nat) as int];
            &&& forall|a: int, b: int|
                0 <= a <= b < flow.len() ==> item_of(#[trigger] flow[a]) <= item_of(
                    #[trigger] flow[b],
                )
            &&& !is_text(items[i]) ==> has_piece(flow, FlowItemView::Other { item: i })
            &&& items[i] is Marker || items[i] is Whole ==> has_piece(
                flow,
                FlowItemView::Text { item: i, segment },
            )
        }),
{
    lemma_flow_order(items, measured, by_word, items.len());
    lemma_flow_piece(items, measured, by_word, i, items.len());
}

/// Lists of glyphs, one after the other.
pub open spec fn glyphs_of<L>(parts: Seq<TextSegmentView<L>>) -> Seq<u16>
    decreases parts.len(),
{
    if parts.len() == 0 {
        Seq::empty()
    } else {
        glyphs_of(parts.drop_last()) + parts.last().glyph_ids
    }
}

/// Lists of advances, one after the other.
pub open spec fn advances_of<L>(parts: Seq<TextSegmentView<L>>) -> Seq<L>
    decreases parts.len(),
{
    if parts.len() == 0 {
        Seq::empty()
    } else {
        advances_of(parts.drop_last()) + parts.last().advances
    }
}

/// The glyphs and advances of a part are those of its characters.
proof fn lemma_part_glyphs<L>(segment: TextSegmentView<L>, range: (usize, usize))
    requires
        crate::segments::range_ok(segment.text, range),
        segment.glyph_ids.len() == segment.text.len(),
        segment.advances.len() == segment.text.len(),
    ensures
        ({
            let part = crate::segments::segment_slice(segment, range.0 as int, range.1 as int);
            let start = crate::segments::slice_chars(segment.text, 0, range.0 as int).len() as int;
            let end = crate::segments::slice_chars(segment.text, 0, range.1 as int).len() as int;
            &&& 0 <= start <= end <= segment.text.len()
            &&& part.glyph_ids == segment.glyph_ids.subrange(start, end)
            &&& part.advances == segment.advances.subrange(start, end)
            &&& part.text.len() == end - start
        }),
{
    crate::segments::lemma_slices(segment.text, range.0 as int, range.1 as int);
}

/// No bytes of a text encode no characters.
proof fn lemma_no_chars(text: Seq<char>)
    ensures
        crate::segments::slice_chars(text, 0, 0).len() == 0,
{
    assert(vstd::utf8::encode_utf8(text).subrange(0, 0) =~= Seq::<u8>::empty());
}

/// All bytes of a text encode all of its characters.
proof fn lemma_all_chars(text: Seq<char>)
    ensures
        crate::segments::slice_chars(
            text,
            0,
            vstd::utf8::encode_utf8(text).len() as int,
        ).len() == text.len(),
{
    let bytes = vstd::utf8::encode_utf8(text);
    assert(bytes.subrange(0, bytes.len() as int) =~= bytes);
    vstd::utf8::encode_utf8_decode_utf8(text);
}

/// Whether the glyphs and advances of a part are those of a segment from one place
/// up to another.
spec fn is_cut_at<L>(
    segment: TextSegmentView<L>,
    part: TextSegmentView<L>,
    start: int,
    end: int,
) -> bool {
    &&& 0 <= start <= end <= segment.glyph_ids.len()
    &&& end <= segment.advances.len()
    &&& part.glyph_ids == segment.glyph_ids.subrange(start, end)
    &&& part.advances == segment.advances.subrange(start, end)
}

proof fn lemma_glyphs<L>(
    segment: TextSegmentView<L>,
    parts: Seq<TextSegmentView<L>>,
    starts: Seq<int>,
    n: nat,
)
    requires
        starts.len() == parts.len() + 1,
        starts[0] == 0,
        forall|m: int|
            0 <= m < parts.len() ==> is_cut_at(
                segment,
                #[trigger] parts[m],
                starts[m],
                starts[m + 1],
            ),
        n <= parts.len(),
    ensures
        glyphs_of(parts.take(n as int)) == segment.glyph_ids.take(starts[n as int]),
        advances_of(parts.take(n as int)) == segment.advances.take(starts[n as int]),
    decreases n,
{
    let all = parts.take(n as int);
    if n == 0 {
        assert(glyphs_of(all) =~= segment.glyph_ids.take(0));
        assert(advances_of(all) =~= segment.advances.take(0));
    } else {
        lemma_glyphs(segment, parts, starts, (n - 1) as nat);
        let part = parts[n - 1];
        let start = starts[n - 1];
        let end = starts[n as int];
        assert(is_cut_at(segment, part, start, end));
        assert(all.drop_last() =~= parts.take(n - 1));
        assert(all.last() == part);
        assert(segment.glyph_ids.take(start) + segment.glyph_ids.subrange(start, end)
            =~= segment.glyph_ids.take(end));
        assert(segment.advances.take(start) + segment.advances.subrange(start, end)
            =~= segment.advances.take(end));
    }
}

/// Cutting measured text cuts its glyphs and advances with it: those of the parts,
/// one after the other, are those of the whole, and every part keeps the style.
pub proof fn law_parts_keep_the_glyphs<L>(
    segment: TextSegmentView<L>,
    breaks: Seq<usize>,
    by_word: bool,
    i: int,
)
    requires
        crate::segments::are_breaks(segment.text, breaks),
        segment.glyph_ids.len() == segment.text.len(),
        segment.advances.len() == segment.text.len(),
    ensures
        ({
            let parts = crate::segments::slices(
                segment,
                crate::segments::segment_ranges(segment.text, breaks, by_word),
            );
            &&& glyphs_of(parts) == segment.glyph_ids
            &&& advances_of(parts) == segment.advances
            &&& 0 <= i < parts.len() ==> parts[i].style == segment.style
            &&& 0 <= i < parts.len() ==> parts[i].glyph_ids.len() == parts[i].text.len()
        }),
{
    let text = segment.text;
    let ranges = crate::segments::segment_ranges(text, breaks, by_word);
    let parts = crate::segments::slices(segment, ranges);
    crate::segments::law_ranges_divide_the_text(text, breaks, by_word);
    let starts = Seq::new(
        (ranges.len() + 1) as nat,
        |m: int|
            if m == 0 {
                0
            } else {
                crate::segments::slice_chars(text, 0, ranges[m - 1].1 as int).len() as int
            },
    );
    lemma_no_chars(text);
    assert forall|m: int| 0 <= m < parts.len() implies is_cut_at(
        segment,
        #[trigger] parts[m],
        starts[m],
        starts[m + 1],
    ) by {
        assert(crate::segments::range_ok(text, ranges[m]));
        lemma_part_glyphs(segment, ranges[m]);
        if m > 0 {
            assert(ranges[m].0 == ranges[m - 1].1);
        }
    }
    lemma_glyphs(segment, parts, starts, parts.len());
    assert(parts.take(parts.len() as int) =~= parts);
    if text.len() > 0 {
        lemma_all_chars(text);
    }
    assert(starts[parts.len() as int] == text.len());
    assert(segment.glyph_ids.take(text.len() as int) =~= segment.glyph_ids);
    assert(segment.advances.take(text.len() as int) =~= segment.advances);
    if 0 <= i < parts.len() {
        assert(is_cut_at(segment, parts[i], starts[i], starts[i + 1]));
        assert(crate::segments::range_ok(text, ranges[i]));
        lemma_part_glyphs(segment, ranges[i]);
    }
}

/// Characters of the Korean blocks are Korean: conjoining and compatibility
/// letters, the first extension, and all syllables with the second extension. Nothing
/// before, between or after these blocks is.
pub proof fn law_korean_characters_are_in_their_blocks(c: char)
    ensures
        '\u{1100}' <= c <= '\u{11ff}' ==> crate::segments::hangul(c),
        '\u{3130}' <= c <= '\u{318f}' ==> crate::segments::hangul(c),
        '\u{a960}' <= c <= '\u{a97f}' ==> crate::segments::hangul(c),
        '\u{ac00}' <= c <= '\u{d7ff}' ==> crate::segments::hangul(c),
        c < '\u{1100}' || '\u{11ff}' < c < '\u{3130}' || '\u{318f}' < c < '\u{a960}' || '\u{a97f}'
            < c < '\u{ac00}' || '\u{d7ff}' < c ==> !crate::segments::hangul(c),
{
}

/// Whether the chart part at an index is the one of a relationship, the first that
/// has it.
pub open spec fn is_chart(charts: Seq<ChartPart>, rel_id: Seq<char>, j: int) -> bool {
    &&& 0 <= j < charts.len()
    &&& charts[j].rel_id@ == rel_id
    &&& forall|m: int| 0 <= m < j ==> (#[trigger] charts[m]).rel_id@ != rel_id
}

/// A chart is drawn from the first part with its relationship, and noted until it
/// has been drawn; where that part could not be read, or where there is none, a
/// placeholder takes its space and the reason is reported.
pub proof fn law_charts_are_drawn_from_their_parts(
    charts: Seq<ChartPart>,
    rel_id: Seq<char>,
    j: int,
)
    ensures
        ({
            let (source, reported) = crate::drawing::chart_of(charts, rel_id);
            let lost = "relationship was not resolved from the document part"@;
            &&& is_chart(charts, rel_id, j) && charts[j].chart is Ok ==> source
                == ChartSource::Parsed(charts[j].chart->Ok_0) && reported
                == (DiagnosticView::ChartPending { rel_id, chart: charts[j].chart->Ok_0 })
            &&& is_chart(charts, rel_id, j) && charts[j].chart is Err ==> source
                == ChartSource::Placeholder && reported == DiagnosticView::Message(
                "Word chart relationship "@ + rel_id + ": "@ + charts[j].chart->Err_0@,
            )
            &&& (forall|m: int| 0 <= m < charts.len() ==> (#[trigger] charts[m]).rel_id@ != rel_id)
                ==> source == ChartSource::Placeholder && reported == DiagnosticView::Message(
                "Word chart relationship "@ + rel_id + ": "@ + lost,
            )
        }),
{
    let holds = crate::drawing::chart_has_rel(rel_id);
    crate::text::lemma_first_from(charts, holds, 0);
    match crate::text::first_where(charts, holds) {
        Some(i) => {
            assert(holds(charts[i]));
            if is_chart(charts, rel_id, j) {
                if i < j {
                    assert(charts[i].rel_id@ != rel_id);
                } else if j < i {
                    assert(!holds(charts[j]));
                }
            }
        },
        None => {
            if is_chart(charts, rel_id, j) {
                assert(!holds(charts[j]));
            }
        },
    }
}

/// How many of the first `n` things that were noted are charts to be drawn.
pub open spec fn charts_before(noted: Seq<DiagnosticView>, n: nat) -> nat
    decreases n,
{
    if n == 0 {
        0
    } else {
        charts_before(noted, (n - 1) as nat) + if noted[n - 1] is ChartPending {
            1nat
        } else {
            0nat
        }
    }
}

/// Whether something that was noted leads to a message: every message does, and a
/// chart does that could not be drawn.
pub open spec fn is_reported(
    noted: Seq<DiagnosticView>,
    failures: Seq<Option<Seq<char>>>,
    i: int,
) -> bool {
    match noted[i] {
        DiagnosticView::Message(_) => true,
        DiagnosticView::ChartPending { .. } => {
            let turn = charts_before(noted, i as nat) as int;
            turn < failures.len() && failures[turn] is Some
        },
    }
}

/// How many messages the first `n` things that were noted lead to.
pub open spec fn reported_before(
    noted: Seq<DiagnosticView>,
    failures: Seq<Option<Seq<char>>>,
    n: nat,
) -> nat
    decreases n,
{
    if n == 0 {
        0
    } else {
        reported_before(noted, failures, (n - 1) as nat) + if is_reported(
            noted,
            failures,
            n - 1,
        ) {
            1nat
        } else {
            0nat
        }
    }
}

proof fn lemma_settled(
    noted: Seq<DiagnosticView>,
    failures: Seq<Option<Seq<char>>>,
    i: int,
    n: nat,
)
    requires
        n <= noted.len(),
    ensures
        ({
            let messages = crate::plan::settled(noted.take(n as int), failures);
            let at = reported_before(noted, failures, i as nat) as int;
            let turn = charts_before(noted, i as nat) as int;
            &&& crate::plan::pending_charts(noted.take(n as int)) == charts_before(noted, n)
            &&& messages.len() == reported_before(noted, failures, n)
            &&& 0 <= i < n && is_reported(noted, failures, i) ==> at < messages.len() && match noted[i] {
                DiagnosticView::Message(message) => messages[at] == message,
                DiagnosticView::ChartPending { rel_id, .. } => messages[at]
                    == "Word chart relationship "@ + rel_id + ": "@ + failures[turn]->Some_0,
            }
        }),
    decreases n,
{
    if n > 0 {
        lemma_settled(noted, failures, i, (n - 1) as nat);
        assert(noted.take(n as int).drop_last() =~= noted.take(n - 1));
        assert(noted.take(n as int).last() == noted[n - 1]);
    } else {
        assert(noted.take(0) =~= Seq::empty());
    }
}

/// When the charts have been drawn, every message that was noted is left, and each
/// chart that could not be drawn has a message with the reason that was given for it
/// in turn; they are in the order in which they were noted, and nothing else is
/// left.
pub proof fn law_messages_are_left_in_their_order(
    noted: Seq<DiagnosticView>,
    failures: Seq<Option<Seq<char>>>,
    i: int,
)
    ensures
        ({
            let messages = crate::plan::settled(noted, failures);
            let at = reported_before(noted, failures, i as nat) as int;
            let turn = charts_before(noted, i as nat) as int;
            &&& messages.len() == reported_before(noted, failures, noted.len())
            &&& 0 <= i < noted.len() && is_reported(noted, failures, i) ==> at < messages.len()
                && match noted[i] {
                DiagnosticView::Message(message) => messages[at] == message,
                DiagnosticView::ChartPending { rel_id, .. } => messages[at]
                    == "Word chart relationship "@ + rel_id + ": "@ + failures[turn]->Some_0,
            }
        }),
{
    lemma_settled(noted, failures, i, noted.len());
    assert(noted.take(noted.len() as int) =~= noted);
}

} // verus!
