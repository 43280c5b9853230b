//! The items of a paragraph once fonts have measured its text: text is cut where
//! a line may be broken, and everything else stays whole.

use vstd::prelude::*;

use crate::plan::{InlineItem, ItemView};
use crate::segments::{text_segments, TextSegment, TextSegmentView};

verus! {

/// A piece of a line.
#[derive(Debug, PartialEq)]
pub enum FlowItem<L> {
    /// Text of the item at an index of the paragraph.
    Text { item: usize, segment: TextSegment<L> },
    /// The item at an index of the paragraph, which holds no text.
    Other { item: usize },
}

/// What a [`FlowItem`] stands for.
pub enum FlowItemView<L> {
    Text { item: int, segment: TextSegmentView<L> },
    Other { item: int },
}

impl<L> View for FlowItem<L> {
    type V = FlowItemView<L>;

    open spec fn view(&self) -> FlowItemView<L> {
        match *self {
            FlowItem::Text { item, segment } => FlowItemView::Text {
                item: item as int,
                segment: segment@,
            },
            FlowItem::Other { item } => FlowItemView::Other { item: item as int },
        }
    }
}

/// What pieces of lines stand for.
pub open spec fn flow_views<L>(items: Seq<FlowItem<L>>) -> Seq<FlowItemView<L>> {
    items.map_values(|item: FlowItem<L>| item@)
}

/// Whether an item holds text.
pub open spec fn holds_text(item: ItemView) -> bool {
    item is Marker || item is Text || item is Whole
}

/// How many of the first `n` items hold text.
pub open spec fn text_count(items: Seq<ItemView>, n: nat) -> nat
    decreases n,
{
    if n == 0 {
        0
    } else {
        text_count(items, (n - 1) as nat) + if holds_text(items[n - 1]) {
            1nat
        } else {
            0nat
        }
    }
}

/// The measured text of an item, as the parts between which a line may be
/// broken. List markers, note numbers and targets have only one part.
pub open spec fn parts_of<L>(item: ItemView, segment: TextSegmentView<L>, by_word: bool) -> Seq<
    TextSegmentView<L>,
> {
    if item is Text {
        crate::segments::slices(
            segment,
            crate::segments::segment_ranges(
                segment.text,
                crate::segments::line_break_offsets(segment.text),
                by_word,
            ),
        )
    } else {
        seq![segment]
    }
}

/// Pieces of text of one item.
pub open spec fn text_pieces<L>(parts: Seq<TextSegmentView<L>>, item: int) -> Seq<FlowItemView<L>> {
    parts.map_values(|segment: TextSegmentView<L>| FlowItemView::Text { item, segment })
}

/// The pieces of the first `n` items. Each item that holds text has the next of
/// the measured texts.
pub open spec fn flow_of<L>(
    items: Seq<ItemView>,
    measured: Seq<TextSegmentView<L>>,
    by_word: bool,
    n: nat,
) -> Seq<FlowItemView<L>>
    decreases n,
{
    if n == 0 {
        Seq::empty()
    } else {
        let before = flow_of(items, measured, by_word, (n - 1) as nat);
        if holds_text(items[n - 1]) {
            before + text_pieces(
                parts_of(
                    items[n - 1],
                    measured[text_count(items, (n - 1) as nat) as int],
                    by_word,
                ),
                n - 1,
            )
        } else {
            before.push(FlowItemView::Other { item: n - 1 })
        }
    }
}

/// Whether the line breaks of the measured texts of the first `n` items are such
/// that cutting there loses nothing.
pub open spec fn breaks_known<L>(
    items: Seq<ItemView>,
    measured: Seq<TextSegmentView<L>>,
    n: nat,
) -> bool {
    forall|i: int|
        0 <= i < n && (#[trigger] items[i]) is Text ==> breaks_known_of(
            measured[text_count(items, i as nat) as int].text,
        )
}

/// Whether the line breaks of a text are such that cutting there loses nothing.
pub open spec fn breaks_known_of(text: Seq<char>) -> bool {
    crate::segments::are_breaks(text, crate::segments::line_break_offsets(text))
}

/// The texts of pieces. A piece that holds none has an empty one.
pub open spec fn flow_texts<L>(flow: Seq<FlowItemView<L>>) -> Seq<Seq<char>> {
    flow.map_values(|piece: FlowItemView<L>| piece_text(piece))
}

/// The text of a piece.
pub open spec fn piece_text<L>(piece: FlowItemView<L>) -> Seq<char> {
    match piece {
        FlowItemView::Text { segment, .. } => segment.text,
        FlowItemView::Other { .. } => Seq::empty(),
    }
}

proof fn lemma_flow_text<L>(
    items: Seq<ItemView>,
    measured: Seq<TextSegmentView<L>>,
    by_word: bool,
    n: nat,
)
    requires
        n <= items.len(),
        measured.len() == text_count(items, items.len()),
        breaks_known(items, measured, items.len()),
    ensures
        text_count(items, n) <= measured.len(),
        crate::text::concat(flow_texts(flow_of(items, measured, by_word, n)))
            == crate::text::concat(
            crate::segments::part_texts(measured.take(text_count(items, n) as int)),
        ),
    decreases n,
{
    lemma_text_count(items, n, items.len());
    let turn = text_count(items, n) as int;
    let texts = crate::segments::part_texts(measured.take(turn));
    let flow = flow_of(items, measured, by_word, n);
    if n == 0 {
        assert(flow_texts(flow) =~= Seq::empty());
        assert(texts =~= Seq::empty());
    } else {
        let m = (n - 1) as nat;
        lemma_flow_text(items, measured, by_word, m);
        let before = flow_of(items, measured, by_word, m);
        let had = text_count(items, m) as int;
        let fewer = crate::segments::part_texts(measured.take(had));
        let item = items[m as int];
        if holds_text(item) {
            let segment = measured[had];
            let parts = parts_of(item, segment, by_word);
            let pieces = text_pieces(parts, m as int);
            assert(flow_texts(flow) =~= flow_texts(before) + flow_texts(pieces));
            crate::text::lemma_concat_add(flow_texts(before), flow_texts(pieces));
            assert(flow_texts(pieces) =~= crate::segments::part_texts(parts));
            if item is Text {
                assert(items[m as int] is Text);
                assert(breaks_known_of(segment.text));
                crate::segments::law_parts_make_up_the_text(
                    segment,
                    crate::segments::line_break_offsets(segment.text),
                    by_word,
                );
            } else {
                assert(crate::segments::part_texts(parts) =~= seq![segment.text]);
                assert(seq![segment.text] =~= Seq::<Seq<char>>::empty().push(segment.text));
                crate::text::lemma_concat_push(Seq::empty(), segment.text);
                assert(crate::text::concat(Seq::<Seq<char>>::empty()) + segment.text
                    =~= segment.text);
            }
            assert(texts =~= fewer.push(segment.text));
            crate::text::lemma_concat_push(fewer, segment.text);
        } else {
            let piece = FlowItemView::<L>::Other { item: m as int };
            assert(flow_texts(flow) =~= flow_texts(before).push(Seq::empty()));
            crate::text::lemma_concat_push(flow_texts(before), Seq::empty());
            assert(crate::text::concat(flow_texts(before)) + Seq::<char>::empty()
                =~= crate::text::concat(flow_texts(before)));
        }
    }
}

/// Cutting the measured texts of a paragraph loses, repeats and moves nothing:
/// the texts of the pieces, one after the other, are the measured texts.
pub proof fn law_flow_keeps_the_text<L>(
    items: Seq<ItemView>,
    measured: Seq<TextSegmentView<L>>,
    by_word: bool,
)
    requires
        measured.len() == text_count(items, items.len()),
        breaks_known(items, measured, items.len()),
    ensures
        crate::text::concat(flow_texts(flow_of(items, measured, by_word, items.len())))
            == crate::text::concat(crate::segments::part_texts(measured)),
{
    lemma_flow_text(items, measured, by_word, items.len());
    assert(measured.take(measured.len() as int) =~= measured);
}

proof fn lemma_text_count(items: Seq<ItemView>, from: nat, to: nat)
    requires
        from <= to <= items.len(),
    ensures
        text_count(items, from) <= text_count(items, to),
    decreases to,
{
    if from < to {
        lemma_text_count(items, from, (to - 1) as nat);
    }
}

/// Adds parts of one item to the pieces of a paragraph.
fn add_parts<L>(flow: &mut Vec<FlowItem<L>>, parts: Vec<TextSegment<L>>, item: usize)
    ensures
        flow_views(final(flow)@) == flow_views(old(flow)@) + text_pieces(
            crate::segments::segment_views(parts@),
            item as int,
        ),
{
    let ghost before = flow_views(flow@);
    let ghost all = crate::segments::segment_views(parts@);
    proof {
        assert(before + text_pieces(all.take(0), item as int) =~= before);
    }
    for segment in it: parts
        invariant
            it.seq() == parts@,
            all == crate::segments::segment_views(parts@),
            flow_views(flow@) == before + text_pieces(all.take(it.index()), item as int),
    {
        proof {
            let k = it.index();
            let piece = FlowItem::Text { item, segment };
            assert(all[k] == segment@);
            assert(flow_views(flow@.push(piece)) =~= flow_views(flow@).push(piece@));
            assert(text_pieces(all.take(k + 1), item as int) =~= text_pieces(
                all.take(k),
                item as int,
            ).push(piece@));
            assert(flow_views(flow@).push(piece@) =~= before + text_pieces(
                all.take(k + 1),
                item as int,
            ));
        }
        flow.push(FlowItem::Text { item, segment });
    }
    proof {
        assert(all.take(parts@.len() as int) =~= all);
    }
}

/// The pieces of a paragraph. `measured` holds the measured text of each item
/// that holds text, in turn.
pub fn flow_items<L: Copy>(
    items: &Vec<InlineItem>,
    measured: Vec<TextSegment<L>>,
    hangul_word_wrap: bool,
) -> (flow: Vec<FlowItem<L>>)
    requires
        measured@.len() == text_count(crate::plan::item_views(items@), items@.len()),
        forall|i: int|
            0 <= i < measured@.len() ==> crate::segments::span_fits(#[trigger] measured@[i]@),
    ensures
        flow_views(flow@) == flow_of(
            crate::plan::item_views(items@),
            crate::segments::segment_views(measured@),
            hangul_word_wrap,
            items@.len(),
        ),
        breaks_known(
            crate::plan::item_views(items@),
            crate::segments::segment_views(measured@),
            items@.len(),
        ),
{
    let ghost views = crate::plan::item_views(items@);
    let ghost texts = crate::segments::segment_views(measured@);
    let mut flow: Vec<FlowItem<L>> = Vec::new();
    let mut waiting: Vec<Option<TextSegment<L>>> = Vec::new();
    for segment in it: measured
        invariant
            waiting@.len() == it.index(),
            it.seq() == measured@,
            forall|k: int| 0 <= k < waiting@.len() ==> #[trigger] waiting@[k] == Some(measured@[k]),
    {
        waiting.push(Some(segment));
    }
    let mut turn: usize = 0;
    let mut i: usize = 0;
    proof {
        assert(flow_views(flow@) =~= flow_of(views, texts, hangul_word_wrap, 0));
    }
    while i < items.len()
        invariant
            i <= items@.len(),
            views == crate::plan::item_views(items@),
            texts == crate::segments::segment_views(measured@),
            waiting@.len() == measured@.len(),
            measured@.len() == text_count(views, items@.len()),
            turn == text_count(views, i as nat),
            turn <= waiting.len(),
            forall|k: int|
                turn <= k < waiting@.len() ==> #[trigger] waiting@[k] == Some(measured@[k]),
            forall|k: int|
                0 <= k < measured@.len() ==> crate::segments::span_fits(#[trigger] measured@[k]@),
            flow_views(flow@) == flow_of(views, texts, hangul_word_wrap, i as nat),
            breaks_known(views, texts, i as nat),
        decreases items@.len() - i,
    {
        proof {
            assert(views[i as int] == items@[i as int]@);
            lemma_text_count(views, (i + 1) as nat, items@.len());
        }
        let item = &items[i];
        let has_text = match item {
            InlineItem::Marker(_) => true,
            InlineItem::Text(_) => true,
            InlineItem::Whole(_) => true,
            _ => false,
        };
        if has_text {
            proof {
                assert(turn < measured@.len());
                assert(waiting@[turn as int] == Some(measured@[turn as int]));
                assert(texts[turn as int] == measured@[turn as int]@);
            }
            if let Some(segment) = waiting[turn].take() {
                let parts = match item {
                    InlineItem::Text(_) => text_segments(segment, hangul_word_wrap),
                    _ => {
                        let mut one: Vec<TextSegment<L>> = Vec::new();
                        one.push(segment);
                        proof {
                            assert(crate::segments::segment_views(one@) =~= seq![segment@]);
                        }
                        one
                    },
                };
                add_parts(&mut flow, parts, i);
            }
            turn += 1;
        } else {
            let piece = FlowItem::Other { item: i };
            proof {
                assert(flow_views(flow@.push(piece)) =~= flow_views(flow@).push(piece@));
            }
            flow.push(piece);
        }
        i += 1;
    }
    flow
}

} // verus!
