//! What holds of the plan of every paragraph.

use vstd::prelude::*;

use crate::document::{
    BookmarkMarker, BreakType, DisplaySegment, Drawing, Field, FieldArgument, InlineDrawing,
    LayoutInput, ListMarker, Paragraph, RevisionView, Run, RunContent, RunProperties, SegmentProperties, Theme,
};
use crate::field::{FieldValueView, Piece, RunLook};
use crate::plan::{FieldKind, ItemView, NoteRef, NoteStream, PlanView, TextItemView};
use crate::revision::{ProjectedRunView, RawOrder};
use crate::style::ChangeMarks;

verus! {

/// Whether a plan goes on from another one, and every text still has a style and
/// every style a font.
spec fn extends(before: PlanView, after: PlanView) -> bool {
    &&& before.fonts.len() <= after.fonts.len()
    &&& before.styles.len() <= after.styles.len()
    &&& before.items.len() <= after.items.len()
    &&& after.items.take(before.items.len() as int) == before.items
    &&& after.styles.take(before.styles.len() as int) == before.styles
    &&& after.fonts.take(before.fonts.len() as int) == before.fonts
    &&& before.diagnostics.len() <= after.diagnostics.len()
    &&& after.diagnostics.take(before.diagnostics.len() as int) == before.diagnostics
    &&& before.is_closed() ==> after.is_closed()
}

proof fn lemma_extends_self(plan: PlanView)
    ensures
        extends(plan, plan),
{
    assert(plan.items.take(plan.items.len() as int) =~= plan.items);
    assert(plan.styles.take(plan.styles.len() as int) =~= plan.styles);
    assert(plan.fonts.take(plan.fonts.len() as int) =~= plan.fonts);
    assert(plan.diagnostics.take(plan.diagnostics.len() as int) =~= plan.diagnostics);
}

proof fn lemma_extends_on(a: PlanView, b: PlanView, c: PlanView)
    requires
        extends(a, b),
        extends(b, c),
    ensures
        extends(a, c),
{
    assert(c.items.take(a.items.len() as int) =~= c.items.take(b.items.len() as int).take(
        a.items.len() as int,
    ));
    assert(c.styles.take(a.styles.len() as int) =~= c.styles.take(b.styles.len() as int).take(
        a.styles.len() as int,
    ));
    assert(c.fonts.take(a.fonts.len() as int) =~= c.fonts.take(b.fonts.len() as int).take(
        a.fonts.len() as int,
    ));
    assert(c.diagnostics.take(a.diagnostics.len() as int) =~= c.diagnostics.take(
        b.diagnostics.len() as int,
    ).take(a.diagnostics.len() as int));
}

/// One more item, whose style is known, keeps a plan in order.
proof fn lemma_item(plan: PlanView, item: ItemView)
    requires
        crate::plan::style_known(item, plan.styles.len()),
    ensures
        extends(plan, plan.with_item(item)),
{
    let after = plan.with_item(item);
    assert(after.items.take(plan.items.len() as int) =~= plan.items);
    assert(after.styles.take(plan.styles.len() as int) =~= plan.styles);
    assert(after.fonts.take(plan.fonts.len() as int) =~= plan.fonts);
    assert(after.diagnostics.take(plan.diagnostics.len() as int) =~= plan.diagnostics);
    if plan.is_closed() {
        assert forall|i: int| 0 <= i < after.items.len() implies crate::plan::style_known(
            #[trigger] after.items[i],
            after.styles.len(),
        ) by {
            if i < plan.items.len() {
                assert(after.items[i] == plan.items[i]);
            }
        }
    }
}

/// A new font, and a new style in it, keep a plan in order.
proof fn lemma_font_and_style(
    plan: PlanView,
    font: crate::style::FontRequestView,
    style: crate::style::TextStyle,
)
    requires
        style.font == plan.fonts.len() as usize,
    ensures
        extends(plan, plan.with_font(font).with_style(style)),
{
    let after = plan.with_font(font).with_style(style);
    assert(after.items.take(plan.items.len() as int) =~= plan.items);
    assert(after.styles.take(plan.styles.len() as int) =~= plan.styles);
    assert(after.fonts.take(plan.fonts.len() as int) =~= plan.fonts);
    assert(after.diagnostics.take(plan.diagnostics.len() as int) =~= plan.diagnostics);
    if plan.is_closed() {
        assert forall|i: int| 0 <= i < after.styles.len() implies (#[trigger] after.styles[i]).font
            < after.fonts.len() by {
            if i < plan.styles.len() {
                assert(after.styles[i] == plan.styles[i]);
            }
        }
        assert forall|i: int| 0 <= i < after.items.len() implies crate::plan::style_known(
            #[trigger] after.items[i],
            after.styles.len(),
        ) by {
            assert(crate::plan::style_known(plan.items[i], plan.styles.len()));
        }
    }
}

/// A new style in a font that is there keeps a plan in order.
proof fn lemma_style(plan: PlanView, style: crate::style::TextStyle)
    requires
        style.font < plan.fonts.len(),
    ensures
        extends(plan, plan.with_style(style)),
{
    let after = plan.with_style(style);
    assert(after.items.take(plan.items.len() as int) =~= plan.items);
    assert(after.styles.take(plan.styles.len() as int) =~= plan.styles);
    assert(after.fonts.take(plan.fonts.len() as int) =~= plan.fonts);
    assert(after.diagnostics.take(plan.diagnostics.len() as int) =~= plan.diagnostics);
    if plan.is_closed() {
        assert forall|i: int| 0 <= i < after.styles.len() implies (#[trigger] after.styles[i]).font
            < after.fonts.len() by {
            if i < plan.styles.len() {
                assert(after.styles[i] == plan.styles[i]);
            }
        }
        assert forall|i: int| 0 <= i < after.items.len() implies crate::plan::style_known(
            #[trigger] after.items[i],
            after.styles.len(),
        ) by {
            assert(crate::plan::style_known(plan.items[i], plan.styles.len()));
        }
    }
}

proof fn lemma_diagnostic(plan: PlanView, diagnostic: crate::plan::DiagnosticView)
    ensures
        extends(plan, plan.with_diagnostic(diagnostic)),
{
    let after = plan.with_diagnostic(diagnostic);
    assert(after.items.take(plan.items.len() as int) =~= plan.items);
    assert(after.styles.take(plan.styles.len() as int) =~= plan.styles);
    assert(after.fonts.take(plan.fonts.len() as int) =~= plan.fonts);
    assert(after.diagnostics.take(plan.diagnostics.len() as int) =~= plan.diagnostics);
}

proof fn lemma_text(plan: PlanView, style: int, text: Seq<char>, field: Option<FieldKind>)
    requires
        0 <= style < plan.styles.len(),
    ensures
        extends(plan, crate::field::text_added(plan, style, text, field)),
        crate::field::text_added(plan, style, text, field).styles == plan.styles,
        crate::field::text_added(plan, style, text, field).fonts == plan.fonts,
{
    lemma_extends_self(plan);
    if text.len() > 0 {
        lemma_item(plan, ItemView::Text(TextItemView { style, text, field, note: None }));
    }
}

proof fn lemma_pieces(
    plan: PlanView,
    style: int,
    parts: Seq<Piece>,
    caps: bool,
    kind: Option<FieldKind>,
)
    requires
        0 <= style < plan.styles.len(),
        forall|i: int|
            0 <= i < parts.len() ==> control_is_plain(#[trigger] parts[i]),
    ensures
        extends(plan, crate::field::pieces_added(plan, style, parts, caps, kind)),
        crate::field::pieces_added(plan, style, parts, caps, kind).styles == plan.styles,
        crate::field::pieces_added(plan, style, parts, caps, kind).fonts == plan.fonts,
    decreases parts.len(),
{
    if parts.len() == 0 {
        lemma_extends_self(plan);
    } else {
        let rest = parts.drop_last();
        assert forall|i: int| 0 <= i < rest.len() implies control_is_plain(#[trigger] rest[i]) by {
            assert(control_is_plain(parts[i]));
        }
        lemma_pieces(plan, style, rest, caps, kind);
        let before = crate::field::pieces_added(plan, style, rest, caps, kind);
        assert(control_is_plain(parts[parts.len() - 1]));
        match parts.last() {
            Piece::Text(text) => lemma_text(
                before,
                style,
                crate::field::shown(text, caps),
                kind,
            ),
            Piece::Control(item) => lemma_item(before, item),
        }
        lemma_extends_on(
            plan,
            before,
            crate::field::pieces_added(plan, style, parts, caps, kind),
        );
    }
}

/// Whether a piece is text, or stands for an item without a style.
spec fn control_is_plain(piece: Piece) -> bool {
    match piece {
        Piece::Text(_) => true,
        Piece::Control(item) => crate::plan::style_known(item, 0),
    }
}

proof fn lemma_pieces_are_plain(value: Seq<char>)
    ensures
        forall|i: int|
            0 <= i < crate::field::pieces(value).len() ==> control_is_plain(
                #[trigger] crate::field::pieces(value)[i],
            ),
    decreases value.len(),
{
    if value.len() > 0 {
        lemma_pieces_are_plain(value.drop_last());
        let before = crate::field::pieces(value.drop_last());
        let all = crate::field::pieces(value);
        assert forall|i: int| 0 <= i < all.len() implies control_is_plain(#[trigger] all[i]) by {
            if i < before.len() {
                assert(control_is_plain(before[i]));
            }
        }
    }
}

proof fn lemma_segment(
    plan: PlanView,
    theme: Option<Theme>,
    look: RunLook,
    value: Seq<char>,
    stored: Option<SegmentProperties>,
    kind: Option<FieldKind>,
)
    ensures
        extends(plan, crate::field::segment_added(plan, theme, look, value, stored, kind)),
{
    let properties = crate::field::segment_properties(look.properties, stored);
    if crate::style::is_on(properties.vanish) {
        lemma_extends_self(plan);
    } else {
        let style = crate::style::text_style(
            properties,
            theme,
            look.marks,
            plan.fonts.len() as usize,
            look.hyperlink_url,
        );
        let font = crate::style::run_font(properties, theme, value);
        let ready = plan.with_font(font).with_style(style);
        lemma_font_and_style(plan, font, style);
        lemma_pieces_are_plain(value);
        lemma_pieces(
            ready,
            plan.styles.len() as int,
            crate::field::pieces(value),
            crate::style::is_on(properties.caps),
            kind,
        );
        lemma_extends_on(
            plan,
            ready,
            crate::field::segment_added(plan, theme, look, value, stored, kind),
        );
    }
}

proof fn lemma_stored(
    plan: PlanView,
    theme: Option<Theme>,
    look: RunLook,
    display: Seq<DisplaySegment>,
    n: nat,
)
    ensures
        extends(plan, crate::field::stored_added(plan, theme, look, display, n)),
    decreases n,
{
    if n == 0 {
        lemma_extends_self(plan);
    } else {
        lemma_stored(plan, theme, look, display, (n - 1) as nat);
        let before = crate::field::stored_added(plan, theme, look, display, (n - 1) as nat);
        lemma_segment(
            before,
            theme,
            look,
            display[n - 1].text@,
            display[n - 1].properties,
            None,
        );
        lemma_extends_on(
            plan,
            before,
            crate::field::stored_added(plan, theme, look, display, n),
        );
    }
}

proof fn lemma_field(plan: PlanView, input: LayoutInput, look: RunLook, field: Field)
    ensures
        extends(plan, crate::field::field_added(plan, input, look, field)),
{
    let reported = crate::field::field_reported(plan, input, field);
    lemma_extends_self(plan);
    if let Some(diagnostic) = crate::field::field_diagnostic(input, field) {
        lemma_diagnostic(plan, diagnostic);
    }
    match crate::field::field_value(input, field) {
        FieldValueView::Skipped => {},
        FieldValueView::Stored => {
            lemma_stored(reported, input.theme, look, field.display@, field.display@.len());
            lemma_extends_on(plan, reported, crate::field::field_added(plan, input, look, field));
        },
        FieldValueView::Computed { text, kind } => {
            lemma_segment(
                reported,
                input.theme,
                look,
                text,
                crate::field::first_stored(field),
                kind,
            );
            lemma_extends_on(plan, reported, crate::field::field_added(plan, input, look, field));
        },
    }
}

proof fn lemma_note(plan: PlanView, input: LayoutInput, look: RunLook, note: NoteRef)
    requires
        look.font < plan.fonts.len(),
    ensures
        extends(plan, crate::run_plan::note_added(plan, input, look, note)),
{
    let style = crate::style::note_style(
        look.properties,
        input.theme,
        look.marks,
        look.changed,
        look.font,
    );
    lemma_style(plan, style);
    let item = ItemView::Whole(
        TextItemView {
            style: plan.styles.len() as int,
            text: crate::text::signed_decimal(note.id as int),
            field: None,
            note: Some(note),
        },
    );
    lemma_item(plan.with_style(style), item);
    lemma_extends_on(
        plan,
        plan.with_style(style),
        crate::run_plan::note_added(plan, input, look, note),
    );
}

proof fn lemma_content(plan: PlanView, input: LayoutInput, look: RunLook, content: RunContent)
    requires
        look.font < plan.fonts.len(),
        look.style < plan.styles.len(),
    ensures
        extends(plan, crate::run_plan::content_added(plan, input, look, content)),
{
    lemma_extends_self(plan);
    let caps = crate::style::is_on(look.properties.caps);
    match content {
        RunContent::Text(text) => lemma_text(
            plan,
            look.style as int,
            crate::field::shown(text@, caps),
            None,
        ),
        RunContent::DeletedText(text) => lemma_text(
            plan,
            look.style as int,
            crate::field::shown(text@, caps),
            None,
        ),
        RunContent::Tab => lemma_item(plan, ItemView::Tab),
        RunContent::Break(kind) => {
            lemma_item(plan, ItemView::LineBreak);
            lemma_item(plan, ItemView::PageBreak);
            lemma_item(plan, ItemView::ColumnBreak);
        },
        RunContent::Drawing(drawing) => {
            if let Some(inline) = drawing.inline {
                if let Some(rel_id) = inline.chart_rel_id {
                    let (source, diagnostic) = crate::drawing::chart_of(input.charts@, rel_id@);
                    lemma_diagnostic(plan, diagnostic);
                    let item = ItemView::Chart {
                        width: inline.extent_cx,
                        height: inline.extent_cy,
                        source,
                    };
                    lemma_item(plan.with_diagnostic(diagnostic), item);
                    lemma_extends_on(
                        plan,
                        plan.with_diagnostic(diagnostic),
                        plan.with_diagnostic(diagnostic).with_item(item),
                    );
                } else {
                    lemma_item(
                        plan,
                        ItemView::Image {
                            width: inline.extent_cx,
                            height: inline.extent_cy,
                            embed_id: inline.embed_id,
                        },
                    );
                }
            }
        },
        RunContent::Field(field) => lemma_field(plan, input, look, field),
        RunContent::FootnoteRef { id } => lemma_note(
            plan,
            input,
            look,
            NoteRef { stream: crate::plan::NoteStream::Footnote, id },
        ),
        RunContent::EndnoteRef { id } => lemma_note(
            plan,
            input,
            look,
            NoteRef { stream: crate::plan::NoteStream::Endnote, id },
        ),
        RunContent::CommentReference { .. } => {},
    }
}

proof fn lemma_contents(plan: PlanView, input: LayoutInput, look: RunLook, run: Run, n: nat)
    requires
        look.font < plan.fonts.len(),
        look.style < plan.styles.len(),
    ensures
        extends(plan, crate::run_plan::contents_added(plan, input, look, run, n)),
    decreases n,
{
    if n == 0 {
        lemma_extends_self(plan);
    } else {
        lemma_contents(plan, input, look, run, (n - 1) as nat);
        let before = crate::run_plan::contents_added(plan, input, look, run, (n - 1) as nat);
        lemma_content(before, input, look, run.content@[n - 1]);
        lemma_extends_on(
            plan,
            before,
            crate::run_plan::contents_added(plan, input, look, run, n),
        );
    }
}

proof fn lemma_targets(plan: PlanView, targets: Seq<usize>)
    ensures
        extends(plan, crate::run_plan::targets_added(plan, targets)),
        targets.len() > 0 ==> crate::run_plan::targets_added(plan, targets).items == plan.items
            + targets.map_values(
            |target: usize| crate::run_plan::target_item(plan.styles.len() as int, target),
        ),
{
    lemma_extends_self(plan);
    if targets.len() > 0 {
        let font = crate::run_plan::target_font();
        let style = crate::run_plan::target_style(plan.fonts.len() as usize);
        let ready = plan.with_font(font).with_style(style);
        lemma_font_and_style(plan, font, style);
        let after = crate::run_plan::targets_added(plan, targets);
        let added = targets.map_values(
            |target: usize| crate::run_plan::target_item(plan.styles.len() as int, target),
        );
        assert(after == ready.with_items(added));
        assert(after.items.take(plan.items.len() as int) =~= plan.items);
        assert(after.styles.take(plan.styles.len() as int) =~= plan.styles);
        assert(after.fonts.take(plan.fonts.len() as int) =~= plan.fonts);
        assert(after.diagnostics.take(plan.diagnostics.len() as int) =~= plan.diagnostics);
        if ready.is_closed() {
            assert forall|i: int| 0 <= i < after.items.len() implies crate::plan::style_known(
                #[trigger] after.items[i],
                after.styles.len(),
            ) by {
                if i < plan.items.len() {
                    assert(after.items[i] == ready.items[i]);
                } else {
                    assert(after.items[i] == added[i - plan.items.len()]);
                }
            }
            assert forall|i: int| 0 <= i < after.styles.len() implies (
            #[trigger] after.styles[i]).font < after.fonts.len() by {
                assert(ready.styles[i].font < ready.fonts.len());
            }
        }
    }
}

proof fn lemma_run(plan: PlanView, input: LayoutInput, paragraph: Paragraph, run: ProjectedRunView)
    ensures
        extends(plan, crate::run_plan::run_added(plan, input, paragraph, run)),
{
    let look = crate::run_plan::run_look(plan, input, paragraph, run);
    if crate::style::is_on(look.properties.vanish) {
        lemma_extends_self(plan);
    } else {
        let font = crate::style::run_font(
            look.properties,
            input.theme,
            crate::revision::run_text(run.run),
        );
        let style = crate::style::text_style(
            look.properties,
            input.theme,
            look.marks,
            look.font,
            look.hyperlink_url,
        );
        let ready = plan.with_font(font).with_style(style);
        lemma_font_and_style(plan, font, style);
        lemma_contents(ready, input, look, run.run, run.run.content@.len());
        lemma_extends_on(
            plan,
            ready,
            crate::run_plan::run_added(plan, input, paragraph, run),
        );
    }
}

/// The plan before run `k`, with the targets that stand before it.
spec fn before_run(
    plan: PlanView,
    input: LayoutInput,
    paragraph: Paragraph,
    runs: Seq<ProjectedRunView>,
    k: nat,
) -> PlanView {
    crate::run_plan::targets_added(
        crate::run_plan::runs_added(plan, input, paragraph, runs, k),
        crate::run_plan::targets_before_run(input, paragraph, runs, k as int),
    )
}

proof fn lemma_runs(
    plan: PlanView,
    input: LayoutInput,
    paragraph: Paragraph,
    runs: Seq<ProjectedRunView>,
    from: nat,
    to: nat,
)
    requires
        from <= to,
    ensures
        extends(
            crate::run_plan::runs_added(plan, input, paragraph, runs, from),
            crate::run_plan::runs_added(plan, input, paragraph, runs, to),
        ),
        from < to ==> extends(
            before_run(plan, input, paragraph, runs, from),
            crate::run_plan::runs_added(plan, input, paragraph, runs, to),
        ),
    decreases to,
{
    let start = crate::run_plan::runs_added(plan, input, paragraph, runs, from);
    if from == to {
        lemma_extends_self(start);
    } else {
        let last = (to - 1) as nat;
        lemma_runs(plan, input, paragraph, runs, from, last);
        let before = crate::run_plan::runs_added(plan, input, paragraph, runs, last);
        let targets = crate::run_plan::targets_before_run(input, paragraph, runs, last as int);
        let ready = before_run(plan, input, paragraph, runs, last);
        let after = crate::run_plan::runs_added(plan, input, paragraph, runs, to);
        lemma_targets(before, targets);
        lemma_run(ready, input, paragraph, runs[last as int]);
        lemma_extends_on(before, ready, after);
        lemma_extends_on(start, before, after);
        if from < last {
            lemma_extends_on(before_run(plan, input, paragraph, runs, from), before, after);
        }
    }
}

/// The plan of a paragraph before any run.
spec fn marked_plan(input: LayoutInput, paragraph: Paragraph, num_id: Option<u32>) -> PlanView {
    match (num_id, input.numbering, paragraph.marker) {
        (Some(_), Some(_), Some(marker)) => crate::run_plan::marker_added(
            PlanView::empty(),
            marker,
            paragraph.text_style,
        ),
        _ => PlanView::empty(),
    }
}

proof fn lemma_marker(plan: PlanView, marker: ListMarker, text_style: RunProperties)
    ensures
        extends(plan, crate::run_plan::marker_added(plan, marker, text_style)),
{
    let style = plan.styles.len() as int;
    let font = crate::style::FontRequestView {
        family: marker.properties.font_ascii,
        bold: crate::style::is_on(marker.properties.bold),
        italic: crate::style::is_on(marker.properties.italic),
        sample: marker.text@,
    };
    let look = crate::style::plain_style(
        plan.fonts.len() as usize,
        crate::run_plan::marker_size(marker, text_style).spec_text_units(),
        crate::run_plan::marker_color(marker),
    );
    let ready = plan.with_font(font).with_style(look);
    lemma_font_and_style(plan, font, look);
    let item = ItemView::Marker(
        TextItemView { style, text: marker.text@, field: None, note: None },
    );
    let marked = ready.with_item(item);
    lemma_item(ready, item);
    lemma_extends_on(plan, ready, marked);
    let space = ItemView::Whole(TextItemView { style, text: " "@, field: None, note: None });
    lemma_item(marked, ItemView::Tab);
    lemma_item(marked, space);
    lemma_extends_on(plan, marked, marked.with_item(ItemView::Tab));
    lemma_extends_on(plan, marked, marked.with_item(space));
}

proof fn lemma_marked(input: LayoutInput, paragraph: Paragraph, num_id: Option<u32>)
    ensures
        marked_plan(input, paragraph, num_id).is_closed(),
{
    lemma_extends_self(PlanView::empty());
    if let Some(marker) = paragraph.marker {
        lemma_marker(PlanView::empty(), marker, paragraph.text_style);
    }
}

/// In the plan of a paragraph, every text names a style that is there, and every
/// style a font that is asked for.
pub proof fn law_plan_is_closed(input: LayoutInput, paragraph: Paragraph, num_id: Option<u32>)
    ensures
        crate::run_plan::paragraph_plan(input, paragraph, num_id).is_closed(),
{
    let runs = crate::revision::projection(paragraph, input.revision_view);
    let marked = marked_plan(input, paragraph, num_id);
    lemma_marked(input, paragraph, num_id);
    lemma_runs(marked, input, paragraph, runs, 0, runs.len());
    lemma_targets(
        crate::run_plan::runs_added(marked, input, paragraph, runs, runs.len()),
        crate::run_plan::targets_at_end(input, paragraph, runs),
    );
}

/// The list marker and what follows it come before everything else in a
/// paragraph, and take as many items as the paragraph says.
pub proof fn law_list_markers_come_first(
    input: LayoutInput,
    paragraph: Paragraph,
    num_id: Option<u32>,
)
    ensures
        ({
            let items = crate::run_plan::paragraph_plan(input, paragraph, num_id).items;
            let count = crate::run_plan::marker_item_count(input, paragraph, num_id);
            &&& count <= items.len()
            &&& count > 0 ==> paragraph.marker is Some && items.take(count as int)
                == crate::run_plan::marker_added(
                PlanView::empty(),
                paragraph.marker->Some_0,
                paragraph.text_style,
            ).items
        }),
{
    let runs = crate::revision::projection(paragraph, input.revision_view);
    let marked = marked_plan(input, paragraph, num_id);
    lemma_runs(marked, input, paragraph, runs, 0, runs.len());
    let end = crate::run_plan::runs_added(marked, input, paragraph, runs, runs.len());
    let targets = crate::run_plan::targets_at_end(input, paragraph, runs);
    lemma_targets(end, targets);
    lemma_extends_on(marked, end, crate::run_plan::targets_added(end, targets));
}

/// Whether an item is the target of a page reference: a word joiner, which shows
/// nothing.
pub open spec fn is_target_item(item: ItemView, target: usize) -> bool {
    match item {
        ItemView::Whole(text) => text.field == Some(FieldKind::Target(target)) && text.text
            == "\u{2060}"@ && text.note is None,
        _ => false,
    }
}

/// Whether a plan holds the target of a page reference.
pub open spec fn holds_target(plan: PlanView, target: usize) -> bool {
    exists|i: int| 0 <= i < plan.items.len() && is_target_item(#[trigger] plan.items[i], target)
}

proof fn lemma_still_holds(before: PlanView, after: PlanView, target: usize)
    requires
        extends(before, after),
        holds_target(before, target),
    ensures
        holds_target(after, target),
{
    let i = choose|i: int|
        0 <= i < before.items.len() && is_target_item(#[trigger] before.items[i], target);
    assert(after.items.take(before.items.len() as int)[i] == after.items[i]);
    assert(is_target_item(after.items[i], target));
}

proof fn lemma_added_target(plan: PlanView, targets: Seq<usize>, k: int)
    requires
        0 <= k < targets.len(),
    ensures
        holds_target(crate::run_plan::targets_added(plan, targets), targets[k]),
{
    lemma_targets(plan, targets);
    let after = crate::run_plan::targets_added(plan, targets);
    let added = targets.map_values(
        |target: usize| crate::run_plan::target_item(plan.styles.len() as int, target),
    );
    assert(added[k] == crate::run_plan::target_item(plan.styles.len() as int, targets[k]));
    assert(after.items[plan.items.len() + k] == added[k]);
    assert(is_target_item(after.items[plan.items.len() + k], targets[k]));
}

/// A marker that starts between two places, and is a target, is among those that
/// are found there.
proof fn lemma_target_found(
    input: LayoutInput,
    markers: Seq<BookmarkMarker>,
    boundary: usize,
    after: Option<RawOrder>,
    through: RawOrder,
    n: nat,
    m: int,
    target: usize,
)
    requires
        0 <= m < n <= markers.len(),
        crate::run_plan::starts_between(markers[m], boundary, after, through),
        crate::run_plan::target_of(input, markers[m]) == Some(target),
    ensures
        ({
            let found = crate::run_plan::targets_between(
                input,
                markers,
                boundary,
                after,
                through,
                n,
            );
            exists|k: int| 0 <= k < found.len() && found[k] == target
        }),
    decreases n,
{
    let found = crate::run_plan::targets_between(input, markers, boundary, after, through, n);
    if m == n - 1 {
        assert(found[found.len() - 1] == target);
    } else {
        lemma_target_found(
            input,
            markers,
            boundary,
            after,
            through,
            (n - 1) as nat,
            m,
            target,
        );
        let before = crate::run_plan::targets_between(
            input,
            markers,
            boundary,
            after,
            through,
            (n - 1) as nat,
        );
        let k = choose|k: int| 0 <= k < before.len() && before[k] == target;
        assert(found[k] == target);
    }
}

/// Some run from which a marker's place is still to come is the first one in its
/// row, and the marker stands right before it.
proof fn lemma_window(
    runs: Seq<ProjectedRunView>,
    marker: BookmarkMarker,
    k: int,
) -> (first: int)
    requires
        0 <= k < runs.len(),
        marker.is_start,
        runs[k].boundary == marker.run_index,
        !runs[k].raw_order.precedes(RawOrder::Raw(marker.raw_before)),
    ensures
        0 <= first <= k,
        runs[first].boundary == marker.run_index,
        crate::run_plan::starts_between(
            marker,
            runs[first].boundary,
            crate::run_plan::place_before(runs, first),
            runs[first].raw_order,
        ),
    decreases k,
{
    if k > 0 && runs[k - 1].boundary == marker.run_index && !runs[k - 1].raw_order.precedes(
        RawOrder::Raw(marker.raw_before),
    ) {
        lemma_window(runs, marker, k - 1)
    } else {
        k
    }
}

/// A marker that stands right before a run leaves its target in the plan.
proof fn lemma_target_before_run(
    input: LayoutInput,
    paragraph: Paragraph,
    num_id: Option<u32>,
    m: int,
    k: int,
    target: usize,
)
    requires
        0 <= m < paragraph.bookmark_markers@.len(),
        crate::run_plan::target_of(input, paragraph.bookmark_markers@[m]) == Some(target),
        ({
            let runs = crate::revision::projection(paragraph, input.revision_view);
            &&& 0 <= k < runs.len()
            &&& crate::run_plan::starts_between(
                paragraph.bookmark_markers@[m],
                runs[k].boundary,
                crate::run_plan::place_before(runs, k),
                runs[k].raw_order,
            )
        }),
    ensures
        holds_target(crate::run_plan::paragraph_plan(input, paragraph, num_id), target),
{
    let runs = crate::revision::projection(paragraph, input.revision_view);
    let marked = marked_plan(input, paragraph, num_id);
    let markers = paragraph.bookmark_markers@;
    let found = crate::run_plan::targets_before_run(input, paragraph, runs, k);
    lemma_target_found(
        input,
        markers,
        runs[k].boundary,
        crate::run_plan::place_before(runs, k),
        runs[k].raw_order,
        markers.len(),
        m,
        target,
    );
    let place = choose|j: int| 0 <= j < found.len() && found[j] == target;
    let start = crate::run_plan::runs_added(marked, input, paragraph, runs, k as nat);
    lemma_added_target(start, found, place);
    lemma_runs(marked, input, paragraph, runs, k as nat, runs.len());
    let end = crate::run_plan::runs_added(marked, input, paragraph, runs, runs.len());
    lemma_still_holds(before_run(marked, input, paragraph, runs, k as nat), end, target);
    lemma_targets(end, crate::run_plan::targets_at_end(input, paragraph, runs));
    lemma_still_holds(end, crate::run_plan::paragraph_plan(input, paragraph, num_id), target);
}

/// A bookmark that a page reference asks for leaves its target in the plan of
/// its paragraph, wherever in the paragraph it starts: before a run, inside a
/// change, before hidden text, or at the very end.
pub proof fn law_every_target_is_retained(
    input: LayoutInput,
    paragraph: Paragraph,
    num_id: Option<u32>,
    m: int,
    target: usize,
)
    requires
        0 <= m < paragraph.bookmark_markers@.len(),
        paragraph.bookmark_markers@[m].is_start,
        paragraph.bookmark_markers@[m].run_index <= paragraph.runs@.len(),
        crate::run_plan::target_of(input, paragraph.bookmark_markers@[m]) == Some(target),
    ensures
        holds_target(crate::run_plan::paragraph_plan(input, paragraph, num_id), target),
{
    let view = input.revision_view;
    let runs = crate::revision::projection(paragraph, view);
    let markers = paragraph.bookmark_markers@;
    let marker = markers[m];
    let place = RawOrder::Raw(marker.raw_before);
    let boundary = marker.run_index;
    if boundary < paragraph.runs@.len() {
        crate::revision_laws::law_ordinary_runs_are_always_shown(paragraph, view);
        let ordinary = crate::revision_laws::ordinary_only(runs);
        let run = crate::revision::ordinary_run(paragraph.runs@[boundary as int], boundary);
        let keep = |run: ProjectedRunView| run.ordinary_run_index is Some;
        assert(ordinary[boundary as int] == run);
        assert(runs.filter(keep) =~= ordinary);
        assert(runs.filter(keep).contains(run));
        runs.lemma_filter_contains_rev(keep, run);
        let k = choose|k: int| 0 <= k < runs.len() && runs[k] == run;
        let first = lemma_window(runs, marker, k);
        lemma_target_before_run(input, paragraph, num_id, m, first, target);
    } else if exists|k: int|
        0 <= k < runs.len() && (#[trigger] runs[k]).boundary == boundary
            && !runs[k].raw_order.precedes(place) {
        let k = choose|k: int|
            0 <= k < runs.len() && (#[trigger] runs[k]).boundary == boundary
                && !runs[k].raw_order.precedes(place);
        let first = lemma_window(runs, marker, k);
        lemma_target_before_run(input, paragraph, num_id, m, first, target);
    } else {
        if runs.len() > 0 {
            assert(runs.last() == runs[runs.len() - 1]);
        }
        let after = crate::run_plan::last_place(paragraph, runs);
        assert(paragraph.runs@.len() == paragraph.runs.len());
        assert(crate::run_plan::starts_between(marker, boundary, after, RawOrder::AfterRaw));
        lemma_target_found(
            input,
            markers,
            boundary,
            after,
            RawOrder::AfterRaw,
            markers.len(),
            m,
            target,
        );
        let found = crate::run_plan::targets_at_end(input, paragraph, runs);
        let j = choose|j: int| 0 <= j < found.len() && found[j] == target;
        let marked = marked_plan(input, paragraph, num_id);
        lemma_added_target(
            crate::run_plan::runs_added(marked, input, paragraph, runs, runs.len()),
            found,
            j,
        );
    }
}

/// A page reference whose page can be found looks the same whatever result is
/// stored with it, as long as the first stored result is formatted the same. It
/// therefore takes the same room in every pagination.
pub proof fn law_computed_fields_ignore_stored_text(
    plan: PlanView,
    input: LayoutInput,
    look: RunLook,
    a: Field,
    b: Field,
)
    requires
        a.name == b.name,
        a.arguments == b.arguments,
        crate::field::first_stored(a) == crate::field::first_stored(b),
        crate::field::field_value(input, a) is Computed,
    ensures
        crate::field::field_added(plan, input, look, a) == crate::field::field_added(
            plan,
            input,
            look,
            b,
        ),
{
}

/// The characters that a piece of a field result stands for.
pub open spec fn piece_chars(piece: Piece) -> Seq<char> {
    match piece {
        Piece::Text(text) => text,
        Piece::Control(ItemView::Tab) => seq!['\t'],
        Piece::Control(ItemView::LineBreak) => seq!['\n'],
        Piece::Control(ItemView::PageBreak) => seq!['\u{000c}'],
        Piece::Control(_) => seq!['\u{000b}'],
    }
}

/// The characters that the pieces of a field result stand for.
pub open spec fn pieces_chars(parts: Seq<Piece>) -> Seq<char>
    decreases parts.len(),
{
    if parts.len() == 0 {
        Seq::empty()
    } else {
        pieces_chars(parts.drop_last()) + piece_chars(parts.last())
    }
}

/// Splitting a field result at its control characters loses nothing: the pieces,
/// one after the other, are the result, and no text among them is empty or next
/// to another text.
pub proof fn law_pieces_keep_the_value(value: Seq<char>)
    ensures
        pieces_chars(crate::field::pieces(value)) == value,
        forall|i: int|
            0 <= i < crate::field::pieces(value).len() ==> piece_chars(
                #[trigger] crate::field::pieces(value)[i],
            ).len() > 0,
        forall|i: int|
            0 < i < crate::field::pieces(value).len() && (#[trigger] crate::field::pieces(
                value,
            )[i]) is Text ==> !(crate::field::pieces(value)[i - 1] is Text),
    decreases value.len(),
{
    let all = crate::field::pieces(value);
    if value.len() == 0 {
        assert(pieces_chars(all) =~= value);
    } else {
        law_pieces_keep_the_value(value.drop_last());
        let before = crate::field::pieces(value.drop_last());
        let c = value.last();
        assert(value =~= value.drop_last().push(c));
        if crate::field::control_item(c) is Some {
            assert(all.drop_last() =~= before);
            assert(pieces_chars(all) =~= value);
        } else if before.len() > 0 && before.last() is Text {
            assert(all.drop_last() =~= before.drop_last());
            assert(pieces_chars(before) =~= pieces_chars(before.drop_last()) + piece_chars(
                before.last(),
            ));
            assert(pieces_chars(all) =~= value);
            assert forall|i: int| 0 < i < all.len() && (#[trigger] all[i]) is Text implies !(all[i
                - 1] is Text) by {
                assert(before[i] is Text);
                assert(!(before[i - 1] is Text));
            }
        } else {
            assert(all.drop_last() =~= before);
            assert(pieces_chars(all) =~= value);
        }
        assert forall|i: int| 0 <= i < all.len() implies piece_chars(#[trigger] all[i]).len() > 0 by {
            if i < before.len() && before[i] == all[i] {
                assert(piece_chars(before[i]).len() > 0);
            }
        }
    }
}

/// The ordinary text of an item.
pub open spec fn item_text(item: ItemView) -> Seq<char> {
    match item {
        ItemView::Text(text) => text.text,
        _ => Seq::empty(),
    }
}

/// The ordinary text of items, one after the other.
pub open spec fn items_text(items: Seq<ItemView>) -> Seq<char>
    decreases items.len(),
{
    if items.len() == 0 {
        Seq::empty()
    } else {
        items_text(items.drop_last()) + item_text(items.last())
    }
}

/// Whether a run is shown and holds nothing but text that is shown as it is.
pub open spec fn is_plain(run: Run) -> bool {
    let properties = crate::run_plan::shown_properties(run);
    &&& !crate::style::is_on(properties.vanish)
    &&& !crate::style::is_on(properties.caps)
    &&& forall|i: int| 0 <= i < run.content@.len() ==> is_text(#[trigger] run.content@[i])
}

/// Whether a piece of a run is text.
pub open spec fn is_text(content: RunContent) -> bool {
    content is Text || content is DeletedText
}

proof fn lemma_items_text_push(items: Seq<ItemView>, item: ItemView)
    ensures
        items_text(items.push(item)) == items_text(items) + item_text(item),
{
    assert(items.push(item).drop_last() =~= items);
}

/// Targets show no text.
proof fn lemma_targets_show_nothing(plan: PlanView, targets: Seq<usize>)
    ensures
        items_text(crate::run_plan::targets_added(plan, targets).items) == items_text(plan.items),
    decreases targets.len(),
{
    if targets.len() > 0 {
        lemma_targets(plan, targets);
        let style = plan.styles.len() as int;
        let added = targets.map_values(
            |target: usize| crate::run_plan::target_item(style, target),
        );
        lemma_no_text_added(plan.items, added);
    }
}

proof fn lemma_no_text_added(items: Seq<ItemView>, added: Seq<ItemView>)
    requires
        forall|i: int| 0 <= i < added.len() ==> item_text(#[trigger] added[i]).len() == 0,
    ensures
        items_text(items + added) == items_text(items),
    decreases added.len(),
{
    if added.len() == 0 {
        assert(items + added =~= items);
    } else {
        let rest = added.drop_last();
        assert forall|i: int| 0 <= i < rest.len() implies item_text(#[trigger] rest[i]).len()
            == 0 by {
            assert(item_text(added[i]).len() == 0);
        }
        lemma_no_text_added(items, rest);
        assert((items + added).drop_last() =~= items + rest);
        assert(item_text(added[added.len() - 1]).len() == 0);
        assert(items_text(items + added) =~= items_text(items));
    }
}

/// The first `n` texts of a plain run are shown as they are.
proof fn lemma_contents_show_text(
    plan: PlanView,
    input: LayoutInput,
    look: RunLook,
    run: Run,
    n: nat,
)
    requires
        is_plain(run),
        look.properties == crate::run_plan::shown_properties(run),
        n <= run.content@.len(),
    ensures
        items_text(crate::run_plan::contents_added(plan, input, look, run, n).items) == items_text(
            plan.items,
        ) + crate::text::concat(
            Seq::new(n, |i: int| crate::revision::content_text(run.content@[i])),
        ),
    decreases n,
{
    let parts = Seq::new(n, |i: int| crate::revision::content_text(run.content@[i]));
    if n == 0 {
        assert(items_text(plan.items) + crate::text::concat(parts) =~= items_text(plan.items));
    } else {
        let m = (n - 1) as nat;
        lemma_contents_show_text(plan, input, look, run, m);
        let before = crate::run_plan::contents_added(plan, input, look, run, m);
        let after = crate::run_plan::contents_added(plan, input, look, run, n);
        let fewer = Seq::new(m, |i: int| crate::revision::content_text(run.content@[i]));
        let text = crate::revision::content_text(run.content@[m as int]);
        assert(is_text(run.content@[m as int]));
        assert(parts =~= fewer.push(text));
        crate::text::lemma_concat_push(fewer, text);
        if text.len() > 0 {
            lemma_items_text_push(
                before.items,
                ItemView::Text(
                    TextItemView { style: look.style as int, text, field: None, note: None },
                ),
            );
        }
        assert(items_text(after.items) =~= items_text(before.items) + text);
        assert(items_text(after.items) =~= items_text(plan.items) + crate::text::concat(parts));
    }
}

proof fn lemma_run_shows_text(
    plan: PlanView,
    input: LayoutInput,
    paragraph: Paragraph,
    run: ProjectedRunView,
)
    requires
        is_plain(run.run),
    ensures
        items_text(crate::run_plan::run_added(plan, input, paragraph, run).items) == items_text(
            plan.items,
        ) + crate::revision::run_text(run.run),
{
    let look = crate::run_plan::run_look(plan, input, paragraph, run);
    let font = crate::style::run_font(
        look.properties,
        input.theme,
        crate::revision::run_text(run.run),
    );
    let style = crate::style::text_style(
        look.properties,
        input.theme,
        look.marks,
        look.font,
        look.hyperlink_url,
    );
    lemma_contents_show_text(
        plan.with_font(font).with_style(style),
        input,
        look,
        run.run,
        run.run.content@.len(),
    );
}

proof fn lemma_runs_show_text(
    plan: PlanView,
    input: LayoutInput,
    paragraph: Paragraph,
    runs: Seq<ProjectedRunView>,
    n: nat,
)
    requires
        n <= runs.len(),
        forall|i: int| 0 <= i < runs.len() ==> is_plain((#[trigger] runs[i]).run),
    ensures
        items_text(crate::run_plan::runs_added(plan, input, paragraph, runs, n).items)
            == items_text(plan.items) + crate::revision::projected_text(runs.take(n as int)),
    decreases n,
{
    let texts = Seq::new(n, |i: int| crate::revision::run_text(runs.take(n as int)[i].run));
    if n == 0 {
        assert(crate::text::concat(texts) =~= Seq::empty());
        assert(items_text(plan.items) + crate::revision::projected_text(runs.take(0))
            =~= items_text(plan.items));
    } else {
        let m = (n - 1) as nat;
        lemma_runs_show_text(plan, input, paragraph, runs, m);
        let before = crate::run_plan::runs_added(plan, input, paragraph, runs, m);
        let targets = crate::run_plan::targets_before_run(input, paragraph, runs, m as int);
        lemma_targets_show_nothing(before, targets);
        let ready = crate::run_plan::targets_added(before, targets);
        lemma_run_shows_text(ready, input, paragraph, runs[m as int]);
        let fewer = Seq::new(m, |i: int| crate::revision::run_text(runs.take(m as int)[i].run));
        let text = crate::revision::run_text(runs[m as int].run);
        assert(texts =~= fewer.push(text));
        crate::text::lemma_concat_push(fewer, text);
        let after = crate::run_plan::runs_added(plan, input, paragraph, runs, n);
        assert(items_text(after.items) =~= items_text(plan.items)
            + crate::revision::projected_text(runs.take(n as int)));
    }
}

/// Plain text is laid out as it is: where every run that the view shows is
/// visible and holds nothing but text, the items of the paragraph show exactly
/// its projected text, whatever bookmarks and list markers stand in between.
pub proof fn law_plain_text_is_kept(
    input: LayoutInput,
    paragraph: Paragraph,
    num_id: Option<u32>,
)
    requires
        forall|i: int|
            0 <= i < crate::revision::projection(paragraph, input.revision_view).len()
                ==> is_plain(
                (#[trigger] crate::revision::projection(paragraph, input.revision_view)[i]).run,
            ),
    ensures
        items_text(crate::run_plan::paragraph_plan(input, paragraph, num_id).items)
            == crate::revision::projected_text(
            crate::revision::projection(paragraph, input.revision_view),
        ),
{
    let runs = crate::revision::projection(paragraph, input.revision_view);
    let marked = marked_plan(input, paragraph, num_id);
    lemma_marker_shows_nothing(input, paragraph, num_id);
    lemma_runs_show_text(marked, input, paragraph, runs, runs.len());
    assert(runs.take(runs.len() as int) =~= runs);
    let end = crate::run_plan::runs_added(marked, input, paragraph, runs, runs.len());
    lemma_targets_show_nothing(end, crate::run_plan::targets_at_end(input, paragraph, runs));
    assert(items_text(end.items) =~= crate::revision::projected_text(runs));
}

/// A list marker is no ordinary text.
proof fn lemma_marker_shows_nothing(
    input: LayoutInput,
    paragraph: Paragraph,
    num_id: Option<u32>,
)
    ensures
        items_text(marked_plan(input, paragraph, num_id).items) == Seq::<char>::empty(),
{
    let items = marked_plan(input, paragraph, num_id).items;
    assert forall|i: int| 0 <= i < items.len() implies item_text(#[trigger] items[i]).len() == 0 by {}
    lemma_no_text_added(Seq::empty(), items);
    assert(Seq::<ItemView>::empty() + items =~= items);
}

/// Whether a plan shows an item.
pub open spec fn shows(plan: PlanView, item: ItemView) -> bool {
    exists|m: int| 0 <= m < plan.items.len() && #[trigger] plan.items[m] == item
}

proof fn lemma_still_shows(before: PlanView, after: PlanView, item: ItemView)
    requires
        extends(before, after),
        shows(before, item),
    ensures
        shows(after, item),
{
    let m = choose|m: int| 0 <= m < before.items.len() && #[trigger] before.items[m] == item;
    assert(after.items.take(before.items.len() as int)[m] == after.items[m]);
    assert(after.items[m] == item);
}

proof fn lemma_last_shows(plan: PlanView, item: ItemView)
    requires
        plan.items.len() > 0,
        plan.items.last() == item,
    ensures
        shows(plan, item),
{
    assert(plan.items[plan.items.len() - 1] == item);
}

/// What a plan is before a piece of a shown run is added, and what the pieces of
/// that run share.
proof fn lemma_piece_stage(
    input: LayoutInput,
    paragraph: Paragraph,
    num_id: Option<u32>,
    k: int,
    c: int,
) -> (stage: (PlanView, RunLook))
    requires
        ({
            let runs = crate::revision::projection(paragraph, input.revision_view);
            let plan = crate::run_plan::paragraph_plan(input, paragraph, num_id);
            &&& 0 <= k < runs.len()
            &&& 0 <= c < runs[k].run.content@.len()
            &&& crate::run_plan::shown_properties(runs[k].run).vanish != Some(true)
            &&& plan.styles.len() <= usize::MAX
            &&& plan.fonts.len() <= usize::MAX
        }),
    ensures
        ({
            let run = crate::revision::projection(paragraph, input.revision_view)[k];
            let plan = crate::run_plan::paragraph_plan(input, paragraph, num_id);
            let (before, look) = stage;
            &&& extends(
                crate::run_plan::content_added(before, input, look, run.run.content@[c]),
                plan,
            )
            &&& look.properties == crate::run_plan::shown_properties(run.run)
            &&& look.marks == (ChangeMarks {
                underline: run.force_underline,
                strike: run.force_strike,
            })
            &&& look.hyperlink_url == crate::run_plan::run_url(
                input.hyperlink_urls@,
                paragraph.hyperlinks@,
                run,
            )
            &&& look.changed == (input.revision_view == RevisionView::Markup
                && run.ordinary_run_index is None)
            &&& look.style < before.styles.len() <= plan.styles.len()
            &&& look.font < before.fonts.len() <= plan.fonts.len()
            &&& plan.styles[look.style as int] == crate::style::text_style(
                look.properties,
                input.theme,
                look.marks,
                look.font,
                look.hyperlink_url,
            )
            &&& plan.fonts[look.font as int] == crate::style::run_font(
                look.properties,
                input.theme,
                crate::revision::run_text(run.run),
            )
        }),
{
    let runs = crate::revision::projection(paragraph, input.revision_view);
    let run = runs[k];
    let marked = marked_plan(input, paragraph, num_id);
    let plan = crate::run_plan::paragraph_plan(input, paragraph, num_id);
    let start = before_run(marked, input, paragraph, runs, k as nat);
    let look = crate::run_plan::run_look(start, input, paragraph, run);
    let font = crate::style::run_font(
        look.properties,
        input.theme,
        crate::revision::run_text(run.run),
    );
    let style = crate::style::text_style(
        look.properties,
        input.theme,
        look.marks,
        look.font,
        look.hyperlink_url,
    );
    let ready = start.with_font(font).with_style(style);
    lemma_font_and_style(start, font, style);
    let before = crate::run_plan::contents_added(ready, input, look, run.run, c as nat);
    let after = crate::run_plan::contents_added(ready, input, look, run.run, (c + 1) as nat);
    lemma_contents(ready, input, look, run.run, c as nat);
    lemma_more_contents(ready, input, look, run.run, (c + 1) as nat, run.run.content@.len());
    let done = crate::run_plan::runs_added(marked, input, paragraph, runs, (k + 1) as nat);
    assert(done == crate::run_plan::run_added(start, input, paragraph, run));
    lemma_runs(marked, input, paragraph, runs, (k + 1) as nat, runs.len());
    let end = crate::run_plan::runs_added(marked, input, paragraph, runs, runs.len());
    lemma_targets(end, crate::run_plan::targets_at_end(input, paragraph, runs));
    lemma_extends_on(after, done, end);
    lemma_extends_on(after, end, plan);
    lemma_more_contents(ready, input, look, run.run, c as nat, (c + 1) as nat);
    lemma_extends_on(before, after, plan);
    lemma_extends_on(ready, before, plan);
    assert(look.style == start.styles.len());
    assert(look.font == start.fonts.len());
    assert(plan.styles.take(ready.styles.len() as int)[look.style as int] == style);
    assert(plan.fonts.take(ready.fonts.len() as int)[look.font as int] == font);
    (before, look)
}

proof fn lemma_more_contents(
    plan: PlanView,
    input: LayoutInput,
    look: RunLook,
    run: Run,
    from: nat,
    to: nat,
)
    requires
        look.font < plan.fonts.len(),
        look.style < plan.styles.len(),
        from <= to,
    ensures
        extends(
            crate::run_plan::contents_added(plan, input, look, run, from),
            crate::run_plan::contents_added(plan, input, look, run, to),
        ),
    decreases to,
{
    let start = crate::run_plan::contents_added(plan, input, look, run, from);
    if from == to {
        lemma_extends_self(start);
    } else {
        let last = (to - 1) as nat;
        lemma_more_contents(plan, input, look, run, from, last);
        lemma_contents(plan, input, look, run, last);
        let before = crate::run_plan::contents_added(plan, input, look, run, last);
        lemma_content(before, input, look, run.content@[last as int]);
        lemma_extends_on(
            start,
            before,
            crate::run_plan::contents_added(plan, input, look, run, to),
        );
    }
}

/// Whether the plans of a paragraph can be counted.
pub open spec fn is_countable(plan: PlanView) -> bool {
    plan.styles.len() <= usize::MAX && plan.fonts.len() <= usize::MAX
}

/// A text in capital letters if they are asked for, and as it is otherwise.
pub open spec fn in_letters(text: Seq<char>, caps: Option<bool>) -> Seq<char> {
    if caps == Some(true) {
        crate::field::uppercase(text)
    } else {
        text
    }
}

/// Every text of a run that a view shows and that is not hidden stands in the
/// layout of its paragraph, whole and with the looks of its own run: the properties
/// that are set on the run over those of its styles, the marks of its change, its
/// own link, and a font that can show the text of the run. It is in capital letters
/// exactly if its run asks for them.
pub proof fn law_every_text_is_shown_with_its_own_looks(
    input: LayoutInput,
    paragraph: Paragraph,
    num_id: Option<u32>,
    k: int,
    c: int,
    text: Seq<char>,
)
    requires
        ({
            let runs = crate::revision::projection(paragraph, input.revision_view);
            &&& 0 <= k < runs.len()
            &&& 0 <= c < runs[k].run.content@.len()
            &&& match runs[k].run.content@[c] {
                RunContent::Text(own) => own@ == text,
                RunContent::DeletedText(own) => own@ == text,
                _ => false,
            }
            &&& crate::properties::effective_run(
                runs[k].run.style,
                runs[k].run.properties,
            ).vanish != Some(true)
        }),
        is_countable(crate::run_plan::paragraph_plan(input, paragraph, num_id)),
    ensures
        ({
            let run = crate::revision::projection(paragraph, input.revision_view)[k];
            let plan = crate::run_plan::paragraph_plan(input, paragraph, num_id);
            let properties = crate::properties::effective_run(run.run.style, run.run.properties);
            in_letters(text, properties.caps).len() > 0 ==> exists|j: int|
                0 <= j < plan.styles.len() && plan.styles[j].font < plan.fonts.len() && #[trigger]
                shows(
                    plan,
                    ItemView::Text(
                        TextItemView {
                            style: j,
                            text: in_letters(text, properties.caps),
                            field: None,
                            note: None,
                        },
                    ),
                ) && plan.styles[j] == crate::style::text_style(
                    properties,
                    input.theme,
                    ChangeMarks { underline: run.force_underline, strike: run.force_strike },
                    plan.styles[j].font,
                    crate::run_plan::run_url(
                        input.hyperlink_urls@,
                        paragraph.hyperlinks@,
                        run,
                    ),
                ) && plan.fonts[plan.styles[j].font as int] == crate::style::run_font(
                    properties,
                    input.theme,
                    crate::revision::run_text(run.run),
                )
        }),
{
    let run = crate::revision::projection(paragraph, input.revision_view)[k];
    let plan = crate::run_plan::paragraph_plan(input, paragraph, num_id);
    let (before, look) = lemma_piece_stage(input, paragraph, num_id, k, c);
    let after = crate::run_plan::content_added(before, input, look, run.run.content@[c]);
    let j = look.style as int;
    let said = in_letters(text, look.properties.caps);
    let item = ItemView::Text(TextItemView { style: j, text: said, field: None, note: None });
    if said.len() > 0 {
        assert(after.items == before.items.push(item));
        lemma_last_shows(after, item);
        lemma_still_shows(after, plan, item);
        assert(plan.styles[j].font == look.font);
    }
}

/// Every tab, break, picture and note of a run that is not hidden stands in the
/// layout of its paragraph: a note by its number and its stream and with the looks of
/// a note in this run, a picture by its size and its relationship.
pub proof fn law_every_piece_is_shown(
    input: LayoutInput,
    paragraph: Paragraph,
    num_id: Option<u32>,
    k: int,
    c: int,
)
    requires
        ({
            let runs = crate::revision::projection(paragraph, input.revision_view);
            &&& 0 <= k < runs.len()
            &&& 0 <= c < runs[k].run.content@.len()
            &&& crate::properties::effective_run(
                runs[k].run.style,
                runs[k].run.properties,
            ).vanish != Some(true)
        }),
        is_countable(crate::run_plan::paragraph_plan(input, paragraph, num_id)),
    ensures
        ({
            let shown = crate::revision::projection(paragraph, input.revision_view)[k];
            let run = shown.run;
            let plan = crate::run_plan::paragraph_plan(input, paragraph, num_id);
            match run.content@[c] {
                RunContent::Tab => shows(plan, ItemView::Tab),
                RunContent::Break(BreakType::Line) => shows(plan, ItemView::LineBreak),
                RunContent::Break(BreakType::Page) => shows(plan, ItemView::PageBreak),
                RunContent::Break(BreakType::Column) => shows(plan, ItemView::ColumnBreak),
                RunContent::FootnoteRef { id } => shows_note(
                    plan,
                    input,
                    shown,
                    NoteStream::Footnote,
                    id,
                ),
                RunContent::EndnoteRef { id } => shows_note(
                    plan,
                    input,
                    shown,
                    NoteStream::Endnote,
                    id,
                ),
                RunContent::Drawing(drawing) => match drawing.inline {
                    Some(inline) => if inline.chart_rel_id is None {
                        shows(
                            plan,
                            ItemView::Image {
                                width: inline.extent_cx,
                                height: inline.extent_cy,
                                embed_id: inline.embed_id,
                            },
                        )
                    } else {
                        shows(
                            plan,
                            ItemView::Chart {
                                width: inline.extent_cx,
                                height: inline.extent_cy,
                                source: crate::drawing::chart_of(
                                    input.charts@,
                                    inline.chart_rel_id->Some_0@,
                                ).0,
                            },
                        )
                    },
                    None => true,
                },
                _ => true,
            }
        }),
{
    let run = crate::revision::projection(paragraph, input.revision_view)[k].run;
    let plan = crate::run_plan::paragraph_plan(input, paragraph, num_id);
    let (before, look) = lemma_piece_stage(input, paragraph, num_id, k, c);
    let content = run.content@[c];
    let after = crate::run_plan::content_added(before, input, look, content);
    let shown = match content {
        RunContent::Drawing(drawing) => drawing.inline is Some,
        RunContent::Text(_) | RunContent::DeletedText(_) | RunContent::Field(_) => false,
        RunContent::CommentReference { .. } => false,
        _ => true,
    };
    if shown {
        assert(after.items == before.items.push(after.items.last()));
        let item = after.items.last();
        lemma_last_shows(after, item);
        lemma_still_shows(after, plan, item);
        if content is FootnoteRef || content is EndnoteRef {
            let style = before.styles.len() as int;
            assert(plan.styles.take(after.styles.len() as int)[style] == after.styles[style]);
        }
    }
}

/// Whether a plan shows the number of a note that a run refers to, with the looks of
/// a note in this run.
pub open spec fn shows_note(
    plan: PlanView,
    input: LayoutInput,
    run: ProjectedRunView,
    stream: NoteStream,
    id: i32,
) -> bool {
    exists|style: int|
        0 <= style < plan.styles.len() && plan.styles[style] == crate::style::note_style(
            crate::properties::effective_run(run.run.style, run.run.properties),
            input.theme,
            ChangeMarks { underline: run.force_underline, strike: run.force_strike },
            input.revision_view is Markup && run.ordinary_run_index is None,
            plan.styles[style].font,
        ) && #[trigger] shows(
            plan,
            ItemView::Whole(
                TextItemView {
                    style,
                    text: crate::text::signed_decimal(id as int),
                    field: None,
                    note: Some(NoteRef { stream, id }),
                },
            ),
        )
}

/// A hidden run shows nothing: it adds neither items nor fonts.
pub proof fn law_hidden_runs_show_nothing(
    plan: PlanView,
    input: LayoutInput,
    paragraph: Paragraph,
    run: ProjectedRunView,
)
    requires
        crate::properties::effective_run(run.run.style, run.run.properties).vanish == Some(true),
    ensures
        crate::run_plan::run_added(plan, input, paragraph, run) == plan,
{
}

/// The number of a note is set in 58 percent of the size of its run and raised by
/// 33 percent of it, in the color of the run, and is decorated only inside a change
/// that is shown as one.
pub proof fn law_note_numbers_are_small_and_plain(
    properties: RunProperties,
    theme: Option<Theme>,
    marks: ChangeMarks,
    changed: bool,
    font: usize,
)
    ensures
        ({
            let note = crate::style::note_style(properties, theme, marks, changed, font);
            let run = crate::style::text_style(properties, theme, marks, font, None);
            &&& 100 * note.size.0 == 58 * run.size.0
            &&& 100 * note.baseline_offset.0 == 33 * run.size.0
            &&& note.color == run.color
            &&& note.font == font
            &&& note.hyperlink_url is None
            &&& note.spacing is None
            &&& !changed ==> note.underline is None && !note.strike && !note.dstrike
                && note.highlight is None
            &&& changed ==> note.underline == run.underline && note.strike == run.strike
                && note.dstrike == run.dstrike && note.highlight == run.highlight
        }),
{
    let half = crate::style::size_or_default(properties.sz).0 as int;
    let full = half * 10000;
    assert(0 <= half <= u32::MAX);
    assert(full * 58 / 100 == half * 5800);
    let size = crate::style::set_size(properties);
    assert(size == full || size == half * 5800);
    assert(size * 58 % 100 == 0 && size * 33 % 100 == 0);
}

/// A list marker is shown first, with its own text, in its own font and size, or
/// else in the size of the paragraph's text, and in its own color or black; what
/// follows it is a tab, a space or nothing.
pub proof fn law_list_markers_look_as_stated(
    input: LayoutInput,
    paragraph: Paragraph,
    num_id: Option<u32>,
)
    requires
        num_id is Some,
        input.numbering is Some,
        paragraph.marker is Some,
    ensures
        ({
            let plan = crate::run_plan::paragraph_plan(input, paragraph, num_id);
            let marker = paragraph.marker->Some_0;
            let style = plan.styles[0];
            let font = plan.fonts[0];
            &&& plan.items.len() > 0 && plan.styles.len() > 0 && plan.fonts.len() > 0
            &&& plan.items[0] == ItemView::Marker(
                TextItemView { style: 0, text: marker.text@, field: None, note: None },
            )
            &&& style.font == 0
            &&& marker.properties.sz is Some ==> style.size.0 == marker.properties.sz->Some_0.0
                * 10000
            &&& marker.properties.sz is None && paragraph.text_style.sz is Some ==> style.size.0
                == paragraph.text_style.sz->Some_0.0 * 10000
            &&& marker.properties.sz is None && paragraph.text_style.sz is None ==> style.size.0
                == 220000
            &&& marker.properties.color is Some ==> style.color == crate::color::Color::Hex(
                marker.properties.color->Some_0,
            )
            &&& marker.properties.color is None ==> style.color == (crate::color::Color::Rgb {
                red: 0,
                green: 0,
                blue: 0,
            })
            &&& style.underline is None && !style.strike && !style.dstrike
            &&& style.highlight is None && style.spacing is None && style.hyperlink_url is None
            &&& style.baseline_offset.0 == 0
            &&& font.family == marker.properties.font_ascii
            &&& font.bold == (marker.properties.bold == Some(true))
            &&& font.italic == (marker.properties.italic == Some(true))
            &&& font.sample == marker.text@
            &&& marker.suffix is Tab ==> plan.items.len() > 1 && plan.items[1] == ItemView::Tab
            &&& marker.suffix is Space ==> plan.items.len() > 1 && plan.items[1]
                == ItemView::Whole(
                TextItemView { style: 0, text: " "@, field: None, note: None },
            )
        }),
{
    let runs = crate::revision::projection(paragraph, input.revision_view);
    let marked = marked_plan(input, paragraph, num_id);
    let plan = crate::run_plan::paragraph_plan(input, paragraph, num_id);
    lemma_runs(marked, input, paragraph, runs, 0, runs.len());
    let end = crate::run_plan::runs_added(marked, input, paragraph, runs, runs.len());
    let targets = crate::run_plan::targets_at_end(input, paragraph, runs);
    lemma_targets(end, targets);
    lemma_extends_on(marked, end, plan);
    assert(plan.items.take(marked.items.len() as int)[0] == marked.items[0]);
    assert(plan.styles.take(marked.styles.len() as int)[0] == marked.styles[0]);
    assert(plan.fonts.take(marked.fonts.len() as int)[0] == marked.fonts[0]);
    if marked.items.len() > 1 {
        assert(plan.items.take(marked.items.len() as int)[1] == marked.items[1]);
    }
}

/// Whether a text holds none of the characters that stand for tabs and breaks.
pub open spec fn is_unbroken(text: Seq<char>) -> bool {
    forall|i: int|
        0 <= i < text.len() ==> (#[trigger] text[i]) != '\t' && text[i] != '\n' && text[i]
            != '\u{000b}' && text[i] != '\u{000c}'
}

proof fn lemma_one_piece(value: Seq<char>)
    requires
        value.len() > 0,
        is_unbroken(value),
    ensures
        crate::field::pieces(value) == seq![Piece::Text(value)],
    decreases value.len(),
{
    let rest = value.drop_last();
    assert(crate::field::control_item(value.last()) is None) by {
        assert(value[value.len() - 1] != '\t');
    }
    if rest.len() == 0 {
        assert(crate::field::pieces(rest) =~= Seq::empty());
        assert(value =~= seq![value.last()]);
    } else {
        assert forall|i: int| 0 <= i < rest.len() implies (#[trigger] rest[i]) != '\t' && rest[i]
            != '\n' && rest[i] != '\u{000b}' && rest[i] != '\u{000c}' by {
            assert(value[i] != '\t');
        }
        lemma_one_piece(rest);
        assert(rest.push(value.last()) =~= value);
    }
    assert(crate::field::pieces(value) =~= seq![Piece::Text(value)]);
}

/// Whether a plan shows a text of a field: with the properties that are given for it,
/// the marks and the link of its run, and a font that can show it.
pub open spec fn shows_field_text(
    plan: PlanView,
    input: LayoutInput,
    paragraph: Paragraph,
    run: ProjectedRunView,
    properties: RunProperties,
    text: Seq<char>,
    kind: Option<FieldKind>,
) -> bool {
    exists|j: int|
        0 <= j < plan.styles.len() && plan.styles[j].font < plan.fonts.len() && #[trigger] shows(
            plan,
            ItemView::Text(
                TextItemView {
                    style: j,
                    text: in_letters(text, properties.caps),
                    field: kind,
                    note: None,
                },
            ),
        ) && plan.styles[j] == crate::style::text_style(
            properties,
            input.theme,
            ChangeMarks { underline: run.force_underline, strike: run.force_strike },
            plan.styles[j].font,
            crate::run_plan::run_url(input.hyperlink_urls@, paragraph.hyperlinks@, run),
        ) && plan.fonts[plan.styles[j].font as int] == crate::style::run_font(
            properties,
            input.theme,
            text,
        )
}

/// A field result without control characters is shown as one text.
proof fn lemma_segment_shows(
    before: PlanView,
    plan: PlanView,
    input: LayoutInput,
    paragraph: Paragraph,
    run: ProjectedRunView,
    look: RunLook,
    value: Seq<char>,
    stored: Option<SegmentProperties>,
    kind: Option<FieldKind>,
)
    requires
        extends(
            crate::field::segment_added(before, input.theme, look, value, stored, kind),
            plan,
        ),
        plan.fonts.len() <= usize::MAX,
        value.len() > 0,
        is_unbroken(value),
        look.marks == (ChangeMarks {
            underline: run.force_underline,
            strike: run.force_strike,
        }),
        look.hyperlink_url == crate::run_plan::run_url(
            input.hyperlink_urls@,
            paragraph.hyperlinks@,
            run,
        ),
    ensures
        ({
            let properties = crate::field::segment_properties(look.properties, stored);
            properties.vanish != Some(true) && in_letters(value, properties.caps).len() > 0
                ==> shows_field_text(plan, input, paragraph, run, properties, value, kind)
        }),
{
    let properties = crate::field::segment_properties(look.properties, stored);
    let after = crate::field::segment_added(before, input.theme, look, value, stored, kind);
    let said = in_letters(value, properties.caps);
    if properties.vanish != Some(true) && said.len() > 0 {
        lemma_one_piece(value);
        let j = before.styles.len() as int;
        let font = before.fonts.len() as usize;
        let style = crate::style::text_style(
            properties,
            input.theme,
            look.marks,
            font,
            look.hyperlink_url,
        );
        let request = crate::style::run_font(properties, input.theme, value);
        let ready = before.with_font(request).with_style(style);
        let item = ItemView::Text(TextItemView { style: j, text: said, field: kind, note: None });
        let parts = crate::field::pieces(value);
        reveal_with_fuel(crate::field::pieces_added, 2);
        assert(parts.drop_last() =~= Seq::empty());
        assert(after == ready.with_item(item));
        lemma_last_shows(after, item);
        lemma_still_shows(after, plan, item);
        assert(before.fonts.len() < after.fonts.len() <= plan.fonts.len());
        assert(plan.styles.take(after.styles.len() as int)[j] == after.styles[j]);
        assert(plan.fonts.take(after.fonts.len() as int)[font as int] == after.fonts[font as int]);
        assert(plan.styles[j] == style);
        assert(plan.fonts[font as int] == request);
    }
}

proof fn lemma_more_stored(
    plan: PlanView,
    theme: Option<Theme>,
    look: RunLook,
    display: Seq<DisplaySegment>,
    from: nat,
    to: nat,
)
    requires
        from <= to,
    ensures
        extends(
            crate::field::stored_added(plan, theme, look, display, from),
            crate::field::stored_added(plan, theme, look, display, to),
        ),
    decreases to,
{
    let start = crate::field::stored_added(plan, theme, look, display, from);
    if from == to {
        lemma_extends_self(start);
    } else {
        let last = (to - 1) as nat;
        lemma_more_stored(plan, theme, look, display, from, last);
        let before = crate::field::stored_added(plan, theme, look, display, last);
        lemma_segment(
            before,
            theme,
            look,
            display[last as int].text@,
            display[last as int].properties,
            None,
        );
        lemma_extends_on(
            start,
            before,
            crate::field::stored_added(plan, theme, look, display, to),
        );
    }
}

/// The properties of a piece of a field result: those that are stored with it over
/// those of its own styles, or else those of the run that the field stands in.
pub open spec fn result_properties(
    run: RunProperties,
    stored: Option<SegmentProperties>,
) -> RunProperties {
    match stored {
        Some(own) => crate::properties::merged_run(own.style, own.direct),
        None => run,
    }
}

/// Every field of a run that is not hidden shows its value: one that is computed
/// shows the text that it has, with the looks of its first stored result; one that is
/// stored shows every stored result, each with its own looks. Hidden results show
/// nothing.
pub proof fn law_every_field_shows_its_value(
    input: LayoutInput,
    paragraph: Paragraph,
    num_id: Option<u32>,
    k: int,
    c: int,
    field: Field,
    d: int,
)
    requires
        ({
            let runs = crate::revision::projection(paragraph, input.revision_view);
            &&& 0 <= k < runs.len()
            &&& 0 <= c < runs[k].run.content@.len()
            &&& runs[k].run.content@[c] == RunContent::Field(field)
            &&& crate::properties::effective_run(
                runs[k].run.style,
                runs[k].run.properties,
            ).vanish != Some(true)
        }),
        is_countable(crate::run_plan::paragraph_plan(input, paragraph, num_id)),
    ensures
        ({
            let run = crate::revision::projection(paragraph, input.revision_view)[k];
            let own = crate::properties::effective_run(run.run.style, run.run.properties);
            let plan = crate::run_plan::paragraph_plan(input, paragraph, num_id);
            let first = result_properties(
                own,
                if field.display@.len() > 0 {
                    field.display@[0].properties
                } else {
                    None
                },
            );
            match crate::field::field_value(input, field) {
                FieldValueView::Skipped => true,
                FieldValueView::Computed { text, kind } => {
                    text.len() > 0 && is_unbroken(text) && first.vanish != Some(true)
                        && in_letters(text, first.caps).len() > 0 ==> shows_field_text(
                        plan,
                        input,
                        paragraph,
                        run,
                        first,
                        text,
                        kind,
                    )
                },
                FieldValueView::Stored => 0 <= d < field.display@.len() ==> {
                    let text = field.display@[d].text@;
                    let properties = result_properties(own, field.display@[d].properties);
                    text.len() > 0 && is_unbroken(text) && properties.vanish != Some(true)
                        && in_letters(text, properties.caps).len() > 0 ==> shows_field_text(
                        plan,
                        input,
                        paragraph,
                        run,
                        properties,
                        text,
                        None,
                    )
                },
            }
        }),
{
    let run = crate::revision::projection(paragraph, input.revision_view)[k];
    let plan = crate::run_plan::paragraph_plan(input, paragraph, num_id);
    let (before, look) = lemma_piece_stage(input, paragraph, num_id, k, c);
    let reported = crate::field::field_reported(before, input, field);
    let after = crate::field::field_added(before, input, look, field);
    match crate::field::field_value(input, field) {
        FieldValueView::Skipped => {},
        FieldValueView::Computed { text, kind } => {
            if text.len() > 0 && is_unbroken(text) {
                lemma_segment_shows(
                    reported,
                    plan,
                    input,
                    paragraph,
                    run,
                    look,
                    text,
                    crate::field::first_stored(field),
                    kind,
                );
            }
        },
        FieldValueView::Stored => {
            if 0 <= d < field.display@.len() {
                let text = field.display@[d].text@;
                let display = field.display@;
                let here = crate::field::stored_added(
                    reported,
                    input.theme,
                    look,
                    display,
                    d as nat,
                );
                let then = crate::field::stored_added(
                    reported,
                    input.theme,
                    look,
                    display,
                    (d + 1) as nat,
                );
                lemma_more_stored(
                    reported,
                    input.theme,
                    look,
                    display,
                    (d + 1) as nat,
                    display.len(),
                );
                lemma_extends_on(then, after, plan);
                if text.len() > 0 && is_unbroken(text) {
                    lemma_segment_shows(
                        here,
                        plan,
                        input,
                        paragraph,
                        run,
                        look,
                        text,
                        display[d].properties,
                        None,
                    );
                }
            }
        },
    }
}

/// Whether the first argument of a field is a given text.
pub open spec fn first_argument_is(field: Field, name: Seq<char>) -> bool {
    &&& field.arguments@.len() > 0
    &&& match field.arguments@[0] {
        FieldArgument::Text(text) => text@ == name,
        FieldArgument::Nested => false,
    }
}

/// Whether a field names nothing: it has no argument, or another field as its first.
pub open spec fn names_nothing(field: Field) -> bool {
    field.arguments@.len() == 0 || field.arguments@[0] is Nested
}

/// What fields show: a page field and a field for the number of pages a placeholder
/// of their kind; a reference the text of its bookmark; a page reference a
/// placeholder for the page of its bookmark; a reference of either kind the stored
/// result if its bookmark has no text, and nothing if it names none; and any other
/// field the stored result.
pub proof fn law_fields_show_what_they_name(
    input: LayoutInput,
    field: Field,
    name: Seq<char>,
    text: Seq<char>,
    target: usize,
)
    ensures
        ({
            let value = crate::field::field_value(input, field);
            let reported = crate::field::field_diagnostic(input, field);
            let found = crate::bookmark::bookmark_text_of(input, name);
            let number = crate::bookmark::page_ref_of(input, name);
            let refers = field.name@ == "REF"@ || field.name@ == "PAGEREF"@;
            &&& field.name@ == "PAGE"@ ==> value is Computed && value->text == seq!['9', '9']
                && value->kind == Some(FieldKind::Page)
            &&& field.name@ == "NUMPAGES"@ ==> value is Computed && value->text == seq!['9', '9']
                && value->kind == Some(FieldKind::NumPages)
            &&& field.name@ == "REF"@ && first_argument_is(field, name) && found == Some(text)
                ==> value is Computed && value->text == text && value->kind is None
            &&& field.name@ == "PAGEREF"@ && first_argument_is(field, name) && found is Some
                && number == Some(target) ==> value is Computed && value->text == seq!['9', '9']
                && value->kind == Some(FieldKind::TargetPage(target))
            &&& refers && first_argument_is(field, name) && found is None ==> value is Stored
                && reported is Some && reported->Some_0 == crate::plan::DiagnosticView::Message(
                field.name@ + " target "@ + name + " was not found, stored display retained"@,
            )
            &&& refers && names_nothing(field) ==> value is Skipped && reported is None
            &&& !refers || found is Some && first_argument_is(field, name) ==> reported is None
            &&& !refers && field.name@ != "PAGE"@ && field.name@ != "NUMPAGES"@ ==> value is Stored
        }),
{
    reveal_strlit("99");
    reveal_strlit("PAGE");
    reveal_strlit("NUMPAGES");
    reveal_strlit("REF");
    reveal_strlit("PAGEREF");
    assert("PAGE"@.len() == 4);
    assert("NUMPAGES"@.len() == 8);
    assert("REF"@.len() == 3);
    assert("PAGEREF"@.len() == 7);
    assert("99"@ =~= seq!['9', '9']);
}

/// A reference to a bookmark without a text is reported.
pub proof fn law_references_to_nothing_are_reported(
    input: LayoutInput,
    paragraph: Paragraph,
    num_id: Option<u32>,
    k: int,
    c: int,
    field: Field,
    name: Seq<char>,
)
    requires
        ({
            let runs = crate::revision::projection(paragraph, input.revision_view);
            &&& 0 <= k < runs.len()
            &&& 0 <= c < runs[k].run.content@.len()
            &&& runs[k].run.content@[c] == RunContent::Field(field)
            &&& crate::properties::effective_run(
                runs[k].run.style,
                runs[k].run.properties,
            ).vanish != Some(true)
        }),
        is_countable(crate::run_plan::paragraph_plan(input, paragraph, num_id)),
        field.name@ == "REF"@ || field.name@ == "PAGEREF"@,
        first_argument_is(field, name),
        crate::bookmark::bookmark_text_of(input, name) is None,
    ensures
        ({
            let reported = crate::run_plan::paragraph_plan(input, paragraph, num_id).diagnostics;
            exists|i: int|
                0 <= i < reported.len() && #[trigger] reported[i]
                    == crate::plan::DiagnosticView::Message(
                    field.name@ + " target "@ + name + " was not found, stored display retained"@,
                )
        }),
{
    let plan = crate::run_plan::paragraph_plan(input, paragraph, num_id);
    let (before, look) = lemma_piece_stage(input, paragraph, num_id, k, c);
    let reported = crate::field::field_reported(before, input, field);
    let after = crate::field::field_added(before, input, look, field);
    law_fields_show_what_they_name(input, field, name, name, 0);
    lemma_stored(reported, input.theme, look, field.display@, field.display@.len());
    lemma_extends_on(reported, after, plan);
    let i = before.diagnostics.len() as int;
    assert(plan.diagnostics.take(reported.diagnostics.len() as int)[i] == reported.diagnostics[i]);
}

/// Whether a marker starts a bookmark that has a text and whose page is asked for
/// under a number.
pub open spec fn starts_referenced(
    input: LayoutInput,
    marker: BookmarkMarker,
    target: usize,
) -> bool {
    &&& marker.is_start
    &&& match marker.name {
        Some(name) => crate::bookmark::bookmark_text_of(input, name@) is Some
            && crate::bookmark::page_ref_of(input, name@) == Some(target),
        None => false,
    }
}

/// Where a marker that stands right before a run leaves its target: after the items
/// of the runs before, and before those of the run.
proof fn lemma_target_place(
    input: LayoutInput,
    paragraph: Paragraph,
    num_id: Option<u32>,
    m: int,
    k: int,
    target: usize,
) -> (j: int)
    requires
        0 <= m < paragraph.bookmark_markers@.len(),
        crate::run_plan::target_of(input, paragraph.bookmark_markers@[m]) == Some(target),
        ({
            let runs = crate::revision::projection(paragraph, input.revision_view);
            &&& 0 <= k < runs.len()
            &&& crate::run_plan::starts_between(
                paragraph.bookmark_markers@[m],
                runs[k].boundary,
                crate::run_plan::place_before(runs, k),
                runs[k].raw_order,
            )
        }),
    ensures
        ({
            let runs = crate::revision::projection(paragraph, input.revision_view);
            let marked = marked_plan(input, paragraph, num_id);
            let plan = crate::run_plan::paragraph_plan(input, paragraph, num_id);
            &&& crate::run_plan::runs_added(marked, input, paragraph, runs, k as nat).items.len()
                <= j < before_run(marked, input, paragraph, runs, k as nat).items.len()
                <= plan.items.len()
            &&& is_target_item(plan.items[j], target)
        }),
{
    let runs = crate::revision::projection(paragraph, input.revision_view);
    let marked = marked_plan(input, paragraph, num_id);
    let plan = crate::run_plan::paragraph_plan(input, paragraph, num_id);
    let markers = paragraph.bookmark_markers@;
    let found = crate::run_plan::targets_before_run(input, paragraph, runs, k);
    lemma_target_found(
        input,
        markers,
        runs[k].boundary,
        crate::run_plan::place_before(runs, k),
        runs[k].raw_order,
        markers.len(),
        m,
        target,
    );
    let place = choose|j: int| 0 <= j < found.len() && found[j] == target;
    let start = crate::run_plan::runs_added(marked, input, paragraph, runs, k as nat);
    let ready = before_run(marked, input, paragraph, runs, k as nat);
    lemma_targets(start, found);
    let added = found.map_values(
        |target: usize| crate::run_plan::target_item(start.styles.len() as int, target),
    );
    assert(added[place] == crate::run_plan::target_item(start.styles.len() as int, target));
    let j = start.items.len() + place;
    assert(ready.items[j] == added[place]);
    lemma_runs(marked, input, paragraph, runs, k as nat, runs.len());
    let end = crate::run_plan::runs_added(marked, input, paragraph, runs, runs.len());
    lemma_targets(end, crate::run_plan::targets_at_end(input, paragraph, runs));
    lemma_extends_on(ready, end, plan);
    assert(plan.items.take(ready.items.len() as int)[j] == ready.items[j]);
    j
}

/// Where a text of a run stands: after what stands before the run, and before what
/// comes after it.
proof fn lemma_text_place(
    input: LayoutInput,
    paragraph: Paragraph,
    num_id: Option<u32>,
    k: int,
    c: int,
    text: Seq<char>,
) -> (l: int)
    requires
        ({
            let runs = crate::revision::projection(paragraph, input.revision_view);
            &&& 0 <= k < runs.len()
            &&& 0 <= c < runs[k].run.content@.len()
            &&& holds_text(runs[k].run.content@[c], text)
            &&& crate::run_plan::shown_properties(runs[k].run).vanish != Some(true)
            &&& in_letters(text, crate::run_plan::shown_properties(runs[k].run).caps).len() > 0
        }),
        is_countable(crate::run_plan::paragraph_plan(input, paragraph, num_id)),
    ensures
        ({
            let runs = crate::revision::projection(paragraph, input.revision_view);
            let marked = marked_plan(input, paragraph, num_id);
            let plan = crate::run_plan::paragraph_plan(input, paragraph, num_id);
            &&& before_run(marked, input, paragraph, runs, k as nat).items.len() <= l
                < crate::run_plan::runs_added(
                marked,
                input,
                paragraph,
                runs,
                (k + 1) as nat,
            ).items.len() <= plan.items.len()
            &&& is_text_item(
                plan.items[l],
                in_letters(text, crate::run_plan::shown_properties(runs[k].run).caps),
            )
        }),
{
    let runs = crate::revision::projection(paragraph, input.revision_view);
    let run = runs[k];
    let marked = marked_plan(input, paragraph, num_id);
    let plan = crate::run_plan::paragraph_plan(input, paragraph, num_id);
    let start = before_run(marked, input, paragraph, runs, k as nat);
    let look = crate::run_plan::run_look(start, input, paragraph, run);
    let font = crate::style::run_font(
        look.properties,
        input.theme,
        crate::revision::run_text(run.run),
    );
    let style = crate::style::text_style(
        look.properties,
        input.theme,
        look.marks,
        look.font,
        look.hyperlink_url,
    );
    let ready = start.with_font(font).with_style(style);
    lemma_font_and_style(start, font, style);
    let before = crate::run_plan::contents_added(ready, input, look, run.run, c as nat);
    let after = crate::run_plan::contents_added(ready, input, look, run.run, (c + 1) as nat);
    lemma_contents(ready, input, look, run.run, c as nat);
    lemma_more_contents(ready, input, look, run.run, (c + 1) as nat, run.run.content@.len());
    let done = crate::run_plan::runs_added(marked, input, paragraph, runs, (k + 1) as nat);
    assert(done == crate::run_plan::run_added(start, input, paragraph, run));
    lemma_runs(marked, input, paragraph, runs, (k + 1) as nat, runs.len());
    let end = crate::run_plan::runs_added(marked, input, paragraph, runs, runs.len());
    lemma_targets(end, crate::run_plan::targets_at_end(input, paragraph, runs));
    lemma_extends_on(done, end, plan);
    lemma_extends_on(after, done, plan);
    lemma_more_contents(ready, input, look, run.run, 0, c as nat);
    let l = before.items.len() as int;
    assert(after.items[l] == after.items.last());
    assert(plan.items.take(after.items.len() as int)[l] == after.items[l]);
    l
}

/// Whether a piece of a run holds a text.
pub open spec fn holds_text(content: RunContent, text: Seq<char>) -> bool {
    match content {
        RunContent::Text(own) => own@ == text,
        RunContent::DeletedText(own) => own@ == text,
        _ => false,
    }
}

/// Whether an item is an ordinary text.
pub open spec fn is_text_item(item: ItemView, said: Seq<char>) -> bool {
    match item {
        ItemView::Text(text) => text.text == said && text.field is None,
        _ => false,
    }
}

/// The target of a bookmark stands where the bookmark starts: after every text of
/// the runs at boundaries before it, and before every text of the run at its own
/// boundary and of the runs at later ones.
pub proof fn law_targets_stand_where_their_bookmarks_start(
    input: LayoutInput,
    paragraph: Paragraph,
    num_id: Option<u32>,
    m: int,
    target: usize,
    k: int,
    c: int,
    text: Seq<char>,
) -> (places: (int, int))
    requires
        0 <= m < paragraph.bookmark_markers@.len(),
        starts_referenced(input, paragraph.bookmark_markers@[m], target),
        paragraph.bookmark_markers@[m].run_index < paragraph.runs@.len(),
        ({
            let runs = crate::revision::projection(paragraph, input.revision_view);
            &&& 0 <= k < runs.len()
            &&& 0 <= c < runs[k].run.content@.len()
            &&& holds_text(runs[k].run.content@[c], text)
            &&& crate::properties::effective_run(
                runs[k].run.style,
                runs[k].run.properties,
            ).vanish != Some(true)
        }),
        is_countable(crate::run_plan::paragraph_plan(input, paragraph, num_id)),
    ensures
        ({
            let runs = crate::revision::projection(paragraph, input.revision_view);
            let items = crate::run_plan::paragraph_plan(input, paragraph, num_id).items;
            let marker = paragraph.bookmark_markers@[m];
            let said = in_letters(
                text,
                crate::properties::effective_run(
                    runs[k].run.style,
                    runs[k].run.properties,
                ).caps,
            );
            let (j, l) = places;
            &&& 0 <= j < items.len()
            &&& is_target_item(items[j], target)
            &&& said.len() > 0 ==> 0 <= l < items.len() && is_text_item(items[l], said)
            &&& said.len() > 0 && runs[k].boundary < marker.run_index ==> l < j
            &&& said.len() > 0 && runs[k].boundary > marker.run_index ==> j < l
            &&& said.len() > 0 && runs[k].ordinary_run_index == Some(marker.run_index) ==> j < l
        }),
{
    let view = input.revision_view;
    let runs = crate::revision::projection(paragraph, view);
    let marked = marked_plan(input, paragraph, num_id);
    let markers = paragraph.bookmark_markers@;
    let marker = markers[m];
    let boundary = marker.run_index;
    crate::revision_laws::law_projection_is_in_boundary_order(paragraph, view);
    crate::revision_laws::law_ordinary_runs_are_always_shown(paragraph, view);
    let ordinary = crate::revision_laws::ordinary_only(runs);
    let run = crate::revision::ordinary_run(paragraph.runs@[boundary as int], boundary);
    let keep = |run: ProjectedRunView| run.ordinary_run_index is Some;
    assert(ordinary[boundary as int] == run);
    assert(runs.filter(keep) =~= ordinary);
    assert(runs.filter(keep).contains(run));
    runs.lemma_filter_contains_rev(keep, run);
    let own = choose|own: int| 0 <= own < runs.len() && runs[own] == run;
    let first = lemma_window(runs, marker, own);
    let j = lemma_target_place(input, paragraph, num_id, m, first, target);
    let caps = crate::run_plan::shown_properties(runs[k].run).caps;
    if in_letters(text, caps).len() > 0 {
        let l = lemma_text_place(input, paragraph, num_id, k, c, text);
        if runs[k].boundary < boundary {
            assert(k < first);
            lemma_runs(marked, input, paragraph, runs, (k + 1) as nat, first as nat);
        }
        if runs[k].boundary > boundary {
            assert(first < k);
            lemma_runs(marked, input, paragraph, runs, first as nat, k as nat);
            let start = crate::run_plan::runs_added(marked, input, paragraph, runs, k as nat);
            lemma_targets(
                start,
                crate::run_plan::targets_before_run(input, paragraph, runs, k),
            );
        }
        if runs[k].ordinary_run_index == Some(boundary) {
            crate::revision_laws::law_changes_come_before_their_run(paragraph, view);
            assert(keep(runs[k]));
            runs.lemma_filter_contains(keep, k);
            let i = choose|i: int| 0 <= i < ordinary.len() && ordinary[i] == runs[k];
            assert(paragraph.runs@.len() == paragraph.runs.len());
            assert(runs[k].boundary == boundary);
            assert(k == own);
            lemma_runs(marked, input, paragraph, runs, first as nat, k as nat);
            let start = crate::run_plan::runs_added(marked, input, paragraph, runs, k as nat);
            lemma_targets(
                start,
                crate::run_plan::targets_before_run(input, paragraph, runs, k),
            );
        }
        (j, l)
    } else {
        (j, j)
    }
}

/// A bookmark that has a text, and whose page is asked for, leaves its target in the
/// plan of its paragraph.
pub proof fn law_referenced_bookmarks_leave_their_targets(
    input: LayoutInput,
    paragraph: Paragraph,
    num_id: Option<u32>,
    m: int,
    target: usize,
)
    requires
        0 <= m < paragraph.bookmark_markers@.len(),
        paragraph.bookmark_markers@[m].run_index <= paragraph.runs@.len(),
        starts_referenced(input, paragraph.bookmark_markers@[m], target),
    ensures
        holds_target(crate::run_plan::paragraph_plan(input, paragraph, num_id), target),
{
    law_every_target_is_retained(input, paragraph, num_id, m, target);
}

/// Whether an item is a target.
pub open spec fn is_any_target(item: ItemView) -> bool {
    match item {
        ItemView::Marker(text) => text.field is Some && text.field->Some_0 is Target,
        ItemView::Text(text) => text.field is Some && text.field->Some_0 is Target,
        ItemView::Whole(text) => text.field is Some && text.field->Some_0 is Target,
        _ => false,
    }
}

/// Whether an item is a target or a list marker.
spec fn is_special(item: ItemView) -> bool {
    is_any_target(item) || item is Marker
}

/// Whether a plan goes on from another one without a new target or list marker.
spec fn no_new_target(before: PlanView, after: PlanView) -> bool {
    &&& before.items.len() <= after.items.len()
    &&& after.items.take(before.items.len() as int) == before.items
    &&& forall|i: int|
        before.items.len() <= i < after.items.len() ==> !is_special(#[trigger] after.items[i])
}

proof fn lemma_no_target_self(plan: PlanView)
    ensures
        no_new_target(plan, plan),
{
    assert(plan.items.take(plan.items.len() as int) =~= plan.items);
}

proof fn lemma_no_target_on(a: PlanView, b: PlanView, c: PlanView)
    requires
        no_new_target(a, b),
        no_new_target(b, c),
    ensures
        no_new_target(a, c),
{
    assert(c.items.take(a.items.len() as int) =~= c.items.take(b.items.len() as int).take(
        a.items.len() as int,
    ));
    assert forall|i: int| a.items.len() <= i < c.items.len() implies !is_special(
        #[trigger] c.items[i],
    ) by {
        if i < b.items.len() {
            assert(c.items.take(b.items.len() as int)[i] == b.items[i]);
        }
    }
}

proof fn lemma_no_target_item(plan: PlanView, after: PlanView)
    requires
        after.items == plan.items || (after.items == plan.items.push(after.items.last())
            && after.items.len() > 0 && !is_special(after.items.last())),
    ensures
        no_new_target(plan, after),
{
    assert(after.items.take(plan.items.len() as int) =~= plan.items);
}

proof fn lemma_no_target_pieces(
    plan: PlanView,
    style: int,
    parts: Seq<Piece>,
    caps: bool,
    kind: Option<FieldKind>,
)
    requires
        kind is Some ==> !(kind->Some_0 is Target),
        forall|i: int| 0 <= i < parts.len() ==> control_is_plain(#[trigger] parts[i]),
    ensures
        no_new_target(plan, crate::field::pieces_added(plan, style, parts, caps, kind)),
    decreases parts.len(),
{
    if parts.len() == 0 {
        lemma_no_target_self(plan);
    } else {
        let rest = parts.drop_last();
        assert forall|i: int| 0 <= i < rest.len() implies control_is_plain(#[trigger] rest[i]) by {
            assert(control_is_plain(parts[i]));
        }
        lemma_no_target_pieces(plan, style, rest, caps, kind);
        let before = crate::field::pieces_added(plan, style, rest, caps, kind);
        let after = crate::field::pieces_added(plan, style, parts, caps, kind);
        assert(control_is_plain(parts[parts.len() - 1]));
        lemma_no_target_item(before, after);
        lemma_no_target_on(plan, before, after);
    }
}

proof fn lemma_no_target_segment(
    plan: PlanView,
    theme: Option<Theme>,
    look: RunLook,
    value: Seq<char>,
    stored: Option<SegmentProperties>,
    kind: Option<FieldKind>,
)
    requires
        kind is Some ==> !(kind->Some_0 is Target),
    ensures
        no_new_target(plan, crate::field::segment_added(plan, theme, look, value, stored, kind)),
{
    let properties = crate::field::segment_properties(look.properties, stored);
    lemma_no_target_self(plan);
    if !crate::style::is_on(properties.vanish) {
        let style = crate::style::text_style(
            properties,
            theme,
            look.marks,
            plan.fonts.len() as usize,
            look.hyperlink_url,
        );
        let ready = plan.with_font(
            crate::style::run_font(properties, theme, value),
        ).with_style(style);
        lemma_pieces_are_plain(value);
        lemma_no_target_pieces(
            ready,
            plan.styles.len() as int,
            crate::field::pieces(value),
            crate::style::is_on(properties.caps),
            kind,
        );
    }
}

proof fn lemma_no_target_stored(
    plan: PlanView,
    theme: Option<Theme>,
    look: RunLook,
    display: Seq<DisplaySegment>,
    n: nat,
)
    ensures
        no_new_target(plan, crate::field::stored_added(plan, theme, look, display, n)),
    decreases n,
{
    if n == 0 {
        lemma_no_target_self(plan);
    } else {
        lemma_no_target_stored(plan, theme, look, display, (n - 1) as nat);
        let before = crate::field::stored_added(plan, theme, look, display, (n - 1) as nat);
        lemma_no_target_segment(
            before,
            theme,
            look,
            display[n - 1].text@,
            display[n - 1].properties,
            None,
        );
        lemma_no_target_on(
            plan,
            before,
            crate::field::stored_added(plan, theme, look, display, n),
        );
    }
}

proof fn lemma_no_target_content(
    plan: PlanView,
    input: LayoutInput,
    look: RunLook,
    content: RunContent,
)
    ensures
        no_new_target(plan, crate::run_plan::content_added(plan, input, look, content)),
{
    let after = crate::run_plan::content_added(plan, input, look, content);
    if let RunContent::Field(field) = content {
        let reported = crate::field::field_reported(plan, input, field);
        match crate::field::field_value(input, field) {
            FieldValueView::Skipped => lemma_no_target_self(plan),
            FieldValueView::Stored => lemma_no_target_stored(
                reported,
                input.theme,
                look,
                field.display@,
                field.display@.len(),
            ),
            FieldValueView::Computed { text, kind } => lemma_no_target_segment(
                reported,
                input.theme,
                look,
                text,
                crate::field::first_stored(field),
                kind,
            ),
        }
    } else {
        lemma_no_target_item(plan, after);
    }
}

proof fn lemma_no_target_contents(
    plan: PlanView,
    input: LayoutInput,
    look: RunLook,
    run: Run,
    n: nat,
)
    ensures
        no_new_target(plan, crate::run_plan::contents_added(plan, input, look, run, n)),
    decreases n,
{
    if n == 0 {
        lemma_no_target_self(plan);
    } else {
        lemma_no_target_contents(plan, input, look, run, (n - 1) as nat);
        let before = crate::run_plan::contents_added(plan, input, look, run, (n - 1) as nat);
        lemma_no_target_content(before, input, look, run.content@[n - 1]);
        lemma_no_target_on(
            plan,
            before,
            crate::run_plan::contents_added(plan, input, look, run, n),
        );
    }
}

/// Whether a paragraph starts a bookmark whose target an item is.
pub open spec fn is_owned(input: LayoutInput, paragraph: Paragraph, item: ItemView) -> bool {
    exists|m: int, target: usize|
        0 <= m < paragraph.bookmark_markers@.len() && #[trigger] starts_referenced(
            input,
            paragraph.bookmark_markers@[m],
            target,
        ) && is_target_item(item, target)
}

/// Whether every target of a plan is that of a bookmark which its paragraph starts.
pub open spec fn targets_are_owned(
    plan: PlanView,
    input: LayoutInput,
    paragraph: Paragraph,
) -> bool {
    forall|i: int|
        0 <= i < plan.items.len() && is_any_target(#[trigger] plan.items[i]) ==> is_owned(
            input,
            paragraph,
            plan.items[i],
        )
}

proof fn lemma_still_owned(
    before: PlanView,
    after: PlanView,
    input: LayoutInput,
    paragraph: Paragraph,
)
    requires
        targets_are_owned(before, input, paragraph),
        no_new_target(before, after),
    ensures
        targets_are_owned(after, input, paragraph),
{
    assert forall|i: int| 0 <= i < after.items.len() && is_any_target(
        #[trigger] after.items[i],
    ) implies is_owned(input, paragraph, after.items[i]) by {
        if i < before.items.len() {
            assert(after.items.take(before.items.len() as int)[i] == before.items[i]);
        }
    }
}

proof fn lemma_found_targets_are_owned(
    input: LayoutInput,
    paragraph: Paragraph,
    boundary: usize,
    after: Option<RawOrder>,
    through: RawOrder,
    n: nat,
    k: int,
) -> (m: int)
    requires
        n <= paragraph.bookmark_markers@.len(),
        0 <= k < crate::run_plan::targets_between(
            input,
            paragraph.bookmark_markers@,
            boundary,
            after,
            through,
            n,
        ).len(),
    ensures
        0 <= m < n,
        starts_referenced(
            input,
            paragraph.bookmark_markers@[m],
            crate::run_plan::targets_between(
                input,
                paragraph.bookmark_markers@,
                boundary,
                after,
                through,
                n,
            )[k],
        ),
    decreases n,
{
    let markers = paragraph.bookmark_markers@;
    let before = crate::run_plan::targets_between(
        input,
        markers,
        boundary,
        after,
        through,
        (n - 1) as nat,
    );
    if k < before.len() {
        lemma_found_targets_are_owned(
            input,
            paragraph,
            boundary,
            after,
            through,
            (n - 1) as nat,
            k,
        )
    } else {
        n - 1
    }
}

proof fn lemma_added_targets_are_owned(
    plan: PlanView,
    input: LayoutInput,
    paragraph: Paragraph,
    boundary: usize,
    after: Option<RawOrder>,
    through: RawOrder,
)
    requires
        targets_are_owned(plan, input, paragraph),
    ensures
        targets_are_owned(
            crate::run_plan::targets_added(
                plan,
                crate::run_plan::targets_between(
                    input,
                    paragraph.bookmark_markers@,
                    boundary,
                    after,
                    through,
                    paragraph.bookmark_markers@.len(),
                ),
            ),
            input,
            paragraph,
        ),
{
    let markers = paragraph.bookmark_markers@;
    let found = crate::run_plan::targets_between(
        input,
        markers,
        boundary,
        after,
        through,
        markers.len(),
    );
    let done = crate::run_plan::targets_added(plan, found);
    lemma_targets(plan, found);
    assert forall|i: int| 0 <= i < done.items.len() && is_any_target(
        #[trigger] done.items[i],
    ) implies is_owned(input, paragraph, done.items[i]) by {
        if i < plan.items.len() {
            assert(done.items[i] == plan.items[i]);
        } else {
            let k = i - plan.items.len();
            let added = found.map_values(
                |target: usize| crate::run_plan::target_item(plan.styles.len() as int, target),
            );
            assert(done.items[i] == added[k]);
            let m = lemma_found_targets_are_owned(
                input,
                paragraph,
                boundary,
                after,
                through,
                markers.len(),
                k,
            );
            assert(starts_referenced(input, markers[m], found[k]));
            assert(is_target_item(done.items[i], found[k]));
        }
    }
}

proof fn lemma_runs_owned(
    plan: PlanView,
    input: LayoutInput,
    paragraph: Paragraph,
    runs: Seq<ProjectedRunView>,
    n: nat,
)
    requires
        targets_are_owned(plan, input, paragraph),
    ensures
        targets_are_owned(
            crate::run_plan::runs_added(plan, input, paragraph, runs, n),
            input,
            paragraph,
        ),
    decreases n,
{
    if n > 0 {
        let last = (n - 1) as nat;
        lemma_runs_owned(plan, input, paragraph, runs, last);
        let before = crate::run_plan::runs_added(plan, input, paragraph, runs, last);
        let ready = before_run(plan, input, paragraph, runs, last);
        let run = runs[last as int];
        lemma_added_targets_are_owned(
            before,
            input,
            paragraph,
            run.boundary,
            crate::run_plan::place_before(runs, last as int),
            run.raw_order,
        );
        let look = crate::run_plan::run_look(ready, input, paragraph, run);
        let begun = ready.with_font(
            crate::style::run_font(
                look.properties,
                input.theme,
                crate::revision::run_text(run.run),
            ),
        ).with_style(
            crate::style::text_style(
                look.properties,
                input.theme,
                look.marks,
                look.font,
                look.hyperlink_url,
            ),
        );
        lemma_no_target_self(ready);
        lemma_no_target_contents(begun, input, look, run.run, run.run.content@.len());
        lemma_still_owned(
            ready,
            crate::run_plan::runs_added(plan, input, paragraph, runs, n),
            input,
            paragraph,
        );
    }
}

/// Every target in the plan of a paragraph is that of a bookmark that the paragraph
/// starts, that has a text, and whose page is asked for.
pub proof fn law_targets_come_from_bookmarks(
    input: LayoutInput,
    paragraph: Paragraph,
    num_id: Option<u32>,
)
    ensures
        targets_are_owned(
            crate::run_plan::paragraph_plan(input, paragraph, num_id),
            input,
            paragraph,
        ),
{
    let runs = crate::revision::projection(paragraph, input.revision_view);
    let marked = marked_plan(input, paragraph, num_id);
    lemma_runs_owned(marked, input, paragraph, runs, runs.len());
    lemma_added_targets_are_owned(
        crate::run_plan::runs_added(marked, input, paragraph, runs, runs.len()),
        input,
        paragraph,
        paragraph.runs@.len() as usize,
        crate::run_plan::last_place(paragraph, runs),
        RawOrder::AfterRaw,
    );
}

/// Whether no item from an index on is a list marker.
spec fn no_marker_from(plan: PlanView, n: int) -> bool {
    forall|i: int| n <= i < plan.items.len() ==> !((#[trigger] plan.items[i]) is Marker)
}

proof fn lemma_targets_are_no_markers(plan: PlanView, targets: Seq<usize>, n: int)
    requires
        0 <= n,
        no_marker_from(plan, n),
    ensures
        no_marker_from(crate::run_plan::targets_added(plan, targets), n),
{
    lemma_targets(plan, targets);
    let done = crate::run_plan::targets_added(plan, targets);
    assert forall|i: int| n <= i < done.items.len() implies !((#[trigger] done.items[i]) is Marker) by {
        if i < plan.items.len() {
            assert(done.items[i] == plan.items[i]);
        } else {
            let added = targets.map_values(
                |target: usize| crate::run_plan::target_item(plan.styles.len() as int, target),
            );
            assert(done.items[i] == added[i - plan.items.len()]);
        }
    }
}

proof fn lemma_runs_add_no_marker(
    plan: PlanView,
    input: LayoutInput,
    paragraph: Paragraph,
    runs: Seq<ProjectedRunView>,
    k: nat,
    n: int,
)
    requires
        0 <= n,
        no_marker_from(plan, n),
    ensures
        no_marker_from(crate::run_plan::runs_added(plan, input, paragraph, runs, k), n),
    decreases k,
{
    if k > 0 {
        let last = (k - 1) as nat;
        lemma_runs_add_no_marker(plan, input, paragraph, runs, last, n);
        let before = crate::run_plan::runs_added(plan, input, paragraph, runs, last);
        let ready = before_run(plan, input, paragraph, runs, last);
        let after = crate::run_plan::runs_added(plan, input, paragraph, runs, k);
        let run = runs[last as int];
        lemma_targets_are_no_markers(
            before,
            crate::run_plan::targets_before_run(input, paragraph, runs, last as int),
            n,
        );
        let look = crate::run_plan::run_look(ready, input, paragraph, run);
        let begun = ready.with_font(
            crate::style::run_font(
                look.properties,
                input.theme,
                crate::revision::run_text(run.run),
            ),
        ).with_style(
            crate::style::text_style(
                look.properties,
                input.theme,
                look.marks,
                look.font,
                look.hyperlink_url,
            ),
        );
        lemma_no_target_self(ready);
        lemma_no_target_contents(begun, input, look, run.run, run.run.content@.len());
        assert(no_new_target(ready, after));
        assert forall|i: int| n <= i < after.items.len() implies !((
        #[trigger] after.items[i]) is Marker) by {
            if i < ready.items.len() {
                assert(after.items.take(ready.items.len() as int)[i] == ready.items[i]);
            } else {
                assert(!is_special(after.items[i]));
            }
        }
    }
}

/// A paragraph has a list marker only if it belongs to a list, the document has
/// lists, and numbering gave it a marker; and then it has one, as its first item.
pub proof fn law_only_listed_paragraphs_have_markers(
    input: LayoutInput,
    paragraph: Paragraph,
    num_id: Option<u32>,
)
    ensures
        ({
            let items = crate::run_plan::paragraph_plan(input, paragraph, num_id).items;
            let count = crate::run_plan::marker_item_count(input, paragraph, num_id);
            let listed = num_id is Some && input.numbering is Some && paragraph.marker is Some;
            &&& !listed ==> count == 0
            &&& listed && paragraph.marker->Some_0.suffix is Nothing ==> count == 1
            &&& listed && !(paragraph.marker->Some_0.suffix is Nothing) ==> count == 2
            &&& forall|i: int|
                0 <= i < items.len() && (#[trigger] items[i]) is Marker ==> listed && i == 0
        }),
{
    let runs = crate::revision::projection(paragraph, input.revision_view);
    let marked = marked_plan(input, paragraph, num_id);
    let listed = num_id is Some && input.numbering is Some && paragraph.marker is Some;
    let n: int = if listed {
        1
    } else {
        0
    };
    assert(no_marker_from(marked, n));
    lemma_runs_add_no_marker(marked, input, paragraph, runs, runs.len(), n);
    lemma_targets_are_no_markers(
        crate::run_plan::runs_added(marked, input, paragraph, runs, runs.len()),
        crate::run_plan::targets_at_end(input, paragraph, runs),
        n,
    );
}

/// What is found out about a chart in the line is reported.
pub proof fn law_charts_in_the_line_are_reported(
    input: LayoutInput,
    paragraph: Paragraph,
    num_id: Option<u32>,
    k: int,
    c: int,
    drawing: Drawing,
    inline: InlineDrawing,
    rel_id: String,
)
    requires
        ({
            let runs = crate::revision::projection(paragraph, input.revision_view);
            &&& 0 <= k < runs.len()
            &&& 0 <= c < runs[k].run.content@.len()
            &&& runs[k].run.content@[c] == RunContent::Drawing(drawing)
            &&& crate::properties::effective_run(
                runs[k].run.style,
                runs[k].run.properties,
            ).vanish != Some(true)
        }),
        drawing.inline == Some(inline),
        inline.chart_rel_id == Some(rel_id),
        is_countable(crate::run_plan::paragraph_plan(input, paragraph, num_id)),
    ensures
        ({
            let reported = crate::run_plan::paragraph_plan(input, paragraph, num_id).diagnostics;
            exists|i: int|
                0 <= i < reported.len() && #[trigger] reported[i] == crate::drawing::chart_of(
                    input.charts@,
                    rel_id@,
                ).1
        }),
{
    let plan = crate::run_plan::paragraph_plan(input, paragraph, num_id);
    let (before, look) = lemma_piece_stage(input, paragraph, num_id, k, c);
    let after = crate::run_plan::drawing_added(before, input, drawing);
    let i = before.diagnostics.len() as int;
    assert(plan.diagnostics.take(after.diagnostics.len() as int)[i] == after.diagnostics[i]);
}

} // verus!
