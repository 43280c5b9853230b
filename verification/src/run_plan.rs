//! The items of a paragraph: its list marker, the targets of page references,
//! and the content of the runs that a revision view shows.

use vstd::prelude::*;

use crate::bookmark::{bookmark_text, page_ref_id};
use crate::color::Color;
use crate::document::{
    BookmarkMarker, BreakType, Drawing, Hyperlink, LayoutInput, LevelSuffix, LinkTarget,
    ListMarker, Paragraph, RevisionView, Run, RunContent, RunProperties,
};
use crate::drawing::render_word_chart;
use crate::field::{add_field, add_text, show, RunLook};
use crate::plan::{
    FieldKind, InlineItem, ItemView, NoteRef, NoteStream, ParagraphPlan, PlanView, TextItem,
    TextItemView,
};
use crate::properties::effective_run_properties;
use crate::revision::{project_paragraph_runs, ProjectedRun, ProjectedRunView, RawOrder};
use crate::style::{
    font_request, note_number_style, on, run_style, size_or, undecorated, ChangeMarks, FontRequest,
    FontRequestView, TextStyle,
};
use crate::text::{signed_decimal_string, str_eq};
use crate::units::{HalfPoint, TextUnit};

verus! {

/// The number of the page reference that a bookmark marker is a target of, if
/// the bookmark has a text and a page reference asks for it.
pub open spec fn target_of(input: LayoutInput, marker: BookmarkMarker) -> Option<usize> {
    match marker.name {
        Some(name) => if crate::bookmark::bookmark_text_of(input, name@) is Some {
            crate::bookmark::page_ref_of(input, name@)
        } else {
            None
        },
        None => None,
    }
}

/// Whether a bookmark starts at a run boundary, after one place there and not
/// after another.
pub open spec fn starts_between(
    marker: BookmarkMarker,
    boundary: usize,
    after: Option<RawOrder>,
    through: RawOrder,
) -> bool {
    let place = RawOrder::Raw(marker.raw_before);
    &&& marker.is_start
    &&& marker.run_index == boundary
    &&& match after {
        Some(after) => after.precedes(place),
        None => true,
    }
    &&& !through.precedes(place)
}

/// The targets among the first `n` markers of a paragraph that stand at a run
/// boundary, after one place there and not after another.
pub open spec fn targets_between(
    input: LayoutInput,
    markers: Seq<BookmarkMarker>,
    boundary: usize,
    after: Option<RawOrder>,
    through: RawOrder,
    n: nat,
) -> Seq<usize>
    decreases n,
{
    if n == 0 {
        Seq::empty()
    } else {
        let before = targets_between(input, markers, boundary, after, through, (n - 1) as nat);
        if starts_between(markers[n - 1], boundary, after, through) {
            match target_of(input, markers[n - 1]) {
                Some(target) => before.push(target),
                None => before,
            }
        } else {
            before
        }
    }
}

/// The font that targets are set in.
pub open spec fn target_font() -> FontRequestView {
    FontRequestView { family: None, bold: false, italic: false, sample: " "@ }
}

/// The style of targets: one point, and black.
pub open spec fn target_style(font: usize) -> TextStyle {
    crate::style::plain_style(font, TextUnit(20000), crate::color::black())
}

/// A target: a word joiner, which shows nothing and stands for a bookmark.
pub open spec fn target_item(style: int, target: usize) -> ItemView {
    ItemView::Whole(
        TextItemView {
            style,
            text: "\u{2060}"@,
            field: Some(FieldKind::Target(target)),
            note: None,
        },
    )
}

/// The plan with targets.
pub open spec fn targets_added(plan: PlanView, targets: Seq<usize>) -> PlanView {
    if targets.len() == 0 {
        plan
    } else {
        plan.with_font(target_font()).with_style(
            target_style(plan.fonts.len() as usize),
        ).with_items(
            targets.map_values(|target: usize| target_item(plan.styles.len() as int, target)),
        )
    }
}

/// The targets of a paragraph at a run boundary, after one place there and not
/// after another.
fn collect_targets(
    input: &LayoutInput,
    markers: &Vec<BookmarkMarker>,
    boundary: usize,
    after: Option<RawOrder>,
    through: RawOrder,
) -> (targets: Vec<usize>)
    ensures
        targets@ == targets_between(*input, markers@, boundary, after, through, markers@.len()),
{
    let mut targets: Vec<usize> = Vec::new();
    let mut i: usize = 0;
    while i < markers.len()
        invariant
            i <= markers@.len(),
            targets@ == targets_between(*input, markers@, boundary, after, through, i as nat),
        decreases markers@.len() - i,
    {
        let marker = &markers[i];
        let place = RawOrder::Raw(marker.raw_before);
        let later = match after {
            Some(after) => after.comes_before(place),
            None => true,
        };
        if marker.is_start && marker.run_index == boundary && later && !through.comes_before(
            place,
        ) {
            if let Some(name) = &marker.name {
                if let Some(target) = page_ref_id(input, name.as_str()) {
                    if bookmark_text(input, name.as_str()).is_some() {
                        targets.push(target);
                    }
                }
            }
        }
        i += 1;
    }
    targets
}

/// Adds the targets of a paragraph at a run boundary, after one place there and
/// not after another.
pub fn push_targeted_bookmark_markers(
    plan: &mut ParagraphPlan,
    paragraph: &Paragraph,
    boundary: usize,
    after: Option<RawOrder>,
    through: RawOrder,
    input: &LayoutInput,
)
    ensures
        final(plan)@ == targets_added(
            old(plan)@,
            targets_between(
                *input,
                paragraph.bookmark_markers@,
                boundary,
                after,
                through,
                paragraph.bookmark_markers@.len(),
            ),
        ),
{
    let targets = collect_targets(input, &paragraph.bookmark_markers, boundary, after, through);
    if targets.len() == 0 {
        return;
    }
    let font = plan.add_font(
        FontRequest { family: None, bold: false, italic: false, sample: " ".to_owned() },
    );
    let style = plan.add_style(
        undecorated(font, TextUnit(20000), Color::Rgb { red: 0, green: 0, blue: 0 }),
    );
    let ghost base = plan@;
    let ghost all = targets@.map_values(|target: usize| target_item(style as int, target));
    let mut i: usize = 0;
    proof {
        assert(base.items + all.take(0) =~= base.items);
    }
    while i < targets.len()
        invariant
            i <= targets@.len(),
            all == targets@.map_values(|target: usize| target_item(style as int, target)),
            plan@ == base.with_items(all.take(i as int)),
        decreases targets@.len() - i,
    {
        push_bookmark_marker(plan, targets[i], style);
        proof {
            assert(all[i as int] == target_item(style as int, targets@[i as int]));
            assert(base.items + all.take(i + 1) =~= (base.items + all.take(i as int)).push(
                all[i as int],
            ));
        }
        i += 1;
    }
    proof {
        assert(all.take(i as int) =~= all);
        assert(all =~= targets@.map_values(
            |target: usize| target_item(old(plan)@.styles.len() as int, target),
        ));
    }
}

/// Adds one target.
fn push_bookmark_marker(plan: &mut ParagraphPlan, target: usize, style: usize)
    ensures
        final(plan)@ == old(plan)@.with_item(target_item(style as int, target)),
{
    plan.add_item(
        InlineItem::Whole(
            TextItem {
                style,
                text: "\u{2060}".to_owned(),
                field: Some(FieldKind::Target(target)),
                note: None,
            },
        ),
    );
}

/// The size of a list marker: its own, or else that of the paragraph's text.
pub open spec fn marker_size(marker: ListMarker, text_style: RunProperties) -> HalfPoint {
    match marker.properties.sz {
        Some(size) => size,
        None => crate::style::size_or_default(text_style.sz),
    }
}

/// The color of a list marker.
pub open spec fn marker_color(marker: ListMarker) -> Color {
    match marker.properties.color {
        Some(color) => Color::Hex(color),
        None => crate::color::black(),
    }
}

/// The plan with a list marker and what follows it.
pub open spec fn marker_added(
    plan: PlanView,
    marker: ListMarker,
    text_style: RunProperties,
) -> PlanView {
    let style = plan.styles.len() as int;
    let marked = plan.with_font(
        FontRequestView {
            family: marker.properties.font_ascii,
            bold: crate::style::is_on(marker.properties.bold),
            italic: crate::style::is_on(marker.properties.italic),
            sample: marker.text@,
        },
    ).with_style(
        crate::style::plain_style(
            plan.fonts.len() as usize,
            marker_size(marker, text_style).spec_text_units(),
            marker_color(marker),
        ),
    ).with_item(
        ItemView::Marker(TextItemView { style, text: marker.text@, field: None, note: None }),
    );
    match marker.suffix {
        LevelSuffix::Tab => marked.with_item(ItemView::Tab),
        LevelSuffix::Space => marked.with_item(
            ItemView::Whole(TextItemView { style, text: " "@, field: None, note: None }),
        ),
        LevelSuffix::Nothing => marked,
    }
}

/// Adds a list marker and what follows it.
pub fn add_marker(plan: &mut ParagraphPlan, marker: &ListMarker, text_style: &RunProperties)
    ensures
        final(plan)@ == marker_added(old(plan)@, *marker, *text_style),
{
    let font = plan.add_font(
        FontRequest {
            family: marker.properties.font_ascii.clone(),
            bold: on(marker.properties.bold),
            italic: on(marker.properties.italic),
            sample: marker.text.clone(),
        },
    );
    let size = match marker.properties.sz {
        Some(size) => size,
        None => size_or(text_style.sz),
    };
    let color = match &marker.properties.color {
        Some(hex) => Color::from_hex(hex),
        None => Color::Rgb { red: 0, green: 0, blue: 0 },
    };
    let style = plan.add_style(undecorated(font, size.text_units(), color));
    plan.add_item(
        InlineItem::Marker(TextItem { style, text: marker.text.clone(), field: None, note: None }),
    );
    match marker.suffix {
        LevelSuffix::Tab => plan.add_item(InlineItem::Tab),
        LevelSuffix::Space => plan.add_item(
            InlineItem::Whole(
                TextItem { style, text: " ".to_owned(), field: None, note: None },
            ),
        ),
        LevelSuffix::Nothing => {},
    }
}

/// The condition that a link target has a relationship.
pub open spec fn link_has_rel(rel_id: Seq<char>) -> spec_fn(LinkTarget) -> bool {
    |link: LinkTarget| link.rel_id@ == rel_id
}

/// The address that a hyperlink leads to.
pub open spec fn link_url(links: Seq<LinkTarget>, hyperlink: Hyperlink) -> Option<String> {
    match hyperlink.rel_id {
        Some(rel_id) => match crate::text::first_where(links, link_has_rel(rel_id@)) {
            Some(i) => Some(links[i].url),
            None => None,
        },
        None => None,
    }
}

/// The address of the last of the first `n` hyperlinks that covers a run and
/// leads somewhere.
pub open spec fn covering_url(
    links: Seq<LinkTarget>,
    hyperlinks: Seq<Hyperlink>,
    run_index: usize,
    n: nat,
) -> Option<String>
    decreases n,
{
    if n == 0 {
        None
    } else if hyperlinks[n - 1].run_start <= run_index < hyperlinks[n - 1].run_end && link_url(
        links,
        hyperlinks[n - 1],
    ) is Some {
        link_url(links, hyperlinks[n - 1])
    } else {
        covering_url(links, hyperlinks, run_index, (n - 1) as nat)
    }
}

/// The address that a run leads to: that of the hyperlink over it, or else that
/// of the hyperlink that holds its change.
pub open spec fn run_url(
    links: Seq<LinkTarget>,
    hyperlinks: Seq<Hyperlink>,
    run: ProjectedRunView,
) -> Option<String> {
    let ordinary = match run.ordinary_run_index {
        Some(run_index) => covering_url(links, hyperlinks, run_index, hyperlinks.len()),
        None => None,
    };
    if ordinary is Some {
        ordinary
    } else {
        match run.hyperlink_index {
            Some(index) => if index < hyperlinks.len() {
                link_url(links, hyperlinks[index as int])
            } else {
                None
            },
            None => None,
        }
    }
}

/// The address that a hyperlink leads to.
fn resolve_link(links: &Vec<LinkTarget>, hyperlink: &Hyperlink) -> (url: Option<String>)
    ensures
        url == link_url(links@, *hyperlink),
{
    if let Some(rel_id) = &hyperlink.rel_id {
        let mut i: usize = 0;
        while i < links.len()
            invariant
                i <= links@.len(),
                hyperlink.rel_id == Some(*rel_id),
                crate::text::first_where(links@, link_has_rel(rel_id@)) == crate::text::first_from(
                    links@,
                    link_has_rel(rel_id@),
                    i as int,
                ),
            decreases links@.len() - i,
        {
            let link = &links[i];
            if str_eq(link.rel_id.as_str(), rel_id.as_str()) {
                proof {
                    assert(link_has_rel(rel_id@)(links@[i as int]));
                }
                return Some(link.url.clone());
            }
            i += 1;
        }
    }
    None
}

/// The address of the last hyperlink that covers a run and leads somewhere.
fn find_covering_url(
    links: &Vec<LinkTarget>,
    hyperlinks: &Vec<Hyperlink>,
    run_index: usize,
) -> (url: Option<String>)
    ensures
        url == covering_url(links@, hyperlinks@, run_index, hyperlinks@.len()),
{
    let mut n: usize = hyperlinks.len();
    while n > 0
        invariant
            n <= hyperlinks@.len(),
            covering_url(links@, hyperlinks@, run_index, hyperlinks@.len()) == covering_url(
                links@,
                hyperlinks@,
                run_index,
                n as nat,
            ),
        decreases n,
    {
        let hyperlink = &hyperlinks[n - 1];
        if hyperlink.run_start <= run_index && run_index < hyperlink.run_end {
            let url = resolve_link(links, hyperlink);
            if url.is_some() {
                return url;
            }
        }
        n -= 1;
    }
    None
}

/// The address that a run leads to.
fn find_url(
    links: &Vec<LinkTarget>,
    hyperlinks: &Vec<Hyperlink>,
    run: &ProjectedRun<'_>,
) -> (url: Option<String>)
    ensures
        url == run_url(links@, hyperlinks@, run@),
{
    if let Some(run_index) = run.ordinary_run_index {
        let url = find_covering_url(links, hyperlinks, run_index);
        if url.is_some() {
            return url;
        }
    }
    match run.hyperlink_index {
        Some(index) => if index < hyperlinks.len() {
            resolve_link(links, &hyperlinks[index])
        } else {
            None
        },
        None => None,
    }
}

/// The plan with a drawing that stands in the line: its chart, or else its
/// picture. A floating drawing adds nothing.
pub open spec fn drawing_added(plan: PlanView, input: LayoutInput, drawing: Drawing) -> PlanView {
    match drawing.inline {
        Some(inline) => match inline.chart_rel_id {
            Some(rel_id) => {
                let (source, diagnostic) = crate::drawing::chart_of(input.charts@, rel_id@);
                plan.with_diagnostic(diagnostic).with_item(
                    ItemView::Chart { width: inline.extent_cx, height: inline.extent_cy, source },
                )
            },
            None => plan.with_item(
                ItemView::Image {
                    width: inline.extent_cx,
                    height: inline.extent_cy,
                    embed_id: inline.embed_id,
                },
            ),
        },
        None => plan,
    }
}

fn add_drawing(plan: &mut ParagraphPlan, input: &LayoutInput, drawing: &Drawing)
    ensures
        final(plan)@ == drawing_added(old(plan)@, *input, *drawing),
{
    if let Some(inline) = &drawing.inline {
        let width = inline.extent_cx;
        let height = inline.extent_cy;
        match &inline.chart_rel_id {
            Some(rel_id) => {
                let source = render_word_chart(rel_id, input, &mut plan.diagnostics);
                plan.add_item(InlineItem::Chart { width, height, source });
            },
            None => plan.add_item(
                InlineItem::Image { width, height, embed_id: inline.embed_id.clone() },
            ),
        }
    }
}

/// The plan with the number of a note.
pub open spec fn note_added(
    plan: PlanView,
    input: LayoutInput,
    look: RunLook,
    note: NoteRef,
) -> PlanView {
    plan.with_style(
        crate::style::note_style(
            look.properties,
            input.theme,
            look.marks,
            look.changed,
            look.font,
        ),
    ).with_item(
        ItemView::Whole(
            TextItemView {
                style: plan.styles.len() as int,
                text: crate::text::signed_decimal(note.id as int),
                field: None,
                note: Some(note),
            },
        ),
    )
}

fn add_note(plan: &mut ParagraphPlan, input: &LayoutInput, look: &RunLook, note: NoteRef)
    ensures
        final(plan)@ == note_added(old(plan)@, *input, *look, note),
{
    let style = plan.add_style(
        note_number_style(&look.properties, &input.theme, look.marks, look.changed, look.font),
    );
    plan.add_item(
        InlineItem::Whole(
            TextItem {
                style,
                text: signed_decimal_string(note.id),
                field: None,
                note: Some(note),
            },
        ),
    );
}

/// The plan with a piece of a run.
pub open spec fn content_added(
    plan: PlanView,
    input: LayoutInput,
    look: RunLook,
    content: RunContent,
) -> PlanView {
    let caps = crate::style::is_on(look.properties.caps);
    match content {
        RunContent::Text(text) => crate::field::text_added(
            plan,
            look.style as int,
            crate::field::shown(text@, caps),
            None,
        ),
        RunContent::DeletedText(text) => crate::field::text_added(
            plan,
            look.style as int,
            crate::field::shown(text@, caps),
            None,
        ),
        RunContent::Tab => plan.with_item(ItemView::Tab),
        RunContent::Break(BreakType::Line) => plan.with_item(ItemView::LineBreak),
        RunContent::Break(BreakType::Page) => plan.with_item(ItemView::PageBreak),
        RunContent::Break(BreakType::Column) => plan.with_item(ItemView::ColumnBreak),
        RunContent::Drawing(drawing) => drawing_added(plan, input, drawing),
        RunContent::Field(field) => crate::field::field_added(plan, input, look, field),
        RunContent::FootnoteRef { id } => note_added(
            plan,
            input,
            look,
            NoteRef { stream: NoteStream::Footnote, id },
        ),
        RunContent::EndnoteRef { id } => note_added(
            plan,
            input,
            look,
            NoteRef { stream: NoteStream::Endnote, id },
        ),
        RunContent::CommentReference { .. } => plan,
    }
}

/// The plan with the first `n` pieces of a run.
pub open spec fn contents_added(
    plan: PlanView,
    input: LayoutInput,
    look: RunLook,
    run: Run,
    n: nat,
) -> PlanView
    decreases n,
{
    if n == 0 {
        plan
    } else {
        content_added(
            contents_added(plan, input, look, run, (n - 1) as nat),
            input,
            look,
            run.content@[n - 1],
        )
    }
}

fn add_content(plan: &mut ParagraphPlan, input: &LayoutInput, look: &RunLook, content: &RunContent)
    ensures
        final(plan)@ == content_added(old(plan)@, *input, *look, *content),
{
    match content {
        RunContent::Text(text) | RunContent::DeletedText(text) => {
            let text = show(text.as_str(), on(look.properties.caps));
            add_text(plan, look.style, text, None);
        },
        RunContent::Tab => plan.add_item(InlineItem::Tab),
        RunContent::Break(BreakType::Line) => plan.add_item(InlineItem::LineBreak),
        RunContent::Break(BreakType::Page) => plan.add_item(InlineItem::PageBreak),
        RunContent::Break(BreakType::Column) => plan.add_item(InlineItem::ColumnBreak),
        RunContent::Drawing(drawing) => add_drawing(plan, input, drawing),
        RunContent::Field(field) => add_field(plan, input, look, field),
        RunContent::FootnoteRef { id } => add_note(
            plan,
            input,
            look,
            NoteRef { stream: NoteStream::Footnote, id: *id },
        ),
        RunContent::EndnoteRef { id } => add_note(
            plan,
            input,
            look,
            NoteRef { stream: NoteStream::Endnote, id: *id },
        ),
        RunContent::CommentReference { .. } => {},
    }
}

/// The properties of a run that a view shows.
pub open spec fn shown_properties(run: Run) -> RunProperties {
    crate::properties::effective_run(run.style, run.properties)
}

/// What the pieces of a run share.
pub open spec fn run_look(
    plan: PlanView,
    input: LayoutInput,
    paragraph: Paragraph,
    run: ProjectedRunView,
) -> RunLook {
    RunLook {
        properties: shown_properties(run.run),
        marks: ChangeMarks { underline: run.force_underline, strike: run.force_strike },
        hyperlink_url: run_url(input.hyperlink_urls@, paragraph.hyperlinks@, run),
        changed: input.revision_view == RevisionView::Markup && run.ordinary_run_index is None,
        font: plan.fonts.len() as usize,
        style: plan.styles.len() as usize,
    }
}

/// The plan with a run, unless the run is hidden. The run asks for one font that
/// can show all of its text.
pub open spec fn run_added(
    plan: PlanView,
    input: LayoutInput,
    paragraph: Paragraph,
    run: ProjectedRunView,
) -> PlanView {
    let look = run_look(plan, input, paragraph, run);
    if crate::style::is_on(look.properties.vanish) {
        plan
    } else {
        contents_added(
            plan.with_font(
                crate::style::run_font(
                    look.properties,
                    input.theme,
                    crate::revision::run_text(run.run),
                ),
            ).with_style(
                crate::style::text_style(
                    look.properties,
                    input.theme,
                    look.marks,
                    look.font,
                    look.hyperlink_url,
                ),
            ),
            input,
            look,
            run.run,
            run.run.content@.len(),
        )
    }
}

/// The place at its own boundary that the run before run `k` stands at.
pub open spec fn place_before(runs: Seq<ProjectedRunView>, k: int) -> Option<RawOrder> {
    if k > 0 && runs[k - 1].boundary == runs[k].boundary {
        Some(runs[k - 1].raw_order)
    } else {
        None
    }
}

/// The targets that stand before run `k`, and after the run before it.
pub open spec fn targets_before_run(
    input: LayoutInput,
    paragraph: Paragraph,
    runs: Seq<ProjectedRunView>,
    k: int,
) -> Seq<usize> {
    targets_between(
        input,
        paragraph.bookmark_markers@,
        runs[k].boundary,
        place_before(runs, k),
        runs[k].raw_order,
        paragraph.bookmark_markers@.len(),
    )
}

/// The place that the last run stands at, if it stands past the ordinary runs.
pub open spec fn last_place(paragraph: Paragraph, runs: Seq<ProjectedRunView>) -> Option<RawOrder> {
    if runs.len() > 0 && runs.last().boundary == paragraph.runs@.len() {
        Some(runs.last().raw_order)
    } else {
        None
    }
}

/// The targets that stand after the last run.
pub open spec fn targets_at_end(
    input: LayoutInput,
    paragraph: Paragraph,
    runs: Seq<ProjectedRunView>,
) -> Seq<usize> {
    targets_between(
        input,
        paragraph.bookmark_markers@,
        paragraph.runs@.len() as usize,
        last_place(paragraph, runs),
        RawOrder::AfterRaw,
        paragraph.bookmark_markers@.len(),
    )
}

/// The plan with the first `n` of some runs, each after its targets.
pub open spec fn runs_added(
    plan: PlanView,
    input: LayoutInput,
    paragraph: Paragraph,
    runs: Seq<ProjectedRunView>,
    n: nat,
) -> PlanView
    decreases n,
{
    if n == 0 {
        plan
    } else {
        run_added(
            targets_added(
                runs_added(plan, input, paragraph, runs, (n - 1) as nat),
                targets_before_run(input, paragraph, runs, n - 1),
            ),
            input,
            paragraph,
            runs[n - 1],
        )
    }
}

/// The plan of a paragraph whose effective list number is `num_id`: the list
/// marker, the runs that the view shows, and the targets among and after them.
pub open spec fn paragraph_plan(
    input: LayoutInput,
    paragraph: Paragraph,
    num_id: Option<u32>,
) -> PlanView {
    let marked = match (num_id, input.numbering, paragraph.marker) {
        (Some(_), Some(_), Some(marker)) => marker_added(
            PlanView::empty(),
            marker,
            paragraph.text_style,
        ),
        _ => PlanView::empty(),
    };
    let runs = crate::revision::projection(paragraph, input.revision_view);
    targets_added(
        runs_added(marked, input, paragraph, runs, runs.len()),
        targets_at_end(input, paragraph, runs),
    )
}

/// Adds a run, unless it is hidden.
fn add_run(
    plan: &mut ParagraphPlan,
    input: &LayoutInput,
    paragraph: &Paragraph,
    projected: &ProjectedRun<'_>,
)
    ensures
        final(plan)@ == run_added(old(plan)@, *input, *paragraph, projected@),
{
    let run = projected.run;
    let properties = effective_run_properties(&run.style, &run.properties);
    if on(properties.vanish) {
        return;
    }
    let marks = ChangeMarks {
        underline: projected.force_underline,
        strike: projected.force_strike,
    };
    let changed = match input.revision_view {
        RevisionView::Markup => projected.ordinary_run_index.is_none(),
        RevisionView::Accepted => false,
    };
    let font = plan.add_font(font_request(&properties, &input.theme, run.text()));
    let hyperlink_url = find_url(&input.hyperlink_urls, &paragraph.hyperlinks, projected);
    let style = plan.add_style(
        run_style(&properties, &input.theme, marks, font, hyperlink_url.clone()),
    );
    let look = RunLook { properties, marks, hyperlink_url, changed, font, style };
    let ghost base = plan@;
    let mut i: usize = 0;
    while i < run.content.len()
        invariant
            i <= run.content@.len(),
            plan@ == contents_added(base, *input, look, *run, i as nat),
        decreases run.content@.len() - i,
    {
        add_content(plan, input, &look, &run.content[i]);
        i += 1;
    }
    proof {
        assert(look == run_look(old(plan)@, *input, *paragraph, projected@));
    }
}

/// How many items the list marker of a paragraph and what follows it take.
pub open spec fn marker_item_count(
    input: LayoutInput,
    paragraph: Paragraph,
    num_id: Option<u32>,
) -> usize {
    match (num_id, input.numbering, paragraph.marker) {
        (Some(_), Some(_), Some(marker)) => match marker.suffix {
            LevelSuffix::Nothing => 1,
            _ => 2,
        },
        _ => 0,
    }
}

/// How many items the list marker of a paragraph and what follows it take.
pub fn count_marker_items(
    input: &LayoutInput,
    paragraph: &Paragraph,
    num_id: Option<u32>,
) -> (count: usize)
    ensures
        count == marker_item_count(*input, *paragraph, num_id),
{
    if num_id.is_some() && input.numbering.is_some() {
        match &paragraph.marker {
            Some(marker) => match marker.suffix {
                LevelSuffix::Nothing => 1,
                _ => 2,
            },
            None => 0,
        }
    } else {
        0
    }
}

/// The plan of a paragraph whose effective list number is `num_id`.
pub fn plan_paragraph(
    input: &LayoutInput,
    paragraph: &Paragraph,
    num_id: Option<u32>,
) -> (plan: ParagraphPlan)
    ensures
        plan@ == paragraph_plan(*input, *paragraph, num_id),
{
    let mut plan = ParagraphPlan::new();
    if num_id.is_some() && input.numbering.is_some() {
        if let Some(marker) = &paragraph.marker {
            add_marker(&mut plan, marker, &paragraph.text_style);
        }
    }
    let projected = project_paragraph_runs(paragraph, input.revision_view);
    let ghost runs = crate::revision::projection(*paragraph, input.revision_view);
    let ghost marked = plan@;
    let mut i: usize = 0;
    while i < projected.len()
        invariant
            i <= projected@.len(),
            crate::revision::projected_views(projected@) == runs,
            plan@ == runs_added(marked, *input, *paragraph, runs, i as nat),
        decreases projected@.len() - i,
    {
        proof {
            assert(runs[i as int] == projected@[i as int]@);
        }
        let run = projected[i];
        let after = if i > 0 && projected[i - 1].boundary == run.boundary {
            proof {
                assert(runs[i - 1] == projected@[i - 1]@);
            }
            Some(projected[i - 1].raw_order)
        } else {
            proof {
                if i > 0 {
                    assert(runs[i - 1] == projected@[i - 1]@);
                }
            }
            None
        };
        push_targeted_bookmark_markers(
            &mut plan,
            paragraph,
            run.boundary,
            after,
            run.raw_order,
            input,
        );
        add_run(&mut plan, input, paragraph, &run);
        i += 1;
    }
    let count = projected.len();
    let after = if count > 0 && projected[count - 1].boundary == paragraph.runs.len() {
        Some(projected[count - 1].raw_order)
    } else {
        None
    };
    proof {
        if count > 0 {
            assert(runs[count - 1] == projected@[count - 1]@);
        }
    }
    push_targeted_bookmark_markers(
        &mut plan,
        paragraph,
        paragraph.runs.len(),
        after,
        RawOrder::AfterRaw,
        input,
    );
    plan
}

} // verus!
