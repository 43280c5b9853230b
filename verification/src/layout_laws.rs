//! What holds of the layout of a paragraph, of links and of drawings, in terms of the
//! document.

use vstd::prelude::*;

use crate::document::{
    Anchor, BodyContent, CellContent, Drawing, Hyperlink, LayoutInput, LinkTarget, Paragraph,
    RevisionView, Run, RunContent,
};
use crate::paragraph::{AnchoredContentView, AnchoredView};
use crate::revision::ProjectedRunView;
use crate::units::Emu;

verus! {

/// The layout of a paragraph is its plan: all items, styles and fonts of it, and
/// what is reported of them comes first.
pub proof fn law_a_layout_holds_its_plan(input: LayoutInput, paragraph: Paragraph, width: Emu)
    ensures
        ({
            let number = crate::paragraph::effective_format(input, paragraph).num_id;
            let plan = crate::run_plan::paragraph_plan(input, paragraph, number);
            let (block, reported) = crate::paragraph::laid_out(input, paragraph, width);
            &&& block.items == plan.items
            &&& block.styles == plan.styles
            &&& block.fonts == plan.fonts
            &&& plan.diagnostics.len() <= reported.len()
            &&& reported.take(plan.diagnostics.len() as int) == plan.diagnostics
        }),
{
    let number = crate::paragraph::effective_format(input, paragraph).num_id;
    let plan = crate::run_plan::paragraph_plan(input, paragraph, number);
    let (block, reported) = crate::paragraph::laid_out(input, paragraph, width);
    assert(reported.take(plan.diagnostics.len() as int) =~= plan.diagnostics);
}

/// Whether a hyperlink leads to the address at an index, the first with its
/// relationship.
pub open spec fn links_to(hyperlink: Hyperlink, links: Seq<LinkTarget>, j: int) -> bool {
    &&& hyperlink.rel_id is Some
    &&& 0 <= j < links.len()
    &&& links[j].rel_id@ == hyperlink.rel_id->Some_0@
    &&& forall|m: int| 0 <= m < j ==> (#[trigger] links[m]).rel_id@ != hyperlink.rel_id->Some_0@
}

/// Whether a hyperlink leads anywhere.
pub open spec fn leads_somewhere(hyperlink: Hyperlink, links: Seq<LinkTarget>) -> bool {
    exists|j: int| links_to(hyperlink, links, j)
}

/// Whether a hyperlink stands over a run.
pub open spec fn covers(hyperlink: Hyperlink, run_index: usize) -> bool {
    hyperlink.run_start <= run_index && run_index < hyperlink.run_end
}

proof fn lemma_link_url(hyperlink: Hyperlink, links: Seq<LinkTarget>)
    ensures
        match crate::run_plan::link_url(links, hyperlink) {
            Some(url) => exists|j: int| #[trigger]
                links_to(hyperlink, links, j) && url == links[j].url,
            None => !leads_somewhere(hyperlink, links),
        },
        forall|j: int| #[trigger]
            links_to(hyperlink, links, j) ==> crate::run_plan::link_url(links, hyperlink) == Some(
                links[j].url,
            ),
{
    if let Some(rel_id) = hyperlink.rel_id {
        let holds = crate::run_plan::link_has_rel(rel_id@);
        crate::text::lemma_first_from(links, holds, 0);
        match crate::text::first_where(links, holds) {
            Some(j) => {
                assert(holds(links[j]));
                assert forall|m: int| 0 <= m < j implies (#[trigger] links[m]).rel_id@
                    != rel_id@ by {
                    assert(!holds(links[m]));
                }
                assert(links_to(hyperlink, links, j));
                assert forall|k: int| #[trigger] links_to(hyperlink, links, k) implies k == j by {
                    if k < j {
                        assert(!holds(links[k]));
                    } else if j < k {
                        assert(links[j].rel_id@ != rel_id@);
                    }
                }
            },
            None => {
                assert forall|k: int| !links_to(hyperlink, links, k) by {
                    if 0 <= k < links.len() {
                        assert(!holds(links[k]));
                    }
                }
            },
        }
    }
}

proof fn lemma_covering_url(
    links: Seq<LinkTarget>,
    hyperlinks: Seq<Hyperlink>,
    run_index: usize,
    n: nat,
)
    requires
        n <= hyperlinks.len(),
    ensures
        forall|h: int, j: int|
            0 <= h < n && covers(#[trigger] hyperlinks[h], run_index) && #[trigger] links_to(
                hyperlinks[h],
                links,
                j,
            ) && (forall|g: int|
                h < g < n ==> !(covers(#[trigger] hyperlinks[g], run_index) && leads_somewhere(
                    hyperlinks[g],
                    links,
                ))) ==> crate::run_plan::covering_url(links, hyperlinks, run_index, n) == Some(
                links[j].url,
            ),
        (forall|g: int|
            0 <= g < n ==> !(covers(#[trigger] hyperlinks[g], run_index) && leads_somewhere(
                hyperlinks[g],
                links,
            ))) ==> crate::run_plan::covering_url(links, hyperlinks, run_index, n) is None,
    decreases n,
{
    if n > 0 {
        lemma_covering_url(links, hyperlinks, run_index, (n - 1) as nat);
        lemma_link_url(hyperlinks[n - 1], links);
        if crate::run_plan::link_url(links, hyperlinks[n - 1]) is Some {
            assert(leads_somewhere(hyperlinks[n - 1], links));
        }
    }
}

/// A run leads where the last hyperlink over it that leads anywhere does.
pub proof fn law_a_run_leads_where_its_link_does(
    links: Seq<LinkTarget>,
    hyperlinks: Seq<Hyperlink>,
    run: ProjectedRunView,
    run_index: usize,
    h: int,
    j: int,
)
    requires
        run.ordinary_run_index == Some(run_index),
        0 <= h < hyperlinks.len(),
        covers(hyperlinks[h], run_index),
        links_to(hyperlinks[h], links, j),
        forall|g: int|
            h < g < hyperlinks.len() ==> !(covers(#[trigger] hyperlinks[g], run_index)
                && leads_somewhere(hyperlinks[g], links)),
    ensures
        crate::run_plan::run_url(links, hyperlinks, run) == Some(links[j].url),
{
    lemma_covering_url(links, hyperlinks, run_index, hyperlinks.len());
}

/// A run that no hyperlink stands over, and whose change is in none, leads nowhere;
/// one whose change is in a hyperlink leads where that one does.
pub proof fn law_runs_without_a_link_lead_nowhere(
    links: Seq<LinkTarget>,
    hyperlinks: Seq<Hyperlink>,
    run: ProjectedRunView,
)
    requires
        match run.ordinary_run_index {
            Some(run_index) => forall|g: int|
                0 <= g < hyperlinks.len() ==> !covers(#[trigger] hyperlinks[g], run_index),
            None => true,
        },
    ensures
        run.hyperlink_index is None ==> crate::run_plan::run_url(links, hyperlinks, run) is None,
        forall|h: usize, j: int|
            run.hyperlink_index == Some(h) && h < hyperlinks.len() && #[trigger] links_to(
                hyperlinks[h as int],
                links,
                j,
            ) ==> crate::run_plan::run_url(links, hyperlinks, run) == Some(links[j].url),
{
    if let Some(run_index) = run.ordinary_run_index {
        lemma_covering_url(links, hyperlinks, run_index, hyperlinks.len());
    }
    if let Some(h) = run.hyperlink_index {
        if h < hyperlinks.len() {
            lemma_link_url(hyperlinks[h as int], links);
        }
    }
}

/// Whether a drawing floats and shows something.
pub open spec fn floats(drawing: Drawing) -> bool {
    match drawing.anchor {
        Some(anchor) => anchor.chart_rel_id is Some || anchor.embed_id@.len() > 0
            || anchor.shape is Some,
        None => false,
    }
}

/// Whether a floating drawing is laid out as its anchor asks: in its frame, a chart
/// before a picture before a shape, and the text of a shape in the width of the
/// shape, paragraph by paragraph.
pub open spec fn is_laid_out_as(
    input: LayoutInput,
    anchor: Anchor,
    shown: AnchoredView,
) -> bool {
    &&& shown.frame == anchor.frame
    &&& anchor.chart_rel_id is Some ==> shown.content == AnchoredContentView::Chart(
        crate::drawing::chart_of(input.charts@, anchor.chart_rel_id->Some_0@).0,
    )
    &&& anchor.chart_rel_id is None && anchor.embed_id@.len() > 0 ==> shown.content
        == AnchoredContentView::Image { embed_id: anchor.embed_id }
    &&& anchor.chart_rel_id is None && anchor.embed_id@.len() == 0 && anchor.shape is Some ==> {
        let shape = anchor.shape->Some_0;
        &&& shown.content is Shape
        &&& shown.content->preset == shape.preset
        &&& (shown.content->fill is None) == (shape.solid_fill is None)
        &&& shape.solid_fill is Some ==> shown.content->fill == Some(
            crate::color::Color::Hex(shape.solid_fill->Some_0),
        )
        &&& shown.content->text.len() == shape.text@.len()
        &&& forall|i: int|
            0 <= i < shape.text@.len() ==> shown.content->text[i] == crate::paragraph::laid_out(
                input,
                #[trigger] shape.text@[i],
                anchor.frame.extent_cx,
            ).0
    }
}

proof fn lemma_shape_text(
    input: LayoutInput,
    shape: crate::document::Shape,
    width: Emu,
    n: nat,
)
    requires
        n <= shape.text@.len(),
    ensures
        crate::paragraph::shape_text(input, shape, width, n).0.len() == n,
        forall|i: int|
            0 <= i < n ==> crate::paragraph::shape_text(input, shape, width, n).0[i]
                == crate::paragraph::laid_out(input, #[trigger] shape.text@[i], width).0,
    decreases n,
{
    if n > 0 {
        lemma_shape_text(input, shape, width, (n - 1) as nat);
    }
}

/// A drawing that floats and shows something is laid out once, as its anchor asks;
/// any other drawing is not. What is found out about its chart is reported.
pub proof fn law_floating_drawings_are_laid_out_as_asked(input: LayoutInput, drawing: Drawing)
    ensures
        ({
            let shown = crate::paragraph::drawing_anchored(input, drawing).drawings;
            &&& floats(drawing) ==> shown.len() == 1 && is_laid_out_as(
                input,
                drawing.anchor->Some_0,
                shown[0],
            )
            &&& !floats(drawing) ==> shown.len() == 0
        }),
        ({
            let reported = crate::paragraph::drawing_anchored(input, drawing).diagnostics;
            let anchor = drawing.anchor->Some_0;
            &&& floats(drawing) && anchor.chart_rel_id is Some ==> reported == seq![
                crate::drawing::chart_of(input.charts@, anchor.chart_rel_id->Some_0@).1,
            ]
            &&& floats(drawing) && anchor.chart_rel_id is None && anchor.embed_id@.len() > 0
                ==> reported.len() == 0
            &&& !floats(drawing) ==> reported.len() == 0
        }),
{
    if let Some(anchor) = drawing.anchor {
        if let Some(shape) = anchor.shape {
            lemma_shape_text(input, shape, anchor.frame.extent_cx, shape.text@.len());
        }
    }
}

/// How many of the first `n` drawings float and show something.
pub open spec fn floating_before(drawings: Seq<Drawing>, n: nat) -> nat
    decreases n,
{
    if n == 0 {
        0
    } else {
        floating_before(drawings, (n - 1) as nat) + if floats(drawings[n - 1]) {
            1nat
        } else {
            0nat
        }
    }
}

/// How many of the first `n` pieces of a run are drawings that float and show
/// something.
pub open spec fn floating_pieces(content: Seq<RunContent>, n: nat) -> nat
    decreases n,
{
    if n == 0 {
        0
    } else {
        floating_pieces(content, (n - 1) as nat) + match content[n - 1] {
            RunContent::Drawing(drawing) => if floats(drawing) {
                1nat
            } else {
                0nat
            },
            _ => 0nat,
        }
    }
}

/// How many floating drawings the first `n` of some runs hold, in their content or
/// recovered for them.
pub open spec fn floating_in_runs(runs: Seq<ProjectedRunView>, n: nat) -> nat
    decreases n,
{
    if n == 0 {
        0
    } else {
        floating_in_runs(runs, (n - 1) as nat) + floating_pieces(
            runs[n - 1].run.content@,
            runs[n - 1].run.content@.len(),
        ) + floating_before(
            runs[n - 1].run.alt_drawings@,
            runs[n - 1].run.alt_drawings@.len(),
        )
    }
}

proof fn lemma_count_content(input: LayoutInput, run: Run, n: nat)
    requires
        n <= run.content@.len(),
    ensures
        crate::paragraph::contents_anchored(input, run, n).drawings.len() == floating_pieces(
            run.content@,
            n,
        ),
    decreases n,
{
    if n > 0 {
        lemma_count_content(input, run, (n - 1) as nat);
        if let RunContent::Drawing(drawing) = run.content@[n - 1] {
            law_floating_drawings_are_laid_out_as_asked(input, drawing);
        }
    }
}

proof fn lemma_count_recovered(input: LayoutInput, run: Run, n: nat)
    requires
        n <= run.alt_drawings@.len(),
    ensures
        crate::paragraph::recovered_anchored(input, run, n).drawings.len() == floating_before(
            run.alt_drawings@,
            n,
        ),
    decreases n,
{
    if n > 0 {
        lemma_count_recovered(input, run, (n - 1) as nat);
        law_floating_drawings_are_laid_out_as_asked(input, run.alt_drawings@[n - 1]);
    }
}

proof fn lemma_count_runs(input: LayoutInput, paragraph: Paragraph, n: nat)
    requires
        n <= crate::revision::projection(paragraph, input.revision_view).len(),
    ensures
        crate::paragraph::paragraph_anchored(input, paragraph, n).drawings.len()
            == floating_in_runs(
            crate::revision::projection(paragraph, input.revision_view),
            n,
        ),
    decreases n,
{
    if n > 0 {
        lemma_count_runs(input, paragraph, (n - 1) as nat);
        let runs = crate::revision::projection(paragraph, input.revision_view);
        let run = runs[n - 1].run;
        crate::revision_laws::lemma_projected_runs_are_parts(paragraph, input.revision_view);
        lemma_count_content(input, run, run.content@.len());
        lemma_count_recovered(input, run, run.alt_drawings@.len());
        let before = crate::paragraph::paragraph_anchored(
            input,
            paragraph,
            (n - 1) as nat,
        ).drawings;
        let here = crate::paragraph::run_anchored(input, run).drawings;
        assert(here == crate::paragraph::contents_anchored(
            input,
            run,
            run.content@.len(),
        ).drawings + crate::paragraph::recovered_anchored(
            input,
            run,
            run.alt_drawings@.len(),
        ).drawings);
        assert(crate::paragraph::paragraph_anchored(input, paragraph, n).drawings == before
            + here);
    }
}

/// A paragraph lays out as many floating drawings as the runs that the view shows
/// hold, each once.
pub proof fn law_floating_drawings_are_laid_out_once(
    input: LayoutInput,
    paragraph: Paragraph,
    width: Emu,
)
    ensures
        ({
            let runs = crate::revision::projection(paragraph, input.revision_view);
            crate::paragraph::laid_out(input, paragraph, width).0.anchored.len()
                == floating_in_runs(runs, runs.len())
        }),
{
    let runs = crate::revision::projection(paragraph, input.revision_view);
    lemma_count_runs(input, paragraph, runs.len());
}

/// Whether a drawing stands in the content of a run or was recovered for it.
pub open spec fn holds_drawing(run: Run, drawing: Drawing) -> bool {
    ||| exists|c: int|
        0 <= c < run.content@.len() && #[trigger] run.content@[c] == RunContent::Drawing(drawing)
    ||| exists|c: int|
        0 <= c < run.alt_drawings@.len() && #[trigger] run.alt_drawings@[c] == drawing
}

/// Whether a layout holds a floating drawing as its anchor asks.
pub open spec fn lays_out(input: LayoutInput, shown: Seq<AnchoredView>, anchor: Anchor) -> bool {
    exists|a: int| 0 <= a < shown.len() && is_laid_out_as(input, anchor, #[trigger] shown[a])
}

proof fn lemma_laid_out_left(
    input: LayoutInput,
    a: Seq<AnchoredView>,
    b: Seq<AnchoredView>,
    anchor: Anchor,
)
    requires
        lays_out(input, a, anchor) || lays_out(input, b, anchor),
    ensures
        lays_out(input, a + b, anchor),
{
    let all = a + b;
    if lays_out(input, a, anchor) {
        let i = choose|i: int| 0 <= i < a.len() && is_laid_out_as(input, anchor, #[trigger] a[i]);
        assert(all[i] == a[i]);
    } else {
        let i = choose|i: int| 0 <= i < b.len() && is_laid_out_as(input, anchor, #[trigger] b[i]);
        assert(all[a.len() + i] == b[i]);
    }
}

proof fn lemma_drawing_laid_out(input: LayoutInput, drawing: Drawing)
    requires
        floats(drawing),
    ensures
        lays_out(
            input,
            crate::paragraph::drawing_anchored(input, drawing).drawings,
            drawing.anchor->Some_0,
        ),
{
    law_floating_drawings_are_laid_out_as_asked(input, drawing);
    let shown = crate::paragraph::drawing_anchored(input, drawing).drawings;
    assert(is_laid_out_as(input, drawing.anchor->Some_0, shown[0]));
}

proof fn lemma_content_drawing(
    input: LayoutInput,
    run: Run,
    drawing: Drawing,
    c: int,
    n: nat,
)
    requires
        floats(drawing),
        0 <= c < n <= run.content@.len(),
        run.content@[c] == RunContent::Drawing(drawing),
    ensures
        lays_out(
            input,
            crate::paragraph::contents_anchored(input, run, n).drawings,
            drawing.anchor->Some_0,
        ),
    decreases n,
{
    let before = crate::paragraph::contents_anchored(input, run, (n - 1) as nat).drawings;
    let here = match run.content@[n - 1] {
        RunContent::Drawing(own) => crate::paragraph::drawing_anchored(input, own).drawings,
        _ => Seq::empty(),
    };
    if c == n - 1 {
        lemma_drawing_laid_out(input, drawing);
    } else {
        lemma_content_drawing(input, run, drawing, c, (n - 1) as nat);
    }
    lemma_laid_out_left(input, before, here, drawing.anchor->Some_0);
}

proof fn lemma_recovered_drawing(
    input: LayoutInput,
    run: Run,
    drawing: Drawing,
    c: int,
    n: nat,
)
    requires
        floats(drawing),
        0 <= c < n <= run.alt_drawings@.len(),
        run.alt_drawings@[c] == drawing,
    ensures
        lays_out(
            input,
            crate::paragraph::recovered_anchored(input, run, n).drawings,
            drawing.anchor->Some_0,
        ),
    decreases n,
{
    let before = crate::paragraph::recovered_anchored(input, run, (n - 1) as nat).drawings;
    let here = crate::paragraph::drawing_anchored(input, run.alt_drawings@[n - 1]).drawings;
    if c == n - 1 {
        lemma_drawing_laid_out(input, drawing);
    } else {
        lemma_recovered_drawing(input, run, drawing, c, (n - 1) as nat);
    }
    lemma_laid_out_left(input, before, here, drawing.anchor->Some_0);
}

proof fn lemma_paragraph_drawing(
    input: LayoutInput,
    paragraph: Paragraph,
    k: int,
    drawing: Drawing,
    n: nat,
)
    requires
        floats(drawing),
        0 <= k < n <= crate::revision::projection(paragraph, input.revision_view).len(),
        holds_drawing(
            crate::revision::projection(paragraph, input.revision_view)[k].run,
            drawing,
        ),
    ensures
        lays_out(
            input,
            crate::paragraph::paragraph_anchored(input, paragraph, n).drawings,
            drawing.anchor->Some_0,
        ),
    decreases n,
{
    let runs = crate::revision::projection(paragraph, input.revision_view);
    let run = runs[n - 1].run;
    let anchor = drawing.anchor->Some_0;
    let before = crate::paragraph::paragraph_anchored(input, paragraph, (n - 1) as nat).drawings;
    let here = crate::paragraph::run_anchored(input, run).drawings;
    if k == n - 1 {
        let plain = crate::paragraph::contents_anchored(input, run, run.content@.len()).drawings;
        let recovered = crate::paragraph::recovered_anchored(
            input,
            run,
            run.alt_drawings@.len(),
        ).drawings;
        if exists|c: int|
            0 <= c < run.content@.len() && #[trigger] run.content@[c] == RunContent::Drawing(
                drawing,
            ) {
            let c = choose|c: int|
                0 <= c < run.content@.len() && #[trigger] run.content@[c] == RunContent::Drawing(
                    drawing,
                );
            lemma_content_drawing(input, run, drawing, c, run.content@.len());
        } else {
            let c = choose|c: int|
                0 <= c < run.alt_drawings@.len() && #[trigger] run.alt_drawings@[c] == drawing;
            lemma_recovered_drawing(input, run, drawing, c, run.alt_drawings@.len());
        }
        lemma_laid_out_left(input, plain, recovered, anchor);
    } else {
        lemma_paragraph_drawing(input, paragraph, k, drawing, (n - 1) as nat);
    }
    crate::revision_laws::lemma_projected_runs_are_parts(paragraph, input.revision_view);
    lemma_laid_out_left(input, before, here, anchor);
}

/// Every floating drawing of a run that the view shows, in its content or recovered
/// for it, stands in the layout of its paragraph as its anchor asks.
pub proof fn law_every_floating_drawing_is_laid_out(
    input: LayoutInput,
    paragraph: Paragraph,
    width: Emu,
    k: int,
    drawing: Drawing,
)
    requires
        floats(drawing),
        0 <= k < crate::revision::projection(paragraph, input.revision_view).len(),
        holds_drawing(
            crate::revision::projection(paragraph, input.revision_view)[k].run,
            drawing,
        ),
    ensures
        lays_out(
            input,
            crate::paragraph::laid_out(input, paragraph, width).0.anchored,
            drawing.anchor->Some_0,
        ),
{
    let runs = crate::revision::projection(paragraph, input.revision_view);
    lemma_paragraph_drawing(input, paragraph, k, drawing, runs.len());
}

/// Whether text flows around a drawing.
pub open spec fn pushes_text(drawing: Drawing) -> bool {
    drawing.anchor is Some && !(drawing.anchor->Some_0.frame.wrap is NoWrap)
}

proof fn lemma_run_pushes(run: Run, drawing: Drawing)
    requires
        holds_drawing(run, drawing),
        pushes_text(drawing),
    ensures
        crate::drawing::run_wraps(run),
{
    if exists|c: int|
        0 <= c < run.content@.len() && #[trigger] run.content@[c] == RunContent::Drawing(
            drawing,
        ) {
        let c = choose|c: int|
            0 <= c < run.content@.len() && #[trigger] run.content@[c] == RunContent::Drawing(
                drawing,
            );
        assert(crate::drawing::content_wraps(run.content@[c]));
    } else {
        let c = choose|c: int|
            0 <= c < run.alt_drawings@.len() && #[trigger] run.alt_drawings@[c] == drawing;
        assert(crate::drawing::drawing_wraps(run.alt_drawings@[c]));
    }
}

/// A document that shows a drawing with text around it, in a paragraph of the body
/// or in a paragraph of a cell of one of its tables, is found to have one.
pub proof fn law_every_wrapping_drawing_is_found(
    input: LayoutInput,
    b: int,
    r: int,
    e: int,
    c: int,
    paragraph: Paragraph,
    k: int,
    drawing: Drawing,
)
    requires
        0 <= b < input.document.body@.len(),
        match input.document.body@[b] {
            BodyContent::Paragraph(own) => own == paragraph,
            BodyContent::Table(table) => 0 <= r < table.rows@.len() && 0 <= e
                < table.rows@[r].cells@.len() && 0 <= c
                < table.rows@[r].cells@[e].content@.len()
                && table.rows@[r].cells@[e].content@[c] == CellContent::Paragraph(paragraph),
            _ => false,
        },
        0 <= k < crate::revision::projection(paragraph, input.revision_view).len(),
        holds_drawing(
            crate::revision::projection(paragraph, input.revision_view)[k].run,
            drawing,
        ),
        pushes_text(drawing),
    ensures
        crate::drawing::document_wraps(input),
{
    let view = input.revision_view;
    let runs = crate::revision::projection(paragraph, view);
    lemma_run_pushes(runs[k].run, drawing);
    assert(crate::drawing::run_wraps(runs[k].run));
    assert(crate::drawing::paragraph_wraps(paragraph, view));
    if let BodyContent::Table(table) = input.document.body@[b] {
        let row = table.rows@[r];
        let cell = row.cells@[e];
        assert(crate::drawing::cell_content_wraps(cell.content@[c], view));
        assert(crate::drawing::cell_wraps(row.cells@[e], view));
        assert(crate::drawing::row_wraps(table.rows@[r], view));
    }
    assert(crate::drawing::body_wraps(input.document.body@[b], view));
}

/// A paragraph in which no drawing has text around it needs no second breaking.
pub proof fn law_paragraphs_without_such_drawings_do_not_wrap(
    paragraph: Paragraph,
    view: RevisionView,
)
    requires
        forall|k: int, drawing: Drawing|
            0 <= k < crate::revision::projection(paragraph, view).len() && #[trigger]
            holds_drawing(
                crate::revision::projection(paragraph, view)[k].run,
                drawing,
            ) ==> !pushes_text(drawing),
    ensures
        !crate::drawing::paragraph_wraps(paragraph, view),
{
    let runs = crate::revision::projection(paragraph, view);
    if crate::drawing::paragraph_wraps(paragraph, view) {
        let k = choose|k: int|
            0 <= k < runs.len() && crate::drawing::run_wraps((#[trigger] runs[k]).run);
        let run = runs[k].run;
        if exists|i: int|
            0 <= i < run.content@.len() && crate::drawing::content_wraps(
                #[trigger] run.content@[i],
            ) {
            let i = choose|i: int|
                0 <= i < run.content@.len() && crate::drawing::content_wraps(
                    #[trigger] run.content@[i],
                );
            if let RunContent::Drawing(drawing) = run.content@[i] {
                assert(holds_drawing(run, drawing));
            }
        } else {
            let i = choose|i: int|
                0 <= i < run.alt_drawings@.len() && crate::drawing::drawing_wraps(
                    #[trigger] run.alt_drawings@[i],
                );
            assert(holds_drawing(run, run.alt_drawings@[i]));
        }
    }
}

/// A document in which neither a paragraph of the body nor a paragraph of a cell of
/// one of its tables shows a drawing with text around it has none.
pub proof fn law_documents_without_such_drawings_do_not_wrap(input: LayoutInput)
    requires
        forall|b: int|
            0 <= b < input.document.body@.len() ==> match #[trigger] input.document.body@[b] {
                BodyContent::Paragraph(paragraph) => !crate::drawing::paragraph_wraps(
                    paragraph,
                    input.revision_view,
                ),
                BodyContent::Table(table) => forall|r: int, e: int, c: int|
                    0 <= r < table.rows@.len() && 0 <= e < table.rows@[r].cells@.len() && 0 <= c
                        < table.rows@[r].cells@[e].content@.len() ==> match (
                    #[trigger] table.rows@[r].cells@[e].content@[c]) {
                        CellContent::Paragraph(paragraph) => !crate::drawing::paragraph_wraps(
                            paragraph,
                            input.revision_view,
                        ),
                        _ => true,
                    },
                _ => true,
            },
    ensures
        !crate::drawing::document_wraps(input),
{
    let view = input.revision_view;
    if crate::drawing::document_wraps(input) {
        let b = choose|b: int|
            0 <= b < input.document.body@.len() && crate::drawing::body_wraps(
                #[trigger] input.document.body@[b],
                view,
            );
        if let BodyContent::Table(table) = input.document.body@[b] {
            let r = choose|r: int|
                0 <= r < table.rows@.len() && crate::drawing::row_wraps(
                    #[trigger] table.rows@[r],
                    view,
                );
            let row = table.rows@[r];
            let e = choose|e: int|
                0 <= e < row.cells@.len() && crate::drawing::cell_wraps(
                    #[trigger] row.cells@[e],
                    view,
                );
            let cell = row.cells@[e];
            let c = choose|c: int|
                0 <= c < cell.content@.len() && crate::drawing::cell_content_wraps(
                    #[trigger] cell.content@[c],
                    view,
                );
            assert(table.rows@[r].cells@[e].content@[c] == cell.content@[c]);
        }
    }
}

/// Where a paragraph is read from right to left, its start and its end change
/// places and nothing else does; turning twice changes nothing.
pub proof fn law_only_start_and_end_turn(align: crate::convert::Align)
    ensures
        crate::convert::mirrored(crate::convert::mirrored(align)) == align,
        align is Start ==> crate::convert::mirrored(align) is End,
        align is End ==> crate::convert::mirrored(align) is Start,
        !(align is Start) && !(align is End) ==> crate::convert::mirrored(align) == align,
{
}

} // verus!
