//! Drawings: which of them push text aside, and what a chart is drawn from.

use vstd::prelude::*;
use vstd::string::StringExecFns;

use crate::document::{
    BodyContent, Cell, CellContent, ChartPart, Drawing, LayoutInput, Paragraph, RevisionView, Row,
    Run, RunContent, Table, WrapType,
};
use crate::plan::{ChartSource, Diagnostic, DiagnosticView};
use crate::revision::project_paragraph_runs;
use crate::text::str_eq;

verus! {

/// Whether text flows around a drawing.
pub open spec fn drawing_wraps(drawing: Drawing) -> bool {
    match drawing.anchor {
        Some(anchor) => anchor.frame.wrap != WrapType::NoWrap,
        None => false,
    }
}

/// Whether a piece of a run is a drawing that text flows around.
pub open spec fn content_wraps(content: RunContent) -> bool {
    match content {
        RunContent::Drawing(drawing) => drawing_wraps(drawing),
        _ => false,
    }
}

/// Whether a run holds a drawing that text flows around.
pub open spec fn run_wraps(run: Run) -> bool {
    ||| exists|i: int| 0 <= i < run.content@.len() && content_wraps(#[trigger] run.content@[i])
    ||| exists|i: int|
        0 <= i < run.alt_drawings@.len() && drawing_wraps(#[trigger] run.alt_drawings@[i])
}

/// Whether a view of a paragraph shows a drawing that text flows around.
pub open spec fn paragraph_wraps(paragraph: Paragraph, view: RevisionView) -> bool {
    let runs = crate::revision::projection(paragraph, view);
    exists|i: int| 0 <= i < runs.len() && run_wraps((#[trigger] runs[i]).run)
}

/// Whether a piece of a cell is a paragraph with such a drawing. Nested tables
/// and content controls are not searched.
pub open spec fn cell_content_wraps(content: CellContent, view: RevisionView) -> bool {
    match content {
        CellContent::Paragraph(paragraph) => paragraph_wraps(paragraph, view),
        _ => false,
    }
}

/// Whether a cell holds such a paragraph.
pub open spec fn cell_wraps(cell: Cell, view: RevisionView) -> bool {
    exists|i: int|
        0 <= i < cell.content@.len() && cell_content_wraps(#[trigger] cell.content@[i], view)
}

/// Whether a row holds such a cell.
pub open spec fn row_wraps(row: Row, view: RevisionView) -> bool {
    exists|i: int| 0 <= i < row.cells@.len() && cell_wraps(#[trigger] row.cells@[i], view)
}

/// Whether a table holds such a row.
pub open spec fn table_wraps(table: Table, view: RevisionView) -> bool {
    exists|i: int| 0 <= i < table.rows@.len() && row_wraps(#[trigger] table.rows@[i], view)
}

/// Whether a piece of the body holds a drawing that text flows around.
pub open spec fn body_wraps(content: BodyContent, view: RevisionView) -> bool {
    match content {
        BodyContent::Paragraph(paragraph) => paragraph_wraps(paragraph, view),
        BodyContent::Table(table) => table_wraps(table, view),
        _ => false,
    }
}

/// Whether the document body holds a drawing that text flows around.
pub open spec fn document_wraps(input: LayoutInput) -> bool {
    exists|i: int|
        0 <= i < input.document.body@.len() && body_wraps(
            #[trigger] input.document.body@[i],
            input.revision_view,
        )
}

fn wraps_around(drawing: &Drawing) -> (wraps: bool)
    ensures
        wraps == drawing_wraps(*drawing),
{
    match &drawing.anchor {
        Some(anchor) => match anchor.frame.wrap {
            WrapType::NoWrap => false,
            _ => true,
        },
        None => false,
    }
}

fn run_has_wrapping_drawing(run: &Run) -> (wraps: bool)
    ensures
        wraps == run_wraps(*run),
{
    let mut i: usize = 0;
    while i < run.content.len()
        invariant
            i <= run.content@.len(),
            forall|k: int| 0 <= k < i ==> !content_wraps(#[trigger] run.content@[k]),
        decreases run.content@.len() - i,
    {
        if let RunContent::Drawing(drawing) = &run.content[i] {
            if wraps_around(drawing) {
                proof {
                    assert(content_wraps(run.content@[i as int]));
                }
                return true;
            }
        }
        i += 1;
    }
    let mut j: usize = 0;
    while j < run.alt_drawings.len()
        invariant
            j <= run.alt_drawings@.len(),
            forall|k: int| 0 <= k < j ==> !drawing_wraps(#[trigger] run.alt_drawings@[k]),
        decreases run.alt_drawings@.len() - j,
    {
        if wraps_around(&run.alt_drawings[j]) {
            proof {
                assert(drawing_wraps(run.alt_drawings@[j as int]));
            }
            return true;
        }
        j += 1;
    }
    false
}

fn paragraph_has_wrapping_drawing(paragraph: &Paragraph, view: RevisionView) -> (wraps: bool)
    ensures
        wraps == paragraph_wraps(*paragraph, view),
{
    let projected = project_paragraph_runs(paragraph, view);
    let ghost runs = crate::revision::projection(*paragraph, view);
    let mut i: usize = 0;
    while i < projected.len()
        invariant
            i <= projected@.len(),
            runs == crate::revision::projection(*paragraph, view),
            crate::revision::projected_views(projected@) == runs,
            forall|k: int| 0 <= k < i ==> !run_wraps((#[trigger] runs[k]).run),
        decreases projected@.len() - i,
    {
        proof {
            assert(runs[i as int] == projected@[i as int]@);
        }
        if run_has_wrapping_drawing(projected[i].run) {
            return true;
        }
        i += 1;
    }
    false
}

fn cell_has_wrapping_drawing(cell: &Cell, view: RevisionView) -> (wraps: bool)
    ensures
        wraps == cell_wraps(*cell, view),
{
    let mut i: usize = 0;
    while i < cell.content.len()
        invariant
            i <= cell.content@.len(),
            forall|k: int| 0 <= k < i ==> !cell_content_wraps(#[trigger] cell.content@[k], view),
        decreases cell.content@.len() - i,
    {
        if let CellContent::Paragraph(paragraph) = &cell.content[i] {
            if paragraph_has_wrapping_drawing(paragraph, view) {
                proof {
                    assert(cell_content_wraps(cell.content@[i as int], view));
                }
                return true;
            }
        }
        i += 1;
    }
    false
}

fn row_has_wrapping_drawing(row: &Row, view: RevisionView) -> (wraps: bool)
    ensures
        wraps == row_wraps(*row, view),
{
    let mut i: usize = 0;
    while i < row.cells.len()
        invariant
            i <= row.cells@.len(),
            forall|k: int| 0 <= k < i ==> !cell_wraps(#[trigger] row.cells@[k], view),
        decreases row.cells@.len() - i,
    {
        if cell_has_wrapping_drawing(&row.cells[i], view) {
            return true;
        }
        i += 1;
    }
    false
}

fn table_has_wrapping_drawing(table: &Table, view: RevisionView) -> (wraps: bool)
    ensures
        wraps == table_wraps(*table, view),
{
    let mut i: usize = 0;
    while i < table.rows.len()
        invariant
            i <= table.rows@.len(),
            forall|k: int| 0 <= k < i ==> !row_wraps(#[trigger] table.rows@[k], view),
        decreases table.rows@.len() - i,
    {
        if row_has_wrapping_drawing(&table.rows[i], view) {
            return true;
        }
        i += 1;
    }
    false
}

/// Whether any drawing in the document body wraps text around itself.
///
/// A document without one never breaks a paragraph again, so it does not have
/// to keep what that takes.
pub fn document_has_wrapping_drawing(input: &LayoutInput) -> (wraps: bool)
    ensures
        wraps == document_wraps(*input),
{
    let view = input.revision_view;
    let mut i: usize = 0;
    while i < input.document.body.len()
        invariant
            i <= input.document.body@.len(),
            view == input.revision_view,
            forall|k: int|
                0 <= k < i ==> !body_wraps(#[trigger] input.document.body@[k], view),
        decreases input.document.body@.len() - i,
    {
        let found = match &input.document.body[i] {
            BodyContent::Paragraph(paragraph) => paragraph_has_wrapping_drawing(paragraph, view),
            BodyContent::Table(table) => table_has_wrapping_drawing(table, view),
            _ => false,
        };
        if found {
            proof {
                assert(body_wraps(input.document.body@[i as int], view));
            }
            return true;
        }
        i += 1;
    }
    false
}

/// The condition that a chart part has a relationship.
pub open spec fn chart_has_rel(rel_id: Seq<char>) -> spec_fn(ChartPart) -> bool {
    |part: ChartPart| part.rel_id@ == rel_id
}

/// What the chart of a relationship is drawn from, and what is to be reported
/// of it.
pub open spec fn chart_of(
    charts: Seq<ChartPart>,
    rel_id: Seq<char>) -> (ChartSource, DiagnosticView,
) {
    match crate::text::first_where(charts, chart_has_rel(rel_id)) {
        Some(i) => match charts[i].chart {
            Ok(chart) => (
                ChartSource::Parsed(chart),
                DiagnosticView::ChartPending { rel_id, chart },
            ),
            Err(message) => (
                ChartSource::Placeholder,
                DiagnosticView::Message(crate::plan::chart_message(rel_id, message@)),
            ),
        },
        None => (
            ChartSource::Placeholder,
            DiagnosticView::Message(
                crate::plan::chart_message(
                    rel_id,
                    "relationship was not resolved from the document part"@,
                ),
            ),
        ),
    }
}

/// What is reported of a chart that cannot be shown.
fn chart_failure(rel_id: &str, detail: &str) -> (message: String)
    ensures
        message@ == crate::plan::chart_message(rel_id@, detail@),
{
    let mut message = "Word chart relationship ".to_owned();
    message.append(rel_id);
    message.append(": ");
    message.append(detail);
    message
}

fn find_chart<'a>(charts: &'a Vec<ChartPart>, rel_id: &str) -> (found: Option<&'a ChartPart>)
    ensures
        match (found, crate::text::first_where(charts@, chart_has_rel(rel_id@))) {
            (Some(part), Some(i)) => 0 <= i < charts@.len() && *part == charts@[i],
            (None, None) => true,
            _ => false,
        },
{
    let mut i: usize = 0;
    while i < charts.len()
        invariant
            i <= charts@.len(),
            crate::text::first_where(charts@, chart_has_rel(rel_id@)) == crate::text::first_from(
                charts@,
                chart_has_rel(rel_id@),
                i as int,
            ),
        decreases charts@.len() - i,
    {
        let part = &charts[i];
        if str_eq(part.rel_id.as_str(), rel_id) {
            proof {
                assert(chart_has_rel(rel_id@)(charts@[i as int]));
            }
            return Some(part);
        }
        i += 1;
    }
    None
}

/// What the chart of a relationship is drawn from. A chart that cannot be shown
/// is reported, and one that can is noted until it has been drawn.
pub fn render_word_chart(
    rel_id: &String,
    input: &LayoutInput,
    diagnostics: &mut Vec<Diagnostic>,
) -> (source: ChartSource)
    ensures
        source == chart_of(input.charts@, rel_id@).0,
        crate::plan::diagnostic_views(final(diagnostics)@) == crate::plan::diagnostic_views(
            old(diagnostics)@,
        ).push(chart_of(input.charts@, rel_id@).1),
{
    let (source, diagnostic) = match find_chart(&input.charts, rel_id.as_str()) {
        Some(part) => match &part.chart {
            Ok(chart) => (
                ChartSource::Parsed(*chart),
                Diagnostic::ChartPending { rel_id: rel_id.clone(), chart: *chart },
            ),
            Err(detail) => (
                ChartSource::Placeholder,
                Diagnostic::Message(chart_failure(rel_id.as_str(), detail.as_str())),
            ),
        },
        None => (
            ChartSource::Placeholder,
            Diagnostic::Message(
                chart_failure(
                    rel_id.as_str(),
                    "relationship was not resolved from the document part",
                ),
            ),
        ),
    };
    diagnostics.push(diagnostic);
    proof {
        assert(crate::plan::diagnostic_views(diagnostics@) =~= crate::plan::diagnostic_views(
            old(diagnostics)@,
        ).push(diagnostic@));
    }
    source
}

/// The texts of strings that may be missing.
pub open spec fn optional_texts(strings: Seq<Option<String>>) -> Seq<Option<Seq<char>>> {
    strings.map_values(|string: Option<String>| crate::text::opt_view(string))
}

/// The texts of strings.
pub open spec fn string_texts(strings: Seq<String>) -> Seq<Seq<char>> {
    strings.map_values(|string: String| string@)
}

/// What is left to report when the charts have been drawn. `failures` holds,
/// for each chart in turn, why it could not be drawn.
pub fn settle_diagnostics(
    diagnostics: &Vec<Diagnostic>,
    failures: &Vec<Option<String>>,
) -> (messages: Vec<String>)
    ensures
        string_texts(messages@) == crate::plan::settled(
            crate::plan::diagnostic_views(diagnostics@),
            optional_texts(failures@),
        ),
{
    let ghost all = crate::plan::diagnostic_views(diagnostics@);
    let ghost details = optional_texts(failures@);
    let mut messages: Vec<String> = Vec::new();
    let mut turn: usize = 0;
    let mut i: usize = 0;
    proof {
        assert(string_texts(messages@) =~= crate::plan::settled(all.take(0), details));
    }
    while i < diagnostics.len()
        invariant
            i <= diagnostics@.len(),
            turn <= i,
            all == crate::plan::diagnostic_views(diagnostics@),
            details == optional_texts(failures@),
            turn == crate::plan::pending_charts(all.take(i as int)),
            string_texts(messages@) == crate::plan::settled(all.take(i as int), details),
        decreases diagnostics@.len() - i,
    {
        proof {
            assert(all[i as int] == diagnostics@[i as int]@);
            assert(all.take(i + 1).drop_last() =~= all.take(i as int));
        }
        match &diagnostics[i] {
            Diagnostic::Message(message) => {
                let copy = message.clone();
                proof {
                    assert(string_texts(messages@.push(copy)) =~= string_texts(messages@).push(
                        copy@,
                    ));
                }
                messages.push(copy);
            },
            Diagnostic::ChartPending { rel_id, .. } => {
                if turn < failures.len() {
                    proof {
                        assert(details[turn as int] == crate::text::opt_view(
                            failures@[turn as int],
                        ));
                    }
                    if let Some(detail) = &failures[turn] {
                        let message = chart_failure(rel_id.as_str(), detail.as_str());
                        proof {
                            assert(string_texts(messages@.push(message)) =~= string_texts(
                                messages@,
                            ).push(message@));
                        }
                        messages.push(message);
                    }
                }
                turn += 1;
            },
        }
        i += 1;
    }
    proof {
        assert(all.take(i as int) =~= all);
    }
    messages
}

} // verus!
