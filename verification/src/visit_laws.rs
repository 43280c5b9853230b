//! What holds of the paragraphs of a document: every one is found, in document
//! order.

use vstd::prelude::*;

use crate::document::{
    BodyContent, Cell, CellContent, ContentControl, ControlContent, Field, FieldArgument,
    LayoutInput, Paragraph, Row, RunContent, Table,
};

verus! {

/// Whether paragraphs are those of some parts, one part after the other.
pub open spec fn are_in_turn(all: Seq<Paragraph>, parts: Seq<Seq<Paragraph>>) -> bool {
    exists|places: Seq<int>| #[trigger] divide(all, parts, places)
}

/// Whether places divide paragraphs into those of some parts, one part after the
/// other.
pub open spec fn divide(
    all: Seq<Paragraph>,
    parts: Seq<Seq<Paragraph>>,
    places: Seq<int>,
) -> bool {
    &&& places.len() == parts.len() + 1
    &&& places[0] == 0
    &&& places[parts.len() as int] == all.len()
    &&& forall|i: int|
        0 <= i < parts.len() ==> 0 <= #[trigger] places[i] <= places[i + 1] <= all.len()
            && all.subrange(places[i], places[i + 1]) == parts[i]
}

/// One more part is one more turn.
proof fn lemma_one_more_turn(
    all: Seq<Paragraph>,
    parts: Seq<Seq<Paragraph>>,
    part: Seq<Paragraph>,
)
    requires
        are_in_turn(all, parts),
    ensures
        are_in_turn(all + part, parts.push(part)),
{
    let places = choose|places: Seq<int>| #[trigger] divide(all, parts, places);
    let more = places.push((all.len() + part.len()) as int);
    let whole = all + part;
    let turns = parts.push(part);
    assert forall|i: int| 0 <= i < turns.len() implies 0 <= #[trigger] more[i] <= more[i + 1]
        <= whole.len() && whole.subrange(more[i], more[i + 1]) == turns[i] by {
        if i < parts.len() {
            assert(more[i] == places[i] && more[i + 1] == places[i + 1]);
            assert(whole.subrange(more[i], more[i + 1]) =~= all.subrange(
                places[i],
                places[i + 1],
            ));
        } else {
            assert(more[i] == all.len());
            assert(whole.subrange(more[i], more[i + 1]) =~= part);
        }
    }
    assert(divide(whole, turns, more));
}

proof fn lemma_no_turn()
    ensures
        are_in_turn(Seq::empty(), Seq::empty()),
{
    assert(divide(Seq::empty(), Seq::empty(), seq![0int]));
}

/// A paragraph of a part is among all.
proof fn lemma_in_turn(all: Seq<Paragraph>, parts: Seq<Seq<Paragraph>>, i: int, x: Paragraph)
    requires
        are_in_turn(all, parts),
        0 <= i < parts.len(),
        parts[i].contains(x),
    ensures
        all.contains(x),
{
    let places = choose|places: Seq<int>| #[trigger] divide(all, parts, places);
    let k = choose|k: int| 0 <= k < parts[i].len() && parts[i][k] == x;
    assert(0 <= places[i] <= places[i + 1] <= all.len());
    assert(all.subrange(places[i], places[i + 1])[k] == all[places[i] + k]);
}

/// What a piece of a content control holds: itself if it is a paragraph, and what is
/// inside it if it is a table, a row, a cell or another control.
pub open spec fn control_piece(content: ControlContent) -> Seq<Paragraph> {
    match content {
        ControlContent::Paragraph(paragraph) => seq![paragraph],
        ControlContent::Table(table) => crate::visit::table_paragraphs(table),
        ControlContent::Row(row) => crate::visit::row_paragraphs(row),
        ControlContent::Cell(cell) => crate::visit::cell_paragraphs(cell),
        ControlContent::ContentControl(inner) => crate::visit::control_paragraphs(inner),
        ControlContent::Run(_) => Seq::empty(),
        ControlContent::RawXml => Seq::empty(),
    }
}

proof fn lemma_control_turns(control: ContentControl, n: nat)
    requires
        n <= control.content@.len(),
    ensures
        are_in_turn(
            crate::visit::control_prefix(control, n),
            Seq::new(n, |i: int| control_piece(control.content@[i])),
        ),
    decreases n,
{
    let parts = Seq::new(n, |i: int| control_piece(control.content@[i]));
    if n == 0 {
        lemma_no_turn();
        assert(parts =~= Seq::empty());
        assert(crate::visit::control_prefix(control, 0) =~= Seq::empty());
    } else {
        let m = (n - 1) as nat;
        lemma_control_turns(control, m);
        let before = Seq::new(m, |i: int| control_piece(control.content@[i]));
        lemma_one_more_turn(
            crate::visit::control_prefix(control, m),
            before,
            control_piece(control.content@[m as int]),
        );
        assert(parts =~= before.push(control_piece(control.content@[m as int])));
        assert(crate::visit::control_prefix(control, n) =~= crate::visit::control_prefix(control, m)
            + control_piece(control.content@[m as int]));
    }
}

/// What a piece of a cell holds: itself if it is a paragraph, and what is inside it
/// if it is a table or a content control.
pub open spec fn cell_piece(content: CellContent) -> Seq<Paragraph> {
    match content {
        CellContent::Paragraph(paragraph) => seq![paragraph],
        CellContent::Table(table) => crate::visit::table_paragraphs(table),
        CellContent::ContentControl(control) => crate::visit::control_paragraphs(control),
    }
}

proof fn lemma_cell_turns(cell: Cell, n: nat)
    requires
        n <= cell.content@.len(),
    ensures
        are_in_turn(
            crate::visit::cell_prefix(cell, n),
            Seq::new(n, |i: int| cell_piece(cell.content@[i])),
        ),
    decreases n,
{
    let parts = Seq::new(n, |i: int| cell_piece(cell.content@[i]));
    if n == 0 {
        lemma_no_turn();
        assert(parts =~= Seq::empty());
        assert(crate::visit::cell_prefix(cell, 0) =~= Seq::empty());
    } else {
        let m = (n - 1) as nat;
        lemma_cell_turns(cell, m);
        let before = Seq::new(m, |i: int| cell_piece(cell.content@[i]));
        lemma_one_more_turn(
            crate::visit::cell_prefix(cell, m),
            before,
            cell_piece(cell.content@[m as int]),
        );
        assert(parts =~= before.push(cell_piece(cell.content@[m as int])));
        assert(crate::visit::cell_prefix(cell, n) =~= crate::visit::cell_prefix(cell, m)
            + cell_piece(cell.content@[m as int]));
    }
}

/// What a piece of the body holds: itself if it is a paragraph, and what is inside it
/// if it is a table or a content control.
pub open spec fn body_piece(content: BodyContent) -> Seq<Paragraph> {
    match content {
        BodyContent::Paragraph(paragraph) => seq![paragraph],
        BodyContent::Table(table) => crate::visit::table_paragraphs(table),
        BodyContent::ContentControl(control) => crate::visit::control_paragraphs(control),
        BodyContent::RawXml => Seq::empty(),
    }
}

proof fn lemma_body_turns(body: Seq<BodyContent>, n: nat)
    requires
        n <= body.len(),
    ensures
        are_in_turn(
            crate::visit::body_prefix(body, n),
            Seq::new(n, |i: int| body_piece(body[i])),
        ),
    decreases n,
{
    let parts = Seq::new(n, |i: int| body_piece(body[i]));
    if n == 0 {
        lemma_no_turn();
        assert(parts =~= Seq::empty());
        assert(crate::visit::body_prefix(body, 0) =~= Seq::empty());
    } else {
        let m = (n - 1) as nat;
        lemma_body_turns(body, m);
        let before = Seq::new(m, |i: int| body_piece(body[i]));
        lemma_one_more_turn(
            crate::visit::body_prefix(body, m),
            before,
            body_piece(body[m as int]),
        );
        assert(parts =~= before.push(body_piece(body[m as int])));
        assert(crate::visit::body_prefix(body, n) =~= crate::visit::body_prefix(body, m)
            + body_piece(body[m as int]));
    }
}

/// Turns go on in a sum.
proof fn lemma_turns_in_sum(
    a: Seq<Paragraph>,
    firsts: Seq<Seq<Paragraph>>,
    b: Seq<Paragraph>,
    seconds: Seq<Seq<Paragraph>>,
)
    requires
        are_in_turn(a, firsts),
        are_in_turn(b, seconds),
    ensures
        are_in_turn(a + b, firsts + seconds),
{
    let x = choose|places: Seq<int>| #[trigger] divide(a, firsts, places);
    let y = choose|places: Seq<int>| #[trigger] divide(b, seconds, places);
    let n = firsts.len() as int;
    let all = a + b;
    let parts = firsts + seconds;
    let places = Seq::new(
        (parts.len() + 1) as nat,
        |i: int|
            if i < n {
                x[i]
            } else {
                a.len() + y[i - n]
            },
    );
    assert forall|i: int| 0 <= i < parts.len() implies 0 <= #[trigger] places[i] <= places[i + 1]
        <= all.len() && all.subrange(places[i], places[i + 1]) == parts[i] by {
        if i < n {
            assert(0 <= x[i] <= x[i + 1] <= a.len());
            assert(places[i + 1] == x[i + 1]);
            assert(all.subrange(x[i], x[i + 1]) =~= a.subrange(x[i], x[i + 1]));
        } else {
            let k = i - n;
            assert(0 <= y[k] <= y[k + 1] <= b.len());
            assert(all.subrange(a.len() + y[k], a.len() + y[k + 1]) =~= b.subrange(y[k], y[k + 1]));
        }
    }
    assert(divide(all, parts, places));
}

/// What the parts of a table hold: its content controls, then its rows.
pub open spec fn table_parts(table: Table) -> Seq<Seq<Paragraph>> {
    Seq::new(
        table.content_controls@.len(),
        |i: int| crate::visit::control_paragraphs(table.content_controls@[i]),
    ) + Seq::new(table.rows@.len(), |i: int| crate::visit::row_paragraphs(table.rows@[i]))
}

proof fn lemma_table_control_turns(table: Table, n: nat)
    requires
        n <= table.content_controls@.len(),
    ensures
        are_in_turn(
            crate::visit::table_controls(table, n),
            Seq::new(n, |i: int| crate::visit::control_paragraphs(table.content_controls@[i])),
        ),
    decreases n,
{
    let parts = Seq::new(n, |i: int| crate::visit::control_paragraphs(table.content_controls@[i]));
    if n == 0 {
        lemma_no_turn();
        assert(parts =~= Seq::empty());
    } else {
        let m = (n - 1) as nat;
        lemma_table_control_turns(table, m);
        let before = Seq::new(m, |i: int| crate::visit::control_paragraphs(table.content_controls@[i]));
        let part = crate::visit::control_paragraphs(table.content_controls@[m as int]);
        lemma_one_more_turn(crate::visit::table_controls(table, m), before, part);
        assert(parts =~= before.push(part));
    }
}

proof fn lemma_table_own_turns(table: Table, n: nat)
    requires
        n <= table.rows@.len(),
    ensures
        are_in_turn(
            crate::visit::table_rows(table, n),
            Seq::new(n, |i: int| crate::visit::row_paragraphs(table.rows@[i])),
        ),
    decreases n,
{
    let parts = Seq::new(n, |i: int| crate::visit::row_paragraphs(table.rows@[i]));
    if n == 0 {
        lemma_no_turn();
        assert(parts =~= Seq::empty());
    } else {
        let m = (n - 1) as nat;
        lemma_table_own_turns(table, m);
        let before = Seq::new(m, |i: int| crate::visit::row_paragraphs(table.rows@[i]));
        let part = crate::visit::row_paragraphs(table.rows@[m as int]);
        lemma_one_more_turn(crate::visit::table_rows(table, m), before, part);
        assert(parts =~= before.push(part));
    }
}

proof fn lemma_table_turns(table: Table)
    ensures
        are_in_turn(crate::visit::table_paragraphs(table), table_parts(table)),
{
    lemma_table_control_turns(table, table.content_controls@.len());
    lemma_table_own_turns(table, table.rows@.len());
    lemma_turns_in_sum(
        crate::visit::table_controls(table, table.content_controls@.len()),
        Seq::new(table.content_controls@.len(), |i: int| crate::visit::control_paragraphs(table.content_controls@[i])),
        crate::visit::table_rows(table, table.rows@.len()),
        Seq::new(table.rows@.len(), |i: int| crate::visit::row_paragraphs(table.rows@[i])),
    );
}

/// What the parts of a row hold: its content controls, then its cells.
pub open spec fn row_parts(row: Row) -> Seq<Seq<Paragraph>> {
    Seq::new(
        row.content_controls@.len(),
        |i: int| crate::visit::control_paragraphs(row.content_controls@[i]),
    ) + Seq::new(row.cells@.len(), |i: int| crate::visit::cell_paragraphs(row.cells@[i]))
}

proof fn lemma_row_control_turns(row: Row, n: nat)
    requires
        n <= row.content_controls@.len(),
    ensures
        are_in_turn(
            crate::visit::row_controls(row, n),
            Seq::new(n, |i: int| crate::visit::control_paragraphs(row.content_controls@[i])),
        ),
    decreases n,
{
    let parts = Seq::new(n, |i: int| crate::visit::control_paragraphs(row.content_controls@[i]));
    if n == 0 {
        lemma_no_turn();
        assert(parts =~= Seq::empty());
    } else {
        let m = (n - 1) as nat;
        lemma_row_control_turns(row, m);
        let before = Seq::new(m, |i: int| crate::visit::control_paragraphs(row.content_controls@[i]));
        let part = crate::visit::control_paragraphs(row.content_controls@[m as int]);
        lemma_one_more_turn(crate::visit::row_controls(row, m), before, part);
        assert(parts =~= before.push(part));
    }
}

proof fn lemma_row_own_turns(row: Row, n: nat)
    requires
        n <= row.cells@.len(),
    ensures
        are_in_turn(
            crate::visit::row_cells(row, n),
            Seq::new(n, |i: int| crate::visit::cell_paragraphs(row.cells@[i])),
        ),
    decreases n,
{
    let parts = Seq::new(n, |i: int| crate::visit::cell_paragraphs(row.cells@[i]));
    if n == 0 {
        lemma_no_turn();
        assert(parts =~= Seq::empty());
    } else {
        let m = (n - 1) as nat;
        lemma_row_own_turns(row, m);
        let before = Seq::new(m, |i: int| crate::visit::cell_paragraphs(row.cells@[i]));
        let part = crate::visit::cell_paragraphs(row.cells@[m as int]);
        lemma_one_more_turn(crate::visit::row_cells(row, m), before, part);
        assert(parts =~= before.push(part));
    }
}

proof fn lemma_row_turns(row: Row)
    ensures
        are_in_turn(crate::visit::row_paragraphs(row), row_parts(row)),
{
    lemma_row_control_turns(row, row.content_controls@.len());
    lemma_row_own_turns(row, row.cells@.len());
    lemma_turns_in_sum(
        crate::visit::row_controls(row, row.content_controls@.len()),
        Seq::new(row.content_controls@.len(), |i: int| crate::visit::control_paragraphs(row.content_controls@[i])),
        crate::visit::row_cells(row, row.cells@.len()),
        Seq::new(row.cells@.len(), |i: int| crate::visit::cell_paragraphs(row.cells@[i])),
    );
}

/// The paragraphs of a content control, of a cell and of a document are those that
/// their pieces hold, one piece after the other; the paragraphs of a table are those
/// of its content controls and then those of its rows, and the paragraphs of a row
/// those of its content controls and then those of its cells. Nothing is left out
/// and nothing else is found.
pub proof fn law_paragraphs_are_found_in_document_order(
    input: LayoutInput,
    control: ContentControl,
    table: Table,
    row: Row,
    cell: Cell,
)
    ensures
        are_in_turn(
            crate::visit::document_paragraphs(input),
            Seq::new(
                input.document.body@.len(),
                |i: int| body_piece(input.document.body@[i]),
            ),
        ),
        are_in_turn(
            crate::visit::control_paragraphs(control),
            Seq::new(control.content@.len(), |i: int| control_piece(control.content@[i])),
        ),
        are_in_turn(
            crate::visit::cell_paragraphs(cell),
            Seq::new(cell.content@.len(), |i: int| cell_piece(cell.content@[i])),
        ),
        are_in_turn(crate::visit::table_paragraphs(table), table_parts(table)),
        are_in_turn(crate::visit::row_paragraphs(row), row_parts(row)),
{
    lemma_body_turns(input.document.body@, input.document.body@.len());
    lemma_control_turns(control, control.content@.len());
    lemma_cell_turns(cell, cell.content@.len());
    lemma_table_turns(table);
    lemma_row_turns(row);
}

/// Whether a paragraph stands in a cell of a table of the body: directly, or in a
/// content control there.
pub open spec fn stands_in_cell(
    body: Seq<BodyContent>,
    paragraph: Paragraph,
    b: int,
    r: int,
    c: int,
    k: int,
) -> bool {
    &&& 0 <= b < body.len()
    &&& match body[b] {
        BodyContent::Table(table) => 0 <= r < table.rows@.len() && 0 <= c
            < table.rows@[r].cells@.len() && 0 <= k < table.rows@[r].cells@[c].content@.len()
            && table.rows@[r].cells@[c].content@[k] == CellContent::Paragraph(paragraph),
        _ => false,
    }
}

/// A paragraph of the body, of a cell of a table of the body, and of a content
/// control of the body is among the paragraphs of the document.
pub proof fn law_paragraphs_of_tables_and_controls_are_found(
    input: LayoutInput,
    paragraph: Paragraph,
    b: int,
    r: int,
    c: int,
    k: int,
)
    ensures
        ({
            let body = input.document.body@;
            let found = crate::visit::document_paragraphs(input).contains(paragraph);
            &&& 0 <= b < body.len() && body[b] == BodyContent::Paragraph(paragraph) ==> found
            &&& stands_in_cell(body, paragraph, b, r, c, k) ==> found
            &&& 0 <= b < body.len() && body[b] is ContentControl && 0 <= k
                < body[b]->ContentControl_0.content@.len() && body[b]->ContentControl_0.content@[k]
                == ControlContent::Paragraph(paragraph) ==> found
        }),
{
    let body = input.document.body@;
    let all = crate::visit::document_paragraphs(input);
    let parts = Seq::new(body.len(), |i: int| body_piece(body[i]));
    lemma_body_turns(body, body.len());
    if 0 <= b < body.len() {
        match body[b] {
            BodyContent::Paragraph(own) => {
                if own == paragraph {
                    assert(parts[b][0] == paragraph);
                    lemma_in_turn(all, parts, b, paragraph);
                }
            },
            BodyContent::Table(table) => {
                if stands_in_cell(body, paragraph, b, r, c, k) {
                    let row = table.rows@[r];
                    let cell = row.cells@[c];
                    let pieces = Seq::new(cell.content@.len(), |i: int| cell_piece(cell.content@[i]));
                    lemma_cell_turns(cell, cell.content@.len());
                    assert(pieces[k][0] == paragraph);
                    lemma_in_turn(crate::visit::cell_paragraphs(cell), pieces, k, paragraph);
                    let n = row.content_controls@.len();
                    lemma_row_turns(row);
                    assert(row_parts(row)[n + c] == crate::visit::cell_paragraphs(cell));
                    lemma_in_turn(
                        crate::visit::row_paragraphs(row),
                        row_parts(row),
                        n + c,
                        paragraph,
                    );
                    let m = table.content_controls@.len();
                    lemma_table_turns(table);
                    assert(table_parts(table)[m + r] == crate::visit::row_paragraphs(row));
                    lemma_in_turn(
                        crate::visit::table_paragraphs(table),
                        table_parts(table),
                        m + r,
                        paragraph,
                    );
                    assert(parts[b] == crate::visit::table_paragraphs(table));
                    lemma_in_turn(all, parts, b, paragraph);
                }
            },
            BodyContent::ContentControl(control) => {
                if 0 <= k < control.content@.len() && control.content@[k]
                    == ControlContent::Paragraph(paragraph) {
                    let pieces = Seq::new(
                        control.content@.len(),
                        |i: int| control_piece(control.content@[i]),
                    );
                    lemma_control_turns(control, control.content@.len());
                    assert(pieces[k][0] == paragraph);
                    lemma_in_turn(
                        crate::visit::control_paragraphs(control),
                        pieces,
                        k,
                        paragraph,
                    );
                    assert(parts[b] == crate::visit::control_paragraphs(control));
                    lemma_in_turn(all, parts, b, paragraph);
                }
            },
            BodyContent::RawXml => {},
        }
    }
}

proof fn lemma_run_asks(run: crate::document::Run, c: int, name: Seq<char>, n: nat)
    requires
        0 <= c < n <= run.content@.len(),
        crate::bookmark::page_ref_name(run.content@[c]) == Some(name),
    ensures
        crate::bookmark::run_refs(run, n).contains(name),
    decreases n,
{
    let before = crate::bookmark::run_refs(run, (n - 1) as nat);
    let all = crate::bookmark::run_refs(run, n);
    if c < n - 1 {
        lemma_run_asks(run, c, name, (n - 1) as nat);
        let i = choose|i: int| 0 <= i < before.len() && before[i] == name;
        assert(all[i] == name);
    } else {
        assert(all[before.len() as int] == name);
    }
}

proof fn lemma_runs_ask(
    runs: Seq<crate::revision::ProjectedRunView>,
    k: int,
    name: Seq<char>,
    n: nat,
)
    requires
        0 <= k < n <= runs.len(),
        crate::bookmark::run_refs(runs[k].run, runs[k].run.content@.len()).contains(name),
    ensures
        crate::bookmark::projected_refs(runs, n).contains(name),
    decreases n,
{
    let before = crate::bookmark::projected_refs(runs, (n - 1) as nat);
    let here = crate::bookmark::run_refs(runs[n - 1].run, runs[n - 1].run.content@.len());
    let all = crate::bookmark::projected_refs(runs, n);
    assert(all == before + here);
    if k < n - 1 {
        lemma_runs_ask(runs, k, name, (n - 1) as nat);
        let i = choose|i: int| 0 <= i < before.len() && before[i] == name;
        assert(all[i] == name);
    } else {
        let i = choose|i: int| 0 <= i < here.len() && here[i] == name;
        assert(all[before.len() + i] == name);
    }
}

proof fn lemma_paragraphs_ask(
    paragraphs: Seq<Paragraph>,
    view: crate::document::RevisionView,
    i: int,
    name: Seq<char>,
    n: nat,
)
    requires
        0 <= i < n <= paragraphs.len(),
        crate::bookmark::paragraph_refs(paragraphs[i], view).contains(name),
    ensures
        crate::bookmark::paragraphs_refs(paragraphs, view, n).contains(name),
    decreases n,
{
    let before = crate::bookmark::paragraphs_refs(paragraphs, view, (n - 1) as nat);
    let here = crate::bookmark::paragraph_refs(paragraphs[n - 1], view);
    let all = crate::bookmark::paragraphs_refs(paragraphs, view, n);
    assert(all == before + here);
    if i < n - 1 {
        lemma_paragraphs_ask(paragraphs, view, i, name, (n - 1) as nat);
        let k = choose|k: int| 0 <= k < before.len() && before[k] == name;
        assert(all[k] == name);
    } else {
        let k = choose|k: int| 0 <= k < here.len() && here[k] == name;
        assert(all[before.len() + k] == name);
    }
}

/// Every page reference in a run that the view shows, in any paragraph of the
/// document, has a number.
pub proof fn law_every_page_reference_has_a_number(
    input: LayoutInput,
    paragraph: Paragraph,
    k: int,
    c: int,
    field: Field,
    name: Seq<char>,
)
    requires
        crate::visit::document_paragraphs(input).contains(paragraph),
        0 <= k < crate::revision::projection(paragraph, input.revision_view).len(),
        ({
            let run = crate::revision::projection(paragraph, input.revision_view)[k].run;
            0 <= c < run.content@.len() && run.content@[c] == RunContent::Field(field)
        }),
        field.name@ == "PAGEREF"@,
        field.arguments@.len() > 0,
        match field.arguments@[0] {
            FieldArgument::Text(text) => text@ == name,
            FieldArgument::Nested => false,
        },
    ensures
        crate::bookmark::page_ref_of(input, name) is Some,
{
    let view = input.revision_view;
    let runs = crate::revision::projection(paragraph, view);
    let all = crate::visit::document_paragraphs(input);
    let i = choose|i: int| 0 <= i < all.len() && all[i] == paragraph;
    lemma_run_asks(runs[k].run, c, name, runs[k].run.content@.len());
    lemma_runs_ask(runs, k, name, runs.len());
    lemma_paragraphs_ask(all, view, i, name, all.len());
    crate::bookmark::law_page_references_are_numbered_apart(input, name, name);
}

/// Whether a piece of a run is a page reference to a name.
pub open spec fn asks_for(content: RunContent, name: Seq<char>) -> bool {
    match content {
        RunContent::Field(field) => field.name@ == "PAGEREF"@ && field.arguments@.len() > 0
            && match field.arguments@[0] {
            FieldArgument::Text(text) => text@ == name,
            FieldArgument::Nested => false,
        },
        _ => false,
    }
}

proof fn lemma_run_asks_not(run: crate::document::Run, name: Seq<char>, n: nat)
    requires
        n <= run.content@.len(),
        forall|c: int| 0 <= c < run.content@.len() ==> !asks_for(#[trigger] run.content@[c], name),
    ensures
        !crate::bookmark::run_refs(run, n).contains(name),
    decreases n,
{
    if n > 0 {
        lemma_run_asks_not(run, name, (n - 1) as nat);
        assert(!asks_for(run.content@[n - 1], name));
        let before = crate::bookmark::run_refs(run, (n - 1) as nat);
        let all = crate::bookmark::run_refs(run, n);
        if all.contains(name) {
            let i = choose|i: int| 0 <= i < all.len() && all[i] == name;
            if i < before.len() {
                assert(before[i] == name);
            }
        }
    }
}

/// Whether no run that a view shows of a paragraph asks for the page of a name.
pub open spec fn asks_nowhere(
    paragraph: Paragraph,
    view: crate::document::RevisionView,
    name: Seq<char>,
) -> bool {
    let runs = crate::revision::projection(paragraph, view);
    forall|k: int, c: int|
        0 <= k < runs.len() && 0 <= c < runs[k].run.content@.len() ==> !asks_for(
            #[trigger] runs[k].run.content@[c],
            name,
        )
}

proof fn lemma_runs_ask_not(
    runs: Seq<crate::revision::ProjectedRunView>,
    name: Seq<char>,
    n: nat,
)
    requires
        n <= runs.len(),
        forall|k: int, c: int|
            0 <= k < runs.len() && 0 <= c < runs[k].run.content@.len() ==> !asks_for(
                #[trigger] runs[k].run.content@[c],
                name,
            ),
    ensures
        !crate::bookmark::projected_refs(runs, n).contains(name),
    decreases n,
{
    if n > 0 {
        lemma_runs_ask_not(runs, name, (n - 1) as nat);
        lemma_run_asks_not(runs[n - 1].run, name, runs[n - 1].run.content@.len());
        let before = crate::bookmark::projected_refs(runs, (n - 1) as nat);
        let here = crate::bookmark::run_refs(runs[n - 1].run, runs[n - 1].run.content@.len());
        let all = crate::bookmark::projected_refs(runs, n);
        assert(all == before + here);
        if all.contains(name) {
            let i = choose|i: int| 0 <= i < all.len() && all[i] == name;
            if i < before.len() {
                assert(before[i] == name);
            } else {
                assert(here[i - before.len()] == name);
            }
        }
    }
}

proof fn lemma_paragraphs_ask_not(
    paragraphs: Seq<Paragraph>,
    view: crate::document::RevisionView,
    name: Seq<char>,
    n: nat,
)
    requires
        n <= paragraphs.len(),
        forall|i: int|
            0 <= i < paragraphs.len() ==> asks_nowhere(#[trigger] paragraphs[i], view, name),
    ensures
        !crate::bookmark::paragraphs_refs(paragraphs, view, n).contains(name),
    decreases n,
{
    if n > 0 {
        lemma_paragraphs_ask_not(paragraphs, view, name, (n - 1) as nat);
        assert(asks_nowhere(paragraphs[n - 1], view, name));
        let runs = crate::revision::projection(paragraphs[n - 1], view);
        lemma_runs_ask_not(runs, name, runs.len());
        let before = crate::bookmark::paragraphs_refs(paragraphs, view, (n - 1) as nat);
        let here = crate::bookmark::paragraph_refs(paragraphs[n - 1], view);
        let all = crate::bookmark::paragraphs_refs(paragraphs, view, n);
        assert(all == before + here);
        if all.contains(name) {
            let i = choose|i: int| 0 <= i < all.len() && all[i] == name;
            if i < before.len() {
                assert(before[i] == name);
            } else {
                assert(here[i - before.len()] == name);
            }
        }
    }
}

/// A bookmark that no page reference of the document names has no number.
pub proof fn law_only_page_references_give_numbers(input: LayoutInput, name: Seq<char>)
    requires
        forall|i: int|
            0 <= i < crate::visit::document_paragraphs(input).len() ==> asks_nowhere(
                #[trigger] crate::visit::document_paragraphs(input)[i],
                input.revision_view,
                name,
            ),
    ensures
        crate::bookmark::page_ref_of(input, name) is None,
{
    let all = crate::visit::document_paragraphs(input);
    lemma_paragraphs_ask_not(all, input.revision_view, name, all.len());
    crate::bookmark::law_page_references_are_numbered_apart(input, name, name);
}

} // verus!
