//! The paragraphs of a document, wherever they stand in it.

use vstd::prelude::*;

use crate::document::{
    BodyContent, Cell, CellContent, ContentControl, ControlContent, LayoutInput, Paragraph, Row,
    Table,
};

verus! {

/// The paragraphs that references point to.
pub open spec fn referenced(paragraphs: Seq<&Paragraph>) -> Seq<Paragraph> {
    paragraphs.map_values(|paragraph: &Paragraph| *paragraph)
}

/// The paragraphs of a content control.
pub open spec fn control_paragraphs(control: ContentControl) -> Seq<Paragraph>
    decreases control, 1nat, 0nat,
{
    control_prefix(control, control.content@.len())
}

/// The paragraphs of the first `n` pieces of a content control.
pub open spec fn control_prefix(control: ContentControl, n: nat) -> Seq<Paragraph>
    decreases control, 0nat, n,
{
    if n == 0 || n > control.content@.len() {
        Seq::empty()
    } else {
        control_prefix(control, (n - 1) as nat) + match control.content@[n - 1] {
            ControlContent::Paragraph(paragraph) => seq![paragraph],
            ControlContent::Table(table) => table_paragraphs(table),
            ControlContent::Row(row) => row_paragraphs(row),
            ControlContent::Cell(cell) => cell_paragraphs(cell),
            ControlContent::ContentControl(inner) => control_paragraphs(inner),
            ControlContent::Run(_) => Seq::empty(),
            ControlContent::RawXml => Seq::empty(),
        }
    }
}

/// The paragraphs of a table: those of its content controls, then those of its
/// rows.
pub open spec fn table_paragraphs(table: Table) -> Seq<Paragraph>
    decreases table, 1nat, 0nat,
{
    table_controls(table, table.content_controls@.len()) + table_rows(table, table.rows@.len())
}

/// The paragraphs of the first `n` content controls of a table.
pub open spec fn table_controls(table: Table, n: nat) -> Seq<Paragraph>
    decreases table, 0nat, n,
{
    if n == 0 || n > table.content_controls@.len() {
        Seq::empty()
    } else {
        table_controls(table, (n - 1) as nat) + control_paragraphs(table.content_controls@[n - 1])
    }
}

/// The paragraphs of the first `n` rows of a table.
pub open spec fn table_rows(table: Table, n: nat) -> Seq<Paragraph>
    decreases table, 0nat, n,
{
    if n == 0 || n > table.rows@.len() {
        Seq::empty()
    } else {
        table_rows(table, (n - 1) as nat) + row_paragraphs(table.rows@[n - 1])
    }
}

/// The paragraphs of a row: those of its content controls, then those of its
/// cells.
pub open spec fn row_paragraphs(row: Row) -> Seq<Paragraph>
    decreases row, 1nat, 0nat,
{
    row_controls(row, row.content_controls@.len()) + row_cells(row, row.cells@.len())
}

/// The paragraphs of the first `n` content controls of a row.
pub open spec fn row_controls(row: Row, n: nat) -> Seq<Paragraph>
    decreases row, 0nat, n,
{
    if n == 0 || n > row.content_controls@.len() {
        Seq::empty()
    } else {
        row_controls(row, (n - 1) as nat) + control_paragraphs(row.content_controls@[n - 1])
    }
}

/// The paragraphs of the first `n` cells of a row.
pub open spec fn row_cells(row: Row, n: nat) -> Seq<Paragraph>
    decreases row, 0nat, n,
{
    if n == 0 || n > row.cells@.len() {
        Seq::empty()
    } else {
        row_cells(row, (n - 1) as nat) + cell_paragraphs(row.cells@[n - 1])
    }
}

/// The paragraphs of a cell.
pub open spec fn cell_paragraphs(cell: Cell) -> Seq<Paragraph>
    decreases cell, 1nat, 0nat,
{
    cell_prefix(cell, cell.content@.len())
}

/// The paragraphs of the first `n` pieces of a cell.
pub open spec fn cell_prefix(cell: Cell, n: nat) -> Seq<Paragraph>
    decreases cell, 0nat, n,
{
    if n == 0 || n > cell.content@.len() {
        Seq::empty()
    } else {
        cell_prefix(cell, (n - 1) as nat) + match cell.content@[n - 1] {
            CellContent::Paragraph(paragraph) => seq![paragraph],
            CellContent::Table(table) => table_paragraphs(table),
            CellContent::ContentControl(control) => control_paragraphs(control),
        }
    }
}

/// The paragraphs of a piece of the document body.
pub open spec fn body_paragraphs(content: BodyContent) -> Seq<Paragraph> {
    match content {
        BodyContent::Paragraph(paragraph) => seq![paragraph],
        BodyContent::Table(table) => table_paragraphs(table),
        BodyContent::ContentControl(control) => control_paragraphs(control),
        BodyContent::RawXml => Seq::empty(),
    }
}

/// The paragraphs of the first `n` pieces of the document body.
pub open spec fn body_prefix(body: Seq<BodyContent>, n: nat) -> Seq<Paragraph>
    decreases n,
{
    if n == 0 || n > body.len() {
        Seq::empty()
    } else {
        body_prefix(body, (n - 1) as nat) + body_paragraphs(body[n - 1])
    }
}

/// The paragraphs of a document, in document order, those inside tables and
/// content controls among them.
pub open spec fn document_paragraphs(input: LayoutInput) -> Seq<Paragraph> {
    body_prefix(input.document.body@, input.document.body@.len())
}

/// One more reference leads to one more paragraph.
proof fn lemma_referenced_push<'a>(paragraphs: Seq<&'a Paragraph>, paragraph: &'a Paragraph)
    ensures
        referenced(paragraphs.push(paragraph)) == referenced(paragraphs) + seq![*paragraph],
{
    assert(referenced(paragraphs.push(paragraph)) =~= referenced(paragraphs) + seq![*paragraph]);
}

/// Adds the paragraphs of a content control to a list.
pub fn visit_control_paragraphs<'a>(control: &'a ContentControl, found: &mut Vec<&'a Paragraph>)
    ensures
        referenced(final(found)@) == referenced(old(found)@) + control_paragraphs(*control),
    decreases *control,
{
    let ghost before = referenced(found@);
    let mut i: usize = 0;
    proof {
        assert(before + control_prefix(*control, 0) =~= before);
    }
    while i < control.content.len()
        invariant
            i <= control.content@.len(),
            referenced(found@) == before + control_prefix(*control, i as nat),
        decreases control.content@.len() - i,
    {
        let content = &control.content[i];
        proof {
            assert(decreases_to!(*control => control.content@[i as int]));
        }
        match content {
            ControlContent::Paragraph(paragraph) => {
                proof {
                    lemma_referenced_push(found@, paragraph);
                }
                found.push(paragraph);
            },
            ControlContent::Table(table) => visit_table_paragraphs(table, found),
            ControlContent::Row(row) => visit_row_paragraphs(row, found),
            ControlContent::Cell(cell) => visit_cell_paragraphs(cell, found),
            ControlContent::ContentControl(inner) => visit_control_paragraphs(inner, found),
            ControlContent::Run(_) => {},
            ControlContent::RawXml => {},
        }
        proof {
            assert(referenced(found@) =~= before + control_prefix(*control, (i + 1) as nat));
        }
        i += 1;
    }
}

/// Adds the paragraphs of a table to a list.
pub fn visit_table_paragraphs<'a>(table: &'a Table, found: &mut Vec<&'a Paragraph>)
    ensures
        referenced(final(found)@) == referenced(old(found)@) + table_paragraphs(*table),
    decreases *table,
{
    let ghost before = referenced(found@);
    let mut i: usize = 0;
    proof {
        assert(before + table_controls(*table, 0) =~= before);
    }
    while i < table.content_controls.len()
        invariant
            i <= table.content_controls@.len(),
            referenced(found@) == before + table_controls(*table, i as nat),
        decreases table.content_controls@.len() - i,
    {
        let control = &table.content_controls[i];
        proof {
            assert(decreases_to!(*table => table.content_controls@[i as int]));
        }
        visit_control_paragraphs(control, found);
        proof {
            assert(referenced(found@) =~= before + table_controls(*table, (i + 1) as nat));
        }
        i += 1;
    }
    let ghost middle = referenced(found@);
    let mut j: usize = 0;
    proof {
        assert(middle + table_rows(*table, 0) =~= middle);
    }
    while j < table.rows.len()
        invariant
            j <= table.rows@.len(),
            referenced(found@) == middle + table_rows(*table, j as nat),
        decreases table.rows@.len() - j,
    {
        let row = &table.rows[j];
        proof {
            assert(decreases_to!(*table => table.rows@[j as int]));
        }
        visit_row_paragraphs(row, found);
        proof {
            assert(referenced(found@) =~= middle + table_rows(*table, (j + 1) as nat));
        }
        j += 1;
    }
    proof {
        assert(referenced(found@) =~= before + table_paragraphs(*table));
    }
}

/// Adds the paragraphs of a row to a list.
pub fn visit_row_paragraphs<'a>(row: &'a Row, found: &mut Vec<&'a Paragraph>)
    ensures
        referenced(final(found)@) == referenced(old(found)@) + row_paragraphs(*row),
    decreases *row,
{
    let ghost before = referenced(found@);
    let mut i: usize = 0;
    proof {
        assert(before + row_controls(*row, 0) =~= before);
    }
    while i < row.content_controls.len()
        invariant
            i <= row.content_controls@.len(),
            referenced(found@) == before + row_controls(*row, i as nat),
        decreases row.content_controls@.len() - i,
    {
        let control = &row.content_controls[i];
        proof {
            assert(decreases_to!(*row => row.content_controls@[i as int]));
        }
        visit_control_paragraphs(control, found);
        proof {
            assert(referenced(found@) =~= before + row_controls(*row, (i + 1) as nat));
        }
        i += 1;
    }
    let ghost middle = referenced(found@);
    let mut j: usize = 0;
    proof {
        assert(middle + row_cells(*row, 0) =~= middle);
    }
    while j < row.cells.len()
        invariant
            j <= row.cells@.len(),
            referenced(found@) == middle + row_cells(*row, j as nat),
        decreases row.cells@.len() - j,
    {
        let cell = &row.cells[j];
        proof {
            assert(decreases_to!(*row => row.cells@[j as int]));
        }
        visit_cell_paragraphs(cell, found);
        proof {
            assert(referenced(found@) =~= middle + row_cells(*row, (j + 1) as nat));
        }
        j += 1;
    }
    proof {
        assert(referenced(found@) =~= before + row_paragraphs(*row));
    }
}

/// Adds the paragraphs of a cell to a list.
pub fn visit_cell_paragraphs<'a>(cell: &'a Cell, found: &mut Vec<&'a Paragraph>)
    ensures
        referenced(final(found)@) == referenced(old(found)@) + cell_paragraphs(*cell),
    decreases *cell,
{
    let ghost before = referenced(found@);
    let mut i: usize = 0;
    proof {
        assert(before + cell_prefix(*cell, 0) =~= before);
    }
    while i < cell.content.len()
        invariant
            i <= cell.content@.len(),
            referenced(found@) == before + cell_prefix(*cell, i as nat),
        decreases cell.content@.len() - i,
    {
        let content = &cell.content[i];
        proof {
            assert(decreases_to!(*cell => cell.content@[i as int]));
        }
        match content {
            CellContent::Paragraph(paragraph) => {
                proof {
                    lemma_referenced_push(found@, paragraph);
                }
                found.push(paragraph);
            },
            CellContent::Table(table) => visit_table_paragraphs(table, found),
            CellContent::ContentControl(control) => visit_control_paragraphs(control, found),
        }
        proof {
            assert(referenced(found@) =~= before + cell_prefix(*cell, (i + 1) as nat));
        }
        i += 1;
    }
}

/// The paragraphs of a document, in document order, those inside tables and
/// content controls among them.
pub fn visit_document_paragraphs<'a>(input: &'a LayoutInput) -> (found: Vec<&'a Paragraph>)
    ensures
        referenced(found@) == document_paragraphs(*input),
{
    let mut found: Vec<&'a Paragraph> = Vec::new();
    let mut i: usize = 0;
    proof {
        assert(referenced(found@) =~= body_prefix(input.document.body@, 0));
    }
    while i < input.document.body.len()
        invariant
            i <= input.document.body@.len(),
            referenced(found@) == body_prefix(input.document.body@, i as nat),
        decreases input.document.body@.len() - i,
    {
        let content = &input.document.body[i];
        match content {
            BodyContent::Paragraph(paragraph) => {
                proof {
                    lemma_referenced_push(found@, paragraph);
                }
                found.push(paragraph);
            },
            BodyContent::Table(table) => visit_table_paragraphs(table, &mut found),
            BodyContent::ContentControl(control) => visit_control_paragraphs(control, &mut found),
            BodyContent::RawXml => {},
        }
        proof {
            assert(referenced(found@) =~= body_prefix(input.document.body@, (i + 1) as nat));
        }
        i += 1;
    }
    found
}

} // verus!
