use rdocx_layout::document::{
    BodyContent, BookmarkMarker, BreakType, Cell, CellContent, ChartId, ChartPart, ContentControl,
    ControlContent, DisplaySegment, Drawing, Field, FieldArgument, InlineDrawing, LayoutInput,
    LevelSuffix, ListMarker, NumberingLevel, Paragraph, ParagraphFormat, ParagraphProperties, Row,
    Run, RunContent, RunProperties, SegmentProperties, Table, Theme,
};
use rdocx_layout::bookmark::page_ref_id;
use rdocx_layout::color::Color;
use rdocx_layout::drawing::settle_diagnostics;
use rdocx_layout::field::FieldValue;
use rdocx_layout::flow::{flow_items, FlowItem};
use rdocx_layout::pages::{
    apply_page_background, bookmark_pages, field_values, substitute_fields, GlyphRun, PageFrame,
    PositionedElement, Rect, ShapedText,
};
use rdocx_layout::paragraph::{layout_paragraph, ParagraphBlock};
use rdocx_layout::plan::{ChartSource, Diagnostic, FieldKind, InlineItem, NoteRef, NoteStream, ParagraphPlan, TextItem};
use rdocx_layout::segments::TextSegment;
use rdocx_layout::style::resolve_font_family;
use rdocx_layout::units::{Emu, HalfPoint, TextUnit, Twips};
use rdocx_layout::visit::visit_document_paragraphs;

const WIDTH: Emu = Emu(468 * 12_700);

fn field(name: &str, argument: Option<&str>, display: &str) -> Field {
    Field {
        name: name.to_owned(),
        arguments: argument
            .map(|text| FieldArgument::Text(text.to_owned()))
            .into_iter()
            .collect(),
        display: vec![DisplaySegment { text: display.to_owned(), properties: None }],
        projected_text: Some(display.to_owned()),
    }
}

fn field_run(field: Field) -> Run {
    Run { content: vec![RunContent::Field(field)], ..Run::new("") }
}

fn cross_reference_run(name: &str, display: &str) -> Run {
    field_run(field("PAGEREF", Some(name), display))
}

fn target_paragraph(targets: &[(i32, &str, usize, usize)], text: &str, hidden: bool) -> Paragraph {
    let mut run = Run::new(text);
    if hidden {
        run.properties = Some(RunProperties { vanish: Some(true), ..Default::default() });
    }
    let mut paragraph = Paragraph {
        properties: Some(ParagraphProperties {
            format: ParagraphFormat { page_break_before: Some(true), ..Default::default() },
            ..Default::default()
        }),
        ..Paragraph::of_runs(vec![run])
    };
    for (id, name, start, end) in targets {
        for (is_start, run_index) in [(true, *start), (false, *end)] {
            let raw_before = paragraph
                .bookmark_markers
                .iter()
                .filter(|marker| marker.run_index == run_index)
                .count();
            paragraph.bookmark_markers.push(BookmarkMarker {
                is_start,
                id: Some(*id),
                name: is_start.then(|| (*name).to_owned()),
                run_index,
                raw_before,
            });
        }
    }
    paragraph
}

fn input_of(paragraphs: Vec<Paragraph>) -> LayoutInput {
    LayoutInput::of_body(paragraphs.into_iter().map(BodyContent::Paragraph).collect())
}

fn lay_out(input: &LayoutInput, paragraph: &Paragraph) -> ParagraphBlock {
    layout_paragraph(paragraph, WIDTH, input, &mut Vec::new())
}

fn text_items(block: &ParagraphBlock) -> Vec<&TextItem> {
    block
        .items
        .iter()
        .filter_map(|item| match item {
            InlineItem::Text(text) | InlineItem::Whole(text) | InlineItem::Marker(text) => Some(text),
            _ => None,
        })
        .collect()
}

/// One glyph for each character, as wide as its code.
fn shape(text: &str) -> ShapedText<u32> {
    ShapedText {
        glyph_ids: text.chars().map(|c| c as u16).collect(),
        advances: text.chars().map(u32::from).collect(),
    }
}

/// Pages with one paragraph each, with the fields filled in.
fn finished_pages(input: &LayoutInput) -> Vec<PageFrame<u32>> {
    let mut pages: Vec<PageFrame<u32>> = visit_document_paragraphs(input)
        .into_iter()
        .enumerate()
        .map(|(index, paragraph)| {
            let block = lay_out(input, paragraph);
            PageFrame {
                page_number: index + 1,
                width: 612,
                height: 792,
                elements: text_items(&block)
                    .into_iter()
                    .map(|item| {
                        let shaped = shape(&item.text);
                        PositionedElement::Text(GlyphRun {
                            text: item.text.clone(),
                            glyph_ids: shaped.glyph_ids,
                            advances: shaped.advances,
                            field_kind: item.field,
                            style: item.style as u32,
                        })
                    })
                    .collect(),
            }
        })
        .collect();
    let found = bookmark_pages(&pages);
    let total = pages.len();
    for page in &mut pages {
        let number = page.page_number;
        let values = field_values(&page.elements, number, total, &found);
        let shapes = values.iter().map(|value| Some(shape(&value.text))).collect();
        substitute_fields(&mut page.elements, number, total, &found, shapes);
    }
    pages
}

fn output_text(pages: &[PageFrame<u32>]) -> Vec<String> {
    pages
        .iter()
        .flat_map(|page| &page.elements)
        .filter_map(|element| match element {
            PositionedElement::Text(run) => Some(run.text.clone()),
            _ => None,
        })
        .collect()
}

#[test]
fn an_unsupported_complex_field_keeps_its_cached_display() {
    let input = input_of(vec![Paragraph::of_runs(vec![field_run(field(
        "DATE",
        None,
        "17 August 2026",
    ))])]);
    let text = output_text(&finished_pages(&input));
    assert!(text.concat().contains("17 August 2026"), "{text:?}");
}

fn stored(text: &str, direct: RunProperties) -> DisplaySegment {
    DisplaySegment {
        text: text.to_owned(),
        properties: Some(SegmentProperties { style: RunProperties::default(), direct }),
    }
}

#[test]
fn a_complex_field_keeps_each_cached_result_runs_formatting() {
    let date = Field {
        display: vec![
            stored("bold", RunProperties { bold: Some(true), ..Default::default() }),
            stored("italic", RunProperties { italic: Some(true), ..Default::default() }),
        ],
        ..field("DATE", None, "")
    };
    let input = input_of(vec![Paragraph::of_runs(vec![field_run(date)])]);
    let block = lay_out(&input, visit_document_paragraphs(&input)[0]);
    let displays: Vec<(String, bool, bool)> = text_items(&block)
        .into_iter()
        .map(|item| {
            let font = &block.fonts[block.styles[item.style].font];
            (item.text.clone(), font.bold, font.italic)
        })
        .collect();
    assert_eq!(
        displays,
        vec![("bold".to_owned(), true, false), ("italic".to_owned(), false, true)]
    );
}

#[test]
fn a_computed_complex_field_keeps_its_cached_result_run_formatting() {
    let page = Field {
        display: vec![stored(
            "edited stored value",
            RunProperties { bold: Some(true), italic: Some(true), ..Default::default() },
        )],
        ..field("PAGE", None, "")
    };
    let input = input_of(vec![Paragraph::of_runs(vec![field_run(page)])]);
    let block = lay_out(&input, visit_document_paragraphs(&input)[0]);
    let pages = finished_pages(&input);
    let displays: Vec<(bool, bool)> = pages[0]
        .elements
        .iter()
        .filter_map(|element| match element {
            PositionedElement::Text(run) if run.text == "1" => {
                let font = &block.fonts[block.styles[run.style as usize].font];
                Some((font.bold, font.italic))
            }
            _ => None,
        })
        .collect();
    assert_eq!(displays, vec![(true, true)]);
}

fn table_of(paragraph: Paragraph) -> Table {
    Table {
        content_controls: Vec::new(),
        rows: vec![Row {
            content_controls: Vec::new(),
            cells: vec![Cell { content: vec![CellContent::Paragraph(paragraph)] }],
        }],
    }
}

#[test]
fn a_pageref_inside_a_table_uses_the_final_target_page() {
    let reference = Paragraph::of_runs(vec![cross_reference_run("destination", "cached")]);
    let input = LayoutInput::of_body(vec![
        BodyContent::Table(table_of(reference)),
        BodyContent::Paragraph(target_paragraph(&[(4, "destination", 0, 1)], "target", false)),
    ]);
    let text = output_text(&finished_pages(&input));
    assert!(text.iter().any(|value| value == "2"), "{text:?}");
    assert!(!text.iter().any(|value| value == "cached"), "{text:?}");
}

#[test]
fn a_resolved_pageref_uses_a_fixed_pagination_placeholder() {
    let build = |display: &str| {
        input_of(vec![
            Paragraph::of_runs(vec![cross_reference_run("destination", display)]),
            target_paragraph(&[(4, "destination", 0, 1)], "target", false),
        ])
    };
    let short = build("7");
    let long = build(&"stale display ".repeat(1000));
    let items = |input: &LayoutInput| lay_out(input, visit_document_paragraphs(input)[0]).items;
    assert_eq!(items(&short), items(&long));
    assert_eq!(finished_pages(&short).len(), finished_pages(&long).len());
    assert_eq!(output_text(&finished_pages(&short)), output_text(&finished_pages(&long)));
}

#[test]
fn every_target_at_a_paragraph_end_is_retained() {
    let input = input_of(vec![
        Paragraph::of_runs(vec![
            cross_reference_run("first", "cached"),
            cross_reference_run("second", "cached"),
        ]),
        target_paragraph(&[(4, "first", 1, 1), (5, "second", 1, 1)], "target", false),
    ]);
    let text = output_text(&finished_pages(&input));
    assert_eq!(text.iter().filter(|value| value.as_str() == "2").count(), 2, "{text:?}");
}

#[test]
fn a_target_before_hidden_text_is_retained() {
    let input = input_of(vec![
        Paragraph::of_runs(vec![cross_reference_run("destination", "cached")]),
        target_paragraph(&[(4, "destination", 0, 1)], "hidden target", true),
    ]);
    let text = output_text(&finished_pages(&input));
    assert!(text.iter().any(|value| value == "2"), "{text:?}");
    assert!(!text.iter().any(|value| value == "cached"), "{text:?}");
    assert!(!text.iter().any(|value| value == "hidden target"), "{text:?}");
}

#[test]
fn page_references_are_numbered_in_the_order_of_first_use() {
    let control = ContentControl {
        content: vec![
            ControlContent::RawXml,
            ControlContent::Run(cross_reference_run("unseen", "")),
            ControlContent::Paragraph(Paragraph::of_runs(vec![cross_reference_run("c", "")])),
            ControlContent::ContentControl(ContentControl {
                content: vec![ControlContent::Cell(Cell {
                    content: vec![CellContent::Paragraph(Paragraph::of_runs(vec![
                        cross_reference_run("d", ""),
                    ]))],
                })],
            }),
        ],
    };
    let mut table = table_of(Paragraph::of_runs(vec![cross_reference_run("b", "")]));
    table.content_controls.push(ContentControl {
        content: vec![ControlContent::Paragraph(Paragraph::of_runs(vec![
            cross_reference_run("a", ""),
            cross_reference_run("b", ""),
        ]))],
    });
    let input = LayoutInput::of_body(vec![
        BodyContent::Table(table),
        BodyContent::ContentControl(control),
    ]);
    // The content controls of a table come before its rows.
    assert_eq!(page_ref_id(&input, "a"), Some(0));
    assert_eq!(page_ref_id(&input, "b"), Some(1));
    assert_eq!(page_ref_id(&input, "c"), Some(2));
    assert_eq!(page_ref_id(&input, "d"), Some(3));
    assert_eq!(page_ref_id(&input, "unseen"), None);
}

#[test]
fn a_reference_shows_the_text_of_its_bookmark() {
    let mut plan = ParagraphPlan::new();
    let input = input_of(vec![target_paragraph(&[(4, "here", 0, 1)], "the text", false)]);
    let evaluate = |field: &Field, plan: &mut ParagraphPlan| {
        rdocx_layout::field::evaluate_field(&input, field, plan)
    };
    assert_eq!(
        evaluate(&field("REF", Some("here"), "old"), &mut plan),
        FieldValue::Computed { text: "the text".to_owned(), kind: None }
    );
    assert_eq!(evaluate(&field("REF", None, "old"), &mut plan), FieldValue::Skipped);
    assert_eq!(evaluate(&field("PAGEREF", None, "old"), &mut plan), FieldValue::Skipped);
    assert!(plan.diagnostics.is_empty());
    assert_eq!(evaluate(&field("REF", Some("gone"), "old"), &mut plan), FieldValue::Stored);
    assert_eq!(evaluate(&field("PAGEREF", Some("gone"), "old"), &mut plan), FieldValue::Stored);
    assert_eq!(
        plan.diagnostics,
        vec![
            Diagnostic::Message(
                "REF target gone was not found, stored display retained".to_owned()
            ),
            Diagnostic::Message(
                "PAGEREF target gone was not found, stored display retained".to_owned()
            ),
        ]
    );
    // No page reference of the document asks for this bookmark.
    assert_eq!(evaluate(&field("PAGEREF", Some("here"), "old"), &mut plan), FieldValue::Stored);
    assert_eq!(
        evaluate(&field("NUMPAGES", None, "old"), &mut plan),
        FieldValue::Computed { text: "99".to_owned(), kind: Some(FieldKind::NumPages) }
    );
    let mut nested = field("REF", None, "old");
    nested.arguments.push(FieldArgument::Nested);
    assert_eq!(evaluate(&nested, &mut plan), FieldValue::Skipped);
}

#[test]
fn control_characters_in_a_field_result_become_items() {
    let result = Field {
        display: vec![
            stored("a\tb\nc", RunProperties::default()),
            stored("\u{b}\u{c}d", RunProperties { caps: Some(true), ..Default::default() }),
            stored("gone", RunProperties { vanish: Some(true), ..Default::default() }),
        ],
        ..field("DATE", None, "")
    };
    let input = input_of(vec![Paragraph::of_runs(vec![field_run(result)])]);
    let block = lay_out(&input, visit_document_paragraphs(&input)[0]);
    let shown: Vec<String> = block
        .items
        .iter()
        .map(|item| match item {
            InlineItem::Text(text) => text.text.clone(),
            InlineItem::Tab => "<tab>".to_owned(),
            InlineItem::LineBreak => "<line>".to_owned(),
            InlineItem::PageBreak => "<page>".to_owned(),
            InlineItem::ColumnBreak => "<column>".to_owned(),
            other => panic!("unexpected {other:?}"),
        })
        .collect();
    assert_eq!(shown, ["a", "<tab>", "b", "<line>", "c", "<column>", "<page>", "D"]);
}

fn styled(text: &str, properties: RunProperties) -> Run {
    Run { properties: Some(properties), ..Run::new(text) }
}

#[test]
fn text_is_raised_and_shrunk_exactly() {
    let place = |name: &str| RunProperties {
        sz: Some(HalfPoint(24)),
        vert_align: Some(name.to_owned()),
        position: Some(3),
        ..Default::default()
    };
    let mut superscript = styled("up", place("superscript"));
    superscript.content.push(RunContent::FootnoteRef { id: -7 });
    let input = input_of(vec![Paragraph::of_runs(vec![
        Run::new("plain"),
        superscript,
        styled("down", place("subscript")),
        styled("line", place("baseline")),
    ])]);
    let block = lay_out(&input, visit_document_paragraphs(&input)[0]);
    let look: Vec<(String, TextUnit, TextUnit)> = text_items(&block)
        .into_iter()
        .map(|item| {
            let style = &block.styles[item.style];
            (item.text.clone(), style.size, style.baseline_offset)
        })
        .collect();
    let expected = [
        // 11 points; 12 points, of which 58, 33 and 14 percent are taken, and a
        // point and a half.
        ("plain", 220_000, 0),
        ("up", 139_200, 79_200 + 30_000),
        // 58 and 33 percent of the size that the run is set in.
        ("-7", 80_736, 45_936),
        ("down", 139_200, -33_600 + 30_000),
        ("line", 240_000, 30_000),
    ];
    let expected: Vec<(String, TextUnit, TextUnit)> = expected
        .into_iter()
        .map(|(text, size, offset)| (text.to_owned(), TextUnit(size), TextUnit(offset)))
        .collect();
    assert_eq!(look, expected);
}

#[test]
fn notes_carry_their_stream_and_their_number() {
    let run = Run {
        content: vec![
            RunContent::FootnoteRef { id: 3 },
            RunContent::EndnoteRef { id: 3 },
            RunContent::CommentReference { id: 3 },
        ],
        properties: Some(RunProperties { strike: Some(true), ..Default::default() }),
        ..Run::new("")
    };
    let input = input_of(vec![Paragraph::of_runs(vec![run])]);
    let block = lay_out(&input, visit_document_paragraphs(&input)[0]);
    let notes: Vec<Option<NoteRef>> = text_items(&block).into_iter().map(|item| item.note).collect();
    assert_eq!(
        notes,
        [
            Some(NoteRef { stream: NoteStream::Footnote, id: 3 }),
            Some(NoteRef { stream: NoteStream::Endnote, id: 3 }),
        ]
    );
    assert!(text_items(&block).iter().all(|item| !block.styles[item.style].strike));
}

#[test]
fn capitals_hidden_text_and_breaks() {
    let broken = Run {
        content: vec![
            RunContent::Text("straße".to_owned()),
            RunContent::Text(String::new()),
            RunContent::Tab,
            RunContent::Break(BreakType::Line),
            RunContent::Break(BreakType::Page),
            RunContent::Break(BreakType::Column),
        ],
        properties: Some(RunProperties { caps: Some(true), ..Default::default() }),
        ..Run::new("")
    };
    let hidden = styled("secret", RunProperties { vanish: Some(true), ..Default::default() });
    let input = input_of(vec![Paragraph::of_runs(vec![broken, hidden])]);
    let block = lay_out(&input, visit_document_paragraphs(&input)[0]);
    assert_eq!(text_items(&block).len(), 1);
    assert_eq!(text_items(&block)[0].text, "STRASSE");
    assert_eq!(
        block.items[1..],
        [InlineItem::Tab, InlineItem::LineBreak, InlineItem::PageBreak, InlineItem::ColumnBreak]
    );
    // One font for the run that is shown, sampled with its own text.
    assert_eq!(block.fonts.len(), 1);
    assert_eq!(block.fonts[0].sample, "straße\t\n\n\n");
}

#[test]
fn an_explicit_font_comes_before_the_theme() {
    let theme = Some(Theme {
        colors: Vec::new(),
        major_font: Some("Major".to_owned()),
        minor_font: Some("Minor".to_owned()),
    });
    let refer = |name: &str| RunProperties {
        font_ascii_theme: Some(name.to_owned()),
        ..Default::default()
    };
    for name in ["majorAscii", "majorHAnsi", "majorBidi", "majorEastAsia"] {
        assert_eq!(resolve_font_family(&refer(name), &theme).as_deref(), Some("Major"));
    }
    for name in ["minorAscii", "minorHAnsi", "minorBidi", "minorEastAsia"] {
        assert_eq!(resolve_font_family(&refer(name), &theme).as_deref(), Some("Minor"));
    }
    assert_eq!(resolve_font_family(&refer("other"), &theme), None);
    assert_eq!(resolve_font_family(&refer("majorAscii"), &None), None);
    let explicit = RunProperties { font_ascii: Some("Own".to_owned()), ..refer("majorAscii") };
    assert_eq!(resolve_font_family(&explicit, &theme).as_deref(), Some("Own"));
    assert_eq!(resolve_font_family(&RunProperties::default(), &theme), None);
}

fn listed(suffix: LevelSuffix, sz: Option<HalfPoint>) -> Paragraph {
    Paragraph {
        properties: Some(ParagraphProperties {
            format: ParagraphFormat { num_id: Some(2), ..Default::default() },
            ..Default::default()
        }),
        text_style: RunProperties { sz: Some(HalfPoint(30)), ..Default::default() },
        marker: Some(ListMarker {
            text: "1.".to_owned(),
            properties: RunProperties { sz, ..Default::default() },
            suffix,
        }),
        ..Paragraph::of_runs(vec![Run::new("item")])
    }
}

#[test]
fn list_markers_come_first_and_levels_give_indents() {
    let level = |ilvl: u32, left: i32| NumberingLevel {
        num_id: 2,
        ilvl,
        format: ParagraphFormat {
            ind_left: Some(Twips(left)),
            ind_hanging: Some(Twips(360)),
            ..Default::default()
        },
    };
    let mut input = input_of(vec![
        listed(LevelSuffix::Tab, None),
        listed(LevelSuffix::Space, Some(HalfPoint(10))),
        listed(LevelSuffix::Nothing, None),
    ]);
    let without = lay_out(&input, visit_document_paragraphs(&input)[0]);
    assert_eq!(text_items(&without).len(), 1);
    assert_eq!(without.marker_items, 0);
    assert_eq!(without.params.ind_left, Twips(0));

    input.numbering = Some(vec![level(1, 1440), level(0, 720)]);
    let paragraphs = visit_document_paragraphs(&input);
    let tabbed = lay_out(&input, paragraphs[0]);
    assert!(matches!(&tabbed.items[0], InlineItem::Marker(text) if text.text == "1."));
    assert_eq!(tabbed.items[1], InlineItem::Tab);
    assert_eq!(tabbed.marker_items, 2);
    assert_eq!(tabbed.styles[0].size, TextUnit(300_000));
    assert_eq!(tabbed.params.ind_left, Twips(720));
    assert_eq!(tabbed.params.ind_hanging, Twips(360));
    let spaced = lay_out(&input, paragraphs[1]);
    assert!(matches!(&spaced.items[1], InlineItem::Whole(text) if text.text == " "));
    assert_eq!(spaced.styles[0].size, TextUnit(100_000));
    let bare = lay_out(&input, paragraphs[2]);
    assert_eq!((spaced.marker_items, bare.marker_items), (2, 1));
    assert!(matches!(&bare.items[1], InlineItem::Text(text) if text.text == "item"));
}

#[test]
fn direct_formatting_beats_the_level_and_the_level_beats_the_style() {
    let mut paragraph = listed(LevelSuffix::Nothing, None);
    paragraph.style = ParagraphFormat {
        ind_left: Some(Twips(1)),
        ind_right: Some(Twips(2)),
        space_after: Some(Twips(3)),
        widow_control: Some(false),
        shading: Some(Some("auto".to_owned())),
        ..Default::default()
    };
    if let Some(properties) = &mut paragraph.properties {
        properties.format.ind_right = Some(Twips(20));
        properties.format.keep_next = Some(true);
    }
    let mut input = input_of(vec![paragraph]);
    input.numbering = Some(vec![NumberingLevel {
        num_id: 2,
        ilvl: 0,
        format: ParagraphFormat {
            ind_left: Some(Twips(10)),
            ind_right: Some(Twips(11)),
            ..Default::default()
        },
    }]);
    let block = lay_out(&input, visit_document_paragraphs(&input)[0]);
    assert_eq!(block.format.ind_left, Twips(10));
    assert_eq!(block.format.ind_right, Twips(20));
    assert_eq!(block.format.space_after, Twips(3));
    assert!(block.format.keep_next && !block.format.keep_lines);
    assert!(!block.format.widow_control);
    assert_eq!(block.format.shading, None);

    let shaded = Paragraph {
        style: ParagraphFormat {
            shading: Some(Some("00FF00".to_owned())),
            ..Default::default()
        },
        ..Paragraph::of_runs(Vec::new())
    };
    let block = lay_out(&input, &shaded);
    assert_eq!(block.format.shading, Some(Color::from_hex(&"00FF00".to_owned())));
    assert!(block.format.widow_control);
}

fn chart_run(rel_id: &str) -> Run {
    Run {
        content: vec![RunContent::Drawing(Drawing {
            inline: Some(InlineDrawing {
                extent_cx: Emu(100),
                extent_cy: Emu(50),
                embed_id: "rIdImage".to_owned(),
                chart_rel_id: Some(rel_id.to_owned()),
            }),
            anchor: None,
        })],
        ..Run::new("")
    }
}

#[test]
fn charts_that_cannot_be_shown_are_reported() {
    let mut input = input_of(vec![Paragraph::of_runs(vec![
        chart_run("good"),
        chart_run("bad"),
        chart_run("missing"),
        chart_run("good"),
    ])]);
    input.charts = vec![
        ChartPart { rel_id: "good".to_owned(), chart: Ok(ChartId(5)) },
        ChartPart { rel_id: "bad".to_owned(), chart: Err("no plot area".to_owned()) },
    ];
    let mut diagnostics = Vec::new();
    let block =
        layout_paragraph(visit_document_paragraphs(&input)[0], WIDTH, &input, &mut diagnostics);
    let chart = |source: ChartSource| InlineItem::Chart {
        width: Emu(100),
        height: Emu(50),
        source,
    };
    assert_eq!(
        block.items,
        vec![
            chart(ChartSource::Parsed(ChartId(5))),
            chart(ChartSource::Placeholder),
            chart(ChartSource::Placeholder),
            chart(ChartSource::Parsed(ChartId(5))),
        ]
    );
    let failures = vec![None, Some("no series".to_owned())];
    assert_eq!(
        settle_diagnostics(&diagnostics, &failures),
        [
            "Word chart relationship bad: no plot area",
            "Word chart relationship missing: relationship was not resolved from the document part",
            "Word chart relationship good: no series",
        ]
    );
}

#[test]
fn a_picture_in_the_line_is_an_image() {
    let mut run = chart_run("");
    if let RunContent::Drawing(drawing) = &mut run.content[0] {
        if let Some(inline) = &mut drawing.inline {
            inline.chart_rel_id = None;
        }
    }
    let input = input_of(vec![Paragraph::of_runs(vec![run])]);
    let block = lay_out(&input, visit_document_paragraphs(&input)[0]);
    assert_eq!(
        block.items,
        vec![InlineItem::Image {
            width: Emu(100),
            height: Emu(50),
            embed_id: "rIdImage".to_owned(),
        }]
    );
}

fn element(text: &str, field_kind: Option<FieldKind>) -> PositionedElement<u32> {
    PositionedElement::Text(GlyphRun {
        text: text.to_owned(),
        glyph_ids: vec![1],
        advances: vec![2],
        field_kind,
        style: 3,
    })
}

fn page(page_number: usize, elements: Vec<PositionedElement<u32>>) -> PageFrame<u32> {
    PageFrame { page_number, width: 10, height: 20, elements }
}

#[test]
fn fields_show_what_the_finished_pages_tell() {
    let mut pages = vec![
        page(
            1,
            vec![
                element("99", Some(FieldKind::Page)),
                element("99", Some(FieldKind::NumPages)),
                element("99", Some(FieldKind::TargetPage(0))),
                element("stale", Some(FieldKind::TargetPage(8))),
                element("text", None),
                PositionedElement::Other(4),
            ],
        ),
        page(2, vec![element("\u{2060}", Some(FieldKind::Target(0)))]),
        page(12, vec![element("\u{2060}", Some(FieldKind::Target(0)))]),
    ];
    let found = bookmark_pages(&pages);
    assert_eq!(found.len(), 1);
    assert_eq!(found.get(&0), Some(&12));
    let values = field_values(&pages[0].elements, 1, 3, &found);
    let shown: Vec<(u32, &str)> =
        values.iter().map(|value| (value.style, value.text.as_str())).collect();
    assert_eq!(shown, [(3, "1"), (3, "3"), (3, "12"), (3, "stale")]);
    // The second value cannot be measured and stays as it is.
    let shapes = vec![
        Some(shape("1")),
        None,
        Some(shape("12")),
        Some(shape("stale")),
    ];
    substitute_fields(&mut pages[0].elements, 1, 3, &found, shapes);
    assert_eq!(output_text(&pages[..1]), ["1", "99", "12", "stale", "text"]);
    assert_eq!(pages[0].elements.len(), 6);
    match &pages[0].elements[2] {
        PositionedElement::Text(run) => {
            assert_eq!(run.glyph_ids, vec![49, 50]);
            assert_eq!(run.advances, vec![49, 50]);
            assert_eq!(run.style, 3);
        }
        other => panic!("expected text, not {other:?}"),
    }
    substitute_fields(&mut pages[1].elements, 2, 3, &found, Vec::new());
    assert!(pages[1].elements.is_empty());
}

#[test]
fn the_background_lies_under_everything() {
    let background = |xml: &str| Some(xml.as_bytes().to_vec());
    let mut pages = vec![page(1, vec![element("a", None)]), page(2, Vec::new())];
    apply_page_background(&mut pages, &None, 0);
    apply_page_background(&mut pages, &background("<w:background w:color=\"auto\"/>"), 0);
    apply_page_background(&mut pages, &Some(vec![0xff, 0xfe]), 0);
    assert_eq!(pages[0].elements.len(), 1);
    apply_page_background(&mut pages, &background("<w:background w:color=\"FF8000\"/>"), 0);
    for page in &pages {
        assert_eq!(
            page.elements[0],
            PositionedElement::FilledRect {
                rect: Rect { x: 0, y: 0, width: 10, height: 20 },
                color: Color::from_hex(&"FF8000".to_owned()),
            }
        );
    }
    assert_eq!(pages[0].elements[1], element("a", None));
    assert_eq!(pages[1].elements.len(), 1);
}

#[test]
fn only_ordinary_text_is_cut_for_lines() {
    let measured = |text: &str| TextSegment {
        text: text.to_owned(),
        source: None,
        glyph_ids: vec![0; text.chars().count()],
        advances: vec![1; text.chars().count()],
        style: 0,
    };
    let item = |text: &str| TextItem { style: 0, text: text.to_owned(), field: None, note: None };
    let items = vec![
        InlineItem::Marker(item("a b")),
        InlineItem::Tab,
        InlineItem::Text(item("c d")),
        InlineItem::Whole(item("e f")),
    ];
    let flow = flow_items(&items, vec![measured("a b"), measured("c d"), measured("e f")], false);
    assert_eq!(
        flow,
        vec![
            FlowItem::Text { item: 0, segment: measured("a b") },
            FlowItem::Other { item: 1 },
            FlowItem::Text { item: 2, segment: measured("c ") },
            FlowItem::Text { item: 2, segment: measured("d") },
            FlowItem::Text { item: 3, segment: measured("e f") },
        ]
    );
}

#[test]
fn every_text_names_a_style_and_every_style_a_font() {
    let mut paragraph = target_paragraph(&[(4, "here", 0, 1)], "text", false);
    paragraph.runs.push(cross_reference_run("here", "old"));
    paragraph.runs[0].content.push(RunContent::EndnoteRef { id: 1 });
    let input = input_of(vec![paragraph]);
    let block = lay_out(&input, visit_document_paragraphs(&input)[0]);
    let texts: Vec<&str> = text_items(&block).iter().map(|item| item.text.as_str()).collect();
    assert_eq!(texts, ["\u{2060}", "text", "1", "99"]);
    assert!(text_items(&block).iter().all(|item| item.style < block.styles.len()));
    assert!(block.styles.iter().all(|style| style.font < block.fonts.len()));
    // A target is one point high, and asks for any font that has a space.
    let target = &block.styles[text_items(&block)[0].style];
    assert_eq!(target.size, TextUnit(20_000));
    assert_eq!(block.fonts[target.font].sample, " ");
}

#[test]
fn a_page_without_fields_is_unchanged() {
    let elements = || vec![element("a", None), PositionedElement::Other(1), element("b", None)];
    let mut page = page(1, elements());
    let found = bookmark_pages(&Vec::<PageFrame<u32>>::new());
    assert!(field_values(&page.elements, 1, 1, &found).is_empty());
    substitute_fields(&mut page.elements, 1, 1, &found, Vec::new());
    assert_eq!(page.elements, elements());
}

#[test]
fn filling_in_twice_changes_nothing() {
    let mut once = page(
        4,
        vec![
            element("99", Some(FieldKind::Page)),
            element("\u{2060}", Some(FieldKind::Target(1))),
            element("stale", Some(FieldKind::TargetPage(8))),
            element("text", None),
            element("99", Some(FieldKind::NumPages)),
        ],
    );
    let found = bookmark_pages(&Vec::<PageFrame<u32>>::new());
    let shapes = || vec![Some(shape("4")), None, Some(shape("6"))];
    let values = field_values(&once.elements, 4, 6, &found);
    substitute_fields(&mut once.elements, 4, 6, &found, shapes());
    let shown = output_text(std::slice::from_ref(&once));
    assert_eq!(shown, ["4", "stale", "text", "6"]);
    assert_eq!(field_values(&once.elements, 4, 6, &found), values);
    let before = format!("{:?}", once);
    substitute_fields(&mut once.elements, 4, 6, &found, shapes());
    assert_eq!(format!("{:?}", once), before);
}

#[test]
fn a_page_reference_is_one_placeholder() {
    let input = input_of(vec![
        Paragraph::of_runs(vec![cross_reference_run("destination", "old")]),
        target_paragraph(&[(4, "destination", 0, 1)], "target", false),
    ]);
    let mut diagnostics = Vec::new();
    let block =
        layout_paragraph(visit_document_paragraphs(&input)[0], WIDTH, &input, &mut diagnostics);
    assert_eq!(
        block.items,
        vec![InlineItem::Text(TextItem {
            style: 1,
            text: "99".to_owned(),
            field: Some(FieldKind::TargetPage(0)),
            note: None,
        })]
    );
    assert!(diagnostics.is_empty());
}
