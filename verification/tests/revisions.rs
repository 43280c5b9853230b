use rdocx_layout::bookmark::{bookmark_text, document_has_page_ref, page_ref_id};
use rdocx_layout::color::Color;
use rdocx_layout::convert::Underline;
use rdocx_layout::document::{
    Anchor, AnchorAlignH, AnchorFrame, BodyContent, BookmarkMarker, Drawing, Field, FieldArgument,
    HighlightColor, Hyperlink, LayoutInput, LinkTarget, Paragraph, ParagraphProperties,
    PlacedRevision, RelativeFromH, RelativeFromV, Revision, RevisionContent, RevisionKind,
    RevisionSlot, RevisionView, Run, RunContent, RunProperties, SectionProperties, Shape,
    UnderlineKind, WrapType,
};
use rdocx_layout::drawing::document_has_wrapping_drawing;
use rdocx_layout::paragraph::{
    collect_anchored_drawings, layout_paragraph, AnchoredContent, ParagraphBlock,
};
use rdocx_layout::plan::{FieldKind, InlineItem, TextItem};
use rdocx_layout::revision::{
    paragraph_has_visible_revision, project_paragraph_runs, projected_paragraph_text, RawOrder,
};
use rdocx_layout::style::TextStyle;
use rdocx_layout::units::Emu;

const WIDTH: Emu = Emu(468 * 12_700);

fn deleted(text: &str) -> Run {
    Run { content: vec![RunContent::DeletedText(text.to_owned())], ..Run::new("") }
}

fn change(kind: RevisionKind, runs: Vec<Run>) -> Revision {
    Revision { kind, content: RevisionContent::Runs(runs), nested: Vec::new() }
}

fn placed(boundary: usize, slot: usize, revision: Revision) -> PlacedRevision {
    PlacedRevision { boundary, slot: RevisionSlot::Raw(slot), revision }
}

fn start(id: i32, name: &str, run_index: usize, raw_before: usize) -> BookmarkMarker {
    BookmarkMarker {
        is_start: true,
        id: Some(id),
        name: Some(name.to_owned()),
        run_index,
        raw_before,
    }
}

fn end(id: i32, run_index: usize, raw_before: usize) -> BookmarkMarker {
    BookmarkMarker { is_start: false, id: Some(id), name: None, run_index, raw_before }
}

fn input_of(paragraph: Paragraph) -> LayoutInput {
    LayoutInput::of_body(vec![BodyContent::Paragraph(paragraph)])
}

fn first_paragraph(input: &LayoutInput) -> &Paragraph {
    match &input.document.body[0] {
        BodyContent::Paragraph(paragraph) => paragraph,
        _ => panic!("expected paragraph"),
    }
}

fn run_texts(paragraph: &Paragraph, view: RevisionView) -> Vec<String> {
    project_paragraph_runs(paragraph, view)
        .iter()
        .map(|projected| projected.run.text())
        .collect()
}

fn text_items(block: &ParagraphBlock) -> Vec<&TextItem> {
    block
        .items
        .iter()
        .filter_map(|item| match item {
            InlineItem::Text(text) | InlineItem::Whole(text) | InlineItem::Marker(text) => Some(text),
            _ => None,
        })
        .collect()
}

fn style_of<'a>(block: &'a ParagraphBlock, text: &str) -> &'a TextStyle {
    let item = text_items(block)
        .into_iter()
        .find(|item| item.text == text)
        .expect("text is laid out");
    &block.styles[item.style]
}

fn same_color(color: &Color, hex: &str) -> bool {
    color.channels() == Color::from_hex(&hex.to_owned()).channels()
}

fn revised_paragraph() -> Paragraph {
    let insertion = Revision {
        nested: vec![(1, change(RevisionKind::Deletion, vec![deleted("D")]))],
        ..change(RevisionKind::Insertion, vec![Run::new("I1"), Run::new("I2")])
    };
    Paragraph {
        revisions: vec![
            placed(1, 0, insertion),
            placed(1, 1, change(RevisionKind::Deletion, vec![deleted("X")])),
            placed(1, 2, change(RevisionKind::MoveFrom, vec![Run::new("F")])),
            placed(1, 3, change(RevisionKind::MoveTo, vec![Run::new("T")])),
        ],
        ..Paragraph::of_runs(vec![Run::new("A"), Run::new("Z")])
    }
}

#[test]
fn revision_views_project_wrapped_runs_in_document_order() {
    let paragraph = revised_paragraph();
    assert_eq!(run_texts(&paragraph, RevisionView::Accepted), ["A", "I1", "I2", "T", "Z"]);
    assert_eq!(
        run_texts(&paragraph, RevisionView::Markup),
        ["A", "I1", "D", "I2", "X", "F", "T", "Z"]
    );
}

#[test]
fn changes_are_marked_where_they_are_shown() {
    let paragraph = revised_paragraph();
    let marks: Vec<(bool, bool)> = project_paragraph_runs(&paragraph, RevisionView::Markup)
        .iter()
        .map(|run| (run.force_underline, run.force_strike))
        .collect();
    assert_eq!(
        marks,
        [
            (false, false),
            (true, false),
            (true, true),
            (true, false),
            (false, true),
            (false, true),
            (true, false),
            (false, false),
        ]
    );
    // Accepting leaves the runs that are not struck, without any mark.
    let accepted = project_paragraph_runs(&paragraph, RevisionView::Accepted);
    assert!(accepted.iter().all(|run| !run.force_underline && !run.force_strike));
    let boundaries: Vec<usize> = accepted.iter().map(|run| run.boundary).collect();
    assert_eq!(boundaries, [0, 1, 1, 1, 1]);
    let ordinary: Vec<Option<usize>> = accepted.iter().map(|run| run.ordinary_run_index).collect();
    assert_eq!(ordinary, [Some(0), None, None, None, Some(1)]);
    assert_eq!(accepted[3].raw_order, RawOrder::Raw(3));
    assert_eq!(accepted[4].raw_order, RawOrder::AfterRaw);
}

#[test]
fn places_at_a_boundary_are_ordered() {
    let order = [RawOrder::BeforeRaw, RawOrder::Raw(0), RawOrder::Raw(7), RawOrder::AfterRaw];
    for (i, a) in order.iter().enumerate() {
        for (j, b) in order.iter().enumerate() {
            assert_eq!(a.comes_before(*b), i < j);
        }
    }
}

#[test]
fn nested_only_revision_wrappers_project_their_visible_runs() {
    let outer = Revision {
        kind: RevisionKind::Insertion,
        content: RevisionContent::Marker,
        nested: vec![(0, change(RevisionKind::MoveTo, vec![Run::new("nested")]))],
    };
    let paragraph = Paragraph {
        revisions: vec![placed(0, 0, outer)],
        ..Paragraph::of_runs(Vec::new())
    };
    for view in [RevisionView::Accepted, RevisionView::Markup] {
        assert_eq!(projected_paragraph_text(&paragraph, view), "nested");
    }
    assert!(paragraph_has_visible_revision(&paragraph));
}

fn page_ref(name: &str, display: &str) -> Run {
    let field = Field {
        name: "PAGEREF".to_owned(),
        arguments: vec![FieldArgument::Text(name.to_owned())],
        display: vec![rdocx_layout::document::DisplaySegment {
            text: display.to_owned(),
            properties: None,
        }],
        projected_text: Some(display.to_owned()),
    };
    Run { content: vec![RunContent::Field(field)], ..Run::new("") }
}

#[test]
fn pageref_target_follows_an_earlier_revision_at_the_same_boundary() {
    let input = input_of(Paragraph {
        revisions: vec![placed(0, 0, change(RevisionKind::Insertion, vec![Run::new("before")]))],
        bookmark_markers: vec![start(7, "target", 0, 1), end(7, 1, 0)],
        ..Paragraph::of_runs(vec![page_ref("target", "1")])
    });
    let mut diagnostics = Vec::new();
    let block = layout_paragraph(first_paragraph(&input), WIDTH, &input, &mut diagnostics);
    let revision_index = block
        .items
        .iter()
        .position(|item| matches!(item, InlineItem::Text(text) if text.text == "before"))
        .expect("revision text");
    let target_index = block
        .items
        .iter()
        .position(|item| {
            matches!(item, InlineItem::Whole(text) if matches!(text.field, Some(FieldKind::Target(_))))
        })
        .expect("PAGEREF target");
    assert!(revision_index < target_index);
    assert!(diagnostics.is_empty());
    assert_eq!(page_ref_id(&input, "target"), Some(0));
    assert!(document_has_page_ref(&input, "target"));
    assert!(!document_has_page_ref(&input, "other"));
}

fn new_and_old(first_slot: usize) -> Vec<PlacedRevision> {
    vec![
        placed(0, first_slot, change(RevisionKind::Insertion, vec![Run::new("new")])),
        placed(0, first_slot + 1, change(RevisionKind::Deletion, vec![deleted("old")])),
    ]
}

#[test]
fn derived_revision_text_uses_the_selected_projection() {
    let mut input = input_of(Paragraph {
        revisions: new_and_old(1),
        bookmark_markers: vec![start(7, "target", 0, 0), end(7, 0, 3)],
        ..Paragraph::of_runs(Vec::new())
    });
    assert_eq!(bookmark_text(&input, "target").as_deref(), Some("new"));
    input.revision_view = RevisionView::Markup;
    assert_eq!(bookmark_text(&input, "target").as_deref(), Some("newold"));
}

#[test]
fn bookmark_after_a_terminal_hyperlink_revision_excludes_that_revision() {
    let input = input_of(Paragraph {
        hyperlinks: vec![Hyperlink {
            rel_id: Some("rId1".to_owned()),
            run_start: 0,
            run_end: 1,
            preserved_raw_before: None,
        }],
        revisions: vec![PlacedRevision {
            boundary: 1,
            slot: RevisionSlot::Hyperlink(0),
            revision: change(RevisionKind::Insertion, vec![Run::new("before bookmark")]),
        }],
        bookmark_markers: vec![start(7, "target", 1, 0), end(7, 2, 0)],
        ..Paragraph::of_runs(vec![Run::new("link"), Run::new("inside")])
    });
    assert_eq!(bookmark_text(&input, "target").as_deref(), Some("inside"));
}

#[test]
fn revision_only_hyperlink_keeps_its_link_annotation() {
    let mut input = input_of(Paragraph {
        hyperlinks: vec![Hyperlink {
            rel_id: Some("rId2".to_owned()),
            run_start: 0,
            run_end: 0,
            preserved_raw_before: Some(0),
        }],
        revisions: vec![PlacedRevision {
            boundary: 0,
            slot: RevisionSlot::Hyperlink(0),
            revision: change(RevisionKind::Insertion, vec![Run::new("linked revision")]),
        }],
        ..Paragraph::of_runs(Vec::new())
    });
    input.hyperlink_urls.push(LinkTarget {
        rel_id: "rId2".to_owned(),
        url: "https://example.com".to_owned(),
    });
    let block = layout_paragraph(first_paragraph(&input), WIDTH, &input, &mut Vec::new());
    let style = style_of(&block, "linked revision");
    assert_eq!(style.hyperlink_url.as_deref(), Some("https://example.com"));
}

#[test]
fn the_last_link_over_a_run_that_leads_somewhere_wins() {
    let link = |rel_id: &str, run_start: usize, run_end: usize| Hyperlink {
        rel_id: Some(rel_id.to_owned()),
        run_start,
        run_end,
        preserved_raw_before: None,
    };
    let mut input = input_of(Paragraph {
        hyperlinks: vec![link("a", 0, 2), link("b", 0, 1), link("broken", 0, 3)],
        ..Paragraph::of_runs(vec![Run::new("one"), Run::new("two"), Run::new("three")])
    });
    for rel_id in ["a", "b"] {
        input.hyperlink_urls.push(LinkTarget {
            rel_id: rel_id.to_owned(),
            url: format!("https://{rel_id}"),
        });
    }
    let block = layout_paragraph(first_paragraph(&input), WIDTH, &input, &mut Vec::new());
    assert_eq!(style_of(&block, "one").hyperlink_url.as_deref(), Some("https://b"));
    assert_eq!(style_of(&block, "two").hyperlink_url.as_deref(), Some("https://a"));
    assert_eq!(style_of(&block, "three").hyperlink_url, None);
}

#[test]
fn derived_revision_text_keeps_order_after_comment_run_removal() {
    let input = input_of(Paragraph {
        revisions: vec![placed(0, 1, change(RevisionKind::Insertion, vec![Run::new("inside")]))],
        bookmark_markers: vec![start(7, "target", 0, 0), end(7, 0, 2)],
        ..Paragraph::of_runs(Vec::new())
    });
    assert_eq!(bookmark_text(&input, "target").as_deref(), Some("inside"));
}

#[test]
fn heading_text_uses_the_selected_revision_projection() {
    let paragraph =
        Paragraph { revisions: new_and_old(0), ..Paragraph::of_runs(Vec::new()) };
    assert_eq!(projected_paragraph_text(&paragraph, RevisionView::Accepted), "new");
    assert_eq!(projected_paragraph_text(&paragraph, RevisionView::Markup), "newold");
}

fn frame(wrap: WrapType) -> AnchorFrame {
    AnchorFrame {
        behind_doc: false,
        pos_h_offset: Emu(0),
        pos_h_relative_from: RelativeFromH::Margin,
        pos_h_align: Some(AnchorAlignH::Right),
        pos_v_offset: Emu(0),
        pos_v_relative_from: RelativeFromV::Paragraph,
        pos_v_align: None,
        extent_cx: Emu(914_400),
        extent_cy: Emu(457_200),
        dist_t: Emu(0),
        dist_b: Emu(0),
        dist_l: Emu(0),
        dist_r: Emu(0),
        wrap,
    }
}

fn floating(wrap: WrapType, embed_id: &str, shape: Option<Shape>) -> Drawing {
    Drawing {
        inline: None,
        anchor: Some(Anchor {
            frame: frame(wrap),
            embed_id: embed_id.to_owned(),
            chart_rel_id: None,
            shape,
        }),
    }
}

fn drawing_run(drawing: Drawing) -> Run {
    Run { content: vec![RunContent::Drawing(drawing)], ..Run::new("") }
}

fn rectangle(text: Vec<Paragraph>) -> Shape {
    Shape { preset: Some("rect".to_owned()), solid_fill: None, text }
}

#[test]
fn revised_floating_anchors_follow_the_selected_projection() {
    let drawing = floating(WrapType::Square, "", Some(rectangle(Vec::new())));
    let mut input = input_of(Paragraph {
        revisions: vec![placed(
            0,
            0,
            change(RevisionKind::Insertion, vec![drawing_run(drawing)]),
        )],
        ..Paragraph::of_runs(Vec::new())
    });
    assert!(document_has_wrapping_drawing(&input));

    input.revision_view = RevisionView::Markup;
    let mut diagnostics = Vec::new();
    let anchored = collect_anchored_drawings(first_paragraph(&input), &input, &mut diagnostics);
    assert_eq!(anchored.len(), 1);
    assert!(diagnostics.is_empty());
}

#[test]
fn empty_shapeless_anchor_keeps_the_pre_cutover_omission() {
    let input = input_of(Paragraph::of_runs(vec![Run::new("")]));
    let paragraph =
        Paragraph::of_runs(vec![drawing_run(floating(WrapType::NoWrap, "", None))]);
    let anchored = collect_anchored_drawings(&paragraph, &input, &mut Vec::new());
    assert!(anchored.is_empty());
}

#[test]
fn a_shape_lays_its_text_out_in_its_own_width() {
    let inner = Paragraph::of_runs(vec![Run::new("in the box")]);
    let input = input_of(Paragraph::of_runs(vec![
        drawing_run(floating(WrapType::NoWrap, "", Some(rectangle(vec![inner])))),
        drawing_run(floating(WrapType::NoWrap, "rIdPicture", Some(rectangle(Vec::new())))),
    ]));
    assert!(!document_has_wrapping_drawing(&input));
    let block = layout_paragraph(first_paragraph(&input), WIDTH, &input, &mut Vec::new());
    assert_eq!(block.anchored.len(), 2);
    match &block.anchored[0].content {
        AnchoredContent::Shape { preset, fill, text } => {
            assert_eq!(preset.as_deref(), Some("rect"));
            assert_eq!(*fill, None);
            assert_eq!(text.len(), 1);
            assert_eq!(text[0].params.available_width, Emu(914_400));
            assert_eq!(text_items(&text[0])[0].text, "in the box");
        }
        other => panic!("expected a shape, not {other:?}"),
    }
    // A picture stays a picture even where it has the outline of a shape.
    assert_eq!(
        block.anchored[1].content,
        AnchoredContent::Image { embed_id: "rIdPicture".to_owned() }
    );
    assert_eq!(block.anchored[1].frame, frame(WrapType::NoWrap));
}

#[test]
fn recovered_drawings_follow_those_in_the_content() {
    let mut run = drawing_run(floating(WrapType::NoWrap, "first", None));
    run.alt_drawings.push(floating(WrapType::Tight, "second", None));
    let input = input_of(Paragraph::of_runs(vec![run]));
    assert!(document_has_wrapping_drawing(&input));
    let anchored = collect_anchored_drawings(first_paragraph(&input), &input, &mut Vec::new());
    let embeds: Vec<&AnchoredContent> = anchored.iter().map(|drawing| &drawing.content).collect();
    assert_eq!(
        embeds,
        [
            &AnchoredContent::Image { embed_id: "first".to_owned() },
            &AnchoredContent::Image { embed_id: "second".to_owned() },
        ]
    );
}

fn note(content: RunContent, properties: Option<RunProperties>) -> Run {
    Run { content: vec![content], properties, ..Run::new("") }
}

fn decorated_paragraph() -> Paragraph {
    let inserted = Run {
        properties: Some(RunProperties {
            font_ascii: Some("Liberation Sans".to_owned()),
            bold: Some(true),
            italic: Some(true),
            underline: Some(UnderlineKind::Double),
            dstrike: Some(true),
            color: Some("AA0000".to_owned()),
            highlight: Some(HighlightColor::Yellow),
            ..Default::default()
        }),
        ..Run::new("inserted")
    };
    let removed = Run {
        properties: Some(RunProperties {
            underline: Some(UnderlineKind::Double),
            color: Some("0000AA".to_owned()),
            ..Default::default()
        }),
        ..deleted("deleted")
    };
    let highlighted = RunProperties {
        highlight: Some(HighlightColor::Yellow),
        ..Default::default()
    };
    Paragraph {
        revisions: vec![
            placed(0, 0, change(RevisionKind::Insertion, vec![inserted])),
            placed(0, 1, change(RevisionKind::Deletion, vec![removed])),
            placed(
                0,
                2,
                change(
                    RevisionKind::Insertion,
                    vec![note(RunContent::FootnoteRef { id: 11 }, Some(highlighted))],
                ),
            ),
            placed(
                0,
                3,
                change(
                    RevisionKind::Deletion,
                    vec![note(RunContent::EndnoteRef { id: 12 }, None)],
                ),
            ),
        ],
        ..Paragraph::of_runs(Vec::new())
    }
}

#[test]
fn tracked_revision_decorations_override_only_underline_and_strike() {
    let mut input = input_of(decorated_paragraph());
    input.revision_view = RevisionView::Markup;
    let block = layout_paragraph(first_paragraph(&input), WIDTH, &input, &mut Vec::new());

    let inserted = style_of(&block, "inserted");
    assert_eq!(inserted.underline, Some(Underline::Single));
    assert!(!inserted.strike);
    assert!(inserted.dstrike);
    let font = &block.fonts[inserted.font];
    assert!(font.bold && font.italic);
    assert_eq!(font.family.as_deref(), Some("Liberation Sans"));
    assert!(same_color(&inserted.color, "AA0000"));
    assert!(same_color(inserted.highlight.as_ref().expect("highlight"), "FFFF00"));

    let removed = style_of(&block, "deleted");
    assert_eq!(removed.underline, Some(Underline::Double));
    assert!(removed.strike);
    assert!(same_color(&removed.color, "0000AA"));

    let inserted_note = style_of(&block, "11");
    assert_eq!(inserted_note.underline, Some(Underline::Single));
    assert!(same_color(inserted_note.highlight.as_ref().expect("highlight"), "FFFF00"));
    let deleted_note = style_of(&block, "12");
    assert!(deleted_note.strike);

    input.revision_view = RevisionView::Accepted;
    let accepted = layout_paragraph(first_paragraph(&input), WIDTH, &input, &mut Vec::new());
    let accepted_note = style_of(&accepted, "11");
    assert_eq!(accepted_note.underline, None);
    assert!(!accepted_note.strike && !accepted_note.dstrike);
    assert_eq!(accepted_note.highlight, None);
}

#[test]
fn property_only_revisions_mark_the_tracked_paragraph() {
    let paragraph = Paragraph {
        properties: Some(ParagraphProperties { changed: true, ..Default::default() }),
        ..Paragraph::of_runs(vec![Run::new("current")])
    };
    assert!(paragraph_has_visible_revision(&paragraph));
}

#[test]
fn every_recorded_change_marks_a_paragraph() {
    let with = |properties: ParagraphProperties| Paragraph {
        properties: Some(properties),
        ..Paragraph::of_runs(vec![Run::new("current")])
    };
    let changed = RunProperties { changed: true, ..Default::default() };
    let marked = RunProperties { revision_markers: 1, ..Default::default() };
    let section = SectionProperties { changed: true, ..SectionProperties::default_letter() };
    assert!(paragraph_has_visible_revision(&with(ParagraphProperties {
        numbering_revision: true,
        ..Default::default()
    })));
    assert!(paragraph_has_visible_revision(&with(ParagraphProperties {
        rpr: Some(changed),
        ..Default::default()
    })));
    assert!(paragraph_has_visible_revision(&with(ParagraphProperties {
        sect_pr: Some(section),
        ..Default::default()
    })));
    let run = Run { properties: Some(marked), ..Run::new("current") };
    assert!(paragraph_has_visible_revision(&Paragraph::of_runs(vec![run])));
    assert!(!paragraph_has_visible_revision(&with(ParagraphProperties::default())));
}

#[test]
fn empty_revision_wrappers_do_not_mark_the_tracked_paragraph() {
    let empty = Paragraph {
        revisions: vec![placed(
            0,
            0,
            Revision {
                kind: RevisionKind::Insertion,
                content: RevisionContent::Marker,
                nested: Vec::new(),
            },
        )],
        ..Paragraph::of_runs(Vec::new())
    };
    let without_text = Paragraph {
        revisions: vec![placed(0, 0, change(RevisionKind::Insertion, vec![Run::new("")]))],
        ..Paragraph::of_runs(Vec::new())
    };
    for paragraph in [empty, without_text] {
        assert!(!paragraph_has_visible_revision(&paragraph));
    }
}

#[test]
fn prior_properties_are_never_shown_as_text() {
    let mut input = input_of(Paragraph {
        revisions: vec![placed(
            0,
            0,
            Revision {
                kind: RevisionKind::RunPropertyChange,
                content: RevisionContent::PriorRunProperties,
                nested: vec![(0, change(RevisionKind::Insertion, vec![Run::new("hidden")]))],
            },
        )],
        ..Paragraph::of_runs(vec![Run::new("shown")])
    });
    input.revision_view = RevisionView::Markup;
    assert_eq!(projected_paragraph_text(first_paragraph(&input), RevisionView::Markup), "shown");
    let block = layout_paragraph(first_paragraph(&input), WIDTH, &input, &mut Vec::new());
    assert!(block.format.has_visible_revision);
    input.revision_view = RevisionView::Accepted;
    let block = layout_paragraph(first_paragraph(&input), WIDTH, &input, &mut Vec::new());
    assert!(!block.format.has_visible_revision);
}

#[test]
fn a_bookmark_is_one_line_for_each_paragraph_that_it_covers() {
    let first = Paragraph {
        bookmark_markers: vec![start(1, "span", 1, 0)],
        ..Paragraph::of_runs(vec![Run::new("before"), Run::new("one")])
    };
    let last = Paragraph {
        bookmark_markers: vec![end(1, 1, 0)],
        ..Paragraph::of_runs(vec![Run::new("two"), Run::new("after")])
    };
    let input = LayoutInput::of_body(vec![
        BodyContent::Paragraph(first),
        BodyContent::RawXml,
        BodyContent::Paragraph(Paragraph::of_runs(Vec::new())),
        BodyContent::Paragraph(last),
    ]);
    assert_eq!(bookmark_text(&input, "span").as_deref(), Some("one\n\ntwo"));
    assert_eq!(bookmark_text(&input, "other"), None);
}

#[test]
fn a_bookmark_that_is_not_one_complete_pair_has_no_text() {
    let input = |markers: Vec<BookmarkMarker>| {
        input_of(Paragraph {
            bookmark_markers: markers,
            ..Paragraph::of_runs(vec![Run::new("text")])
        })
    };
    let whole = input(vec![start(1, "name", 0, 0), end(1, 1, 0)]);
    assert_eq!(bookmark_text(&whole, "name").as_deref(), Some("text"));
    // Without an end, with two starts, and with two bookmarks of one name.
    assert_eq!(bookmark_text(&input(vec![start(1, "name", 0, 0)]), "name"), None);
    let twice = vec![start(1, "name", 0, 0), start(1, "name", 0, 1), end(1, 1, 0)];
    assert_eq!(bookmark_text(&input(twice), "name"), None);
    let two = vec![start(1, "name", 0, 0), end(1, 1, 0), start(2, "name", 0, 1), end(2, 1, 1)];
    assert_eq!(bookmark_text(&input(two), "name"), None);
    // The end before the start, and a marker past the last run.
    let turned = vec![start(1, "name", 1, 0), end(1, 0, 0)];
    assert_eq!(bookmark_text(&input(turned), "name"), None);
    let stray = vec![start(1, "name", 0, 0), end(1, 1, 0), end(9, 2, 0)];
    assert_eq!(bookmark_text(&input(stray), "name"), None);
    // A marker without a number does not count.
    let mut nameless = vec![start(1, "name", 0, 0), end(1, 1, 0)];
    nameless.push(BookmarkMarker { id: None, ..start(1, "name", 9, 0) });
    assert_eq!(bookmark_text(&input(nameless), "name").as_deref(), Some("text"));
}

#[test]
fn accepted_runs_are_among_the_markup_runs_and_changes_precede_their_run() {
    // A property change that encloses a run: only the markup view shows it.
    let mut paragraph = revised_paragraph();
    paragraph.revisions.push(placed(
        0,
        0,
        change(RevisionKind::RunPropertyChange, vec![Run::new("P")]),
    ));
    let accepted = run_texts(&paragraph, RevisionView::Accepted);
    let markup = run_texts(&paragraph, RevisionView::Markup);
    assert_eq!(accepted, ["A", "I1", "I2", "T", "Z"]);
    assert_eq!(markup, ["P", "A", "I1", "D", "I2", "X", "F", "T", "Z"]);
    let mut rest = markup.iter();
    assert!(accepted.iter().all(|text| rest.any(|shown| shown == text)));
    for view in [RevisionView::Accepted, RevisionView::Markup] {
        let shown = project_paragraph_runs(&paragraph, view);
        for (j, run) in shown.iter().enumerate() {
            if run.ordinary_run_index.is_some() {
                assert!(shown[j + 1..].iter().all(|later| later.boundary > run.boundary));
            }
        }
    }
}

#[test]
fn stored_results_inside_changes_do_not_change_the_items() {
    let build = |display: &str| {
        let mut input = input_of(Paragraph {
            revisions: vec![placed(
                0,
                0,
                Revision {
                    nested: vec![(
                        0,
                        change(RevisionKind::MoveTo, vec![page_ref("target", display)]),
                    )],
                    ..change(RevisionKind::Insertion, vec![page_ref("target", display)])
                },
            )],
            bookmark_markers: vec![start(7, "target", 0, 1), end(7, 1, 0)],
            ..Paragraph::of_runs(vec![Run::new("text")])
        });
        input.revision_view = RevisionView::Markup;
        input
    };
    let items = |input: &LayoutInput| {
        layout_paragraph(first_paragraph(input), WIDTH, input, &mut Vec::new()).items
    };
    assert_eq!(items(&build("7")), items(&build(&"stale display ".repeat(100))));
    assert_eq!(items(&build("7")).len(), 4);
}
