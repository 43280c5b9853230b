use std::rc::Rc;

use rdocx_layout::color::{extract_background_color, highlight_to_color, resolve_run_color, Color};
use rdocx_layout::document::{
    BodyContent, CoreProperties, Field, FieldArgument, FontFile, HeaderFooterKind,
    HeaderFooterPart, HeaderFooterRef, HighlightColor, LayoutInput, LevelSuffix, ListMarker,
    NumberingLevel, Paragraph, ParagraphFormat, ParagraphProperties, PlacedRevision, Revision,
    RevisionContent, RevisionKind, RevisionSlot, RevisionView, Run, RunContent, RunProperties,
    SectionProperties, StyleName, TabDefinition, TabKind, Table, Theme, ThemeColor,
};
use rdocx_layout::engine::{content_widths, document_metadata, Engine, LayoutBlock, LayoutPlan};
use rdocx_layout::fingerprint::{fingerprint_fonts, key_of_block, take_bytes, FNV_BASIS};
use rdocx_layout::heading::detect_heading_level;
use rdocx_layout::plan::InlineItem;
use rdocx_layout::properties::merge_direct_ppr;
use rdocx_layout::section::{layout_header_footer, sect_pr_to_geometry};
use rdocx_layout::units::{Emu, Twips};

fn points(length: Twips) -> f64 {
    f64::from(length.0) / 20.0
}

fn paragraph(text: &str) -> Paragraph {
    Paragraph {
        source: text.as_bytes().to_vec(),
        ..Paragraph::of_runs(vec![Run::new(text)])
    }
}

fn headed(style_id: &str, text: &str) -> Paragraph {
    Paragraph {
        properties: Some(ParagraphProperties {
            style_id: Some(style_id.to_owned()),
            ..Default::default()
        }),
        ..paragraph(text)
    }
}

fn input_of(paragraphs: Vec<Paragraph>) -> LayoutInput {
    LayoutInput::of_body(paragraphs.into_iter().map(BodyContent::Paragraph).collect())
}

fn headings(plan: &LayoutPlan) -> Vec<(u32, String)> {
    plan.sections
        .iter()
        .flat_map(|section| &section.blocks)
        .filter_map(|block| match block {
            LayoutBlock::Paragraph { heading: Some(heading), .. } => {
                Some((heading.level, heading.text.clone()))
            }
            _ => None,
        })
        .collect()
}

/// The texts of the paragraphs of each section, and `<table>` for a table.
fn section_texts(plan: &LayoutPlan) -> Vec<Vec<String>> {
    plan.sections
        .iter()
        .map(|section| {
            section
                .blocks
                .iter()
                .map(|block| match block {
                    LayoutBlock::Paragraph { block, .. } => block
                        .items
                        .iter()
                        .map(|item| match item {
                            InlineItem::Text(text) => text.text.clone(),
                            _ => String::new(),
                        })
                        .collect(),
                    LayoutBlock::Table { body_index, .. } => format!("<table {body_index}>"),
                })
                .collect()
        })
        .collect()
}

#[test]
fn layout_simple_document() {
    let plan = Engine::new().layout(&input_of(vec![paragraph("Hello World")]));
    assert!(!plan.sections.is_empty());
    assert_eq!(section_texts(&plan), [["Hello World"]]);
    assert!((points(plan.sections[0].geometry.page_width) - 612.0).abs() < 0.01);
}

#[test]
fn layout_empty_document() {
    let plan = Engine::new().layout(&input_of(vec![Paragraph::of_runs(Vec::new())]));
    assert_eq!(plan.sections.len(), 1);
    assert_eq!(plan.sections[0].blocks.len(), 1);
    let nothing = Engine::new().layout(&input_of(Vec::new()));
    assert_eq!(nothing.sections.len(), 1);
    assert!(nothing.sections[0].blocks.is_empty());
}

#[test]
fn layout_with_heading_style() {
    let plan = Engine::new().layout(&input_of(vec![headed("Heading1", "Chapter 1")]));
    assert_eq!(headings(&plan), [(1, "Chapter 1".to_owned())]);
}

#[test]
fn layout_nested_headings_produce_outlines() {
    let plan = Engine::new().layout(&input_of(vec![
        headed("Heading1", "Chapter 1"),
        headed("Heading2", "Section 1.1"),
        headed("Heading1", "Chapter 2"),
    ]));
    assert_eq!(
        headings(&plan),
        [
            (1, "Chapter 1".to_owned()),
            (2, "Section 1.1".to_owned()),
            (1, "Chapter 2".to_owned()),
        ]
    );
}

#[test]
fn heading_levels_run_from_one_to_nine() {
    let style = |id: &str, name: Option<&str>| StyleName {
        id: id.to_owned(),
        name: name.map(str::to_owned),
    };
    let styles = vec![
        style("T", Some("heading 3")),
        style("U", Some("Heading 3")),
        style("V", None),
        style("HeadingX", Some("heading 4")),
        style("T", Some("heading 5")),
    ];
    let level = |id: &str| detect_heading_level(&headed(id, ""), &styles);
    assert_eq!(level("Heading1"), Some(1));
    assert_eq!(level("Heading9"), Some(9));
    assert_eq!(level("Heading007"), Some(7));
    assert_eq!(level("Heading+7"), Some(7));
    for id in ["Heading", "Heading0", "Heading10", "Heading+", "Heading-1", "Heading1 ", "heading1"] {
        assert_eq!(level(id), None, "{id}");
    }
    assert_eq!(level("T"), Some(3));
    assert_eq!(level("U"), None);
    assert_eq!(level("V"), None);
    // An id that begins like a heading is never looked up by name.
    assert_eq!(level("HeadingX"), None);
    assert_eq!(level("W"), None);
    assert_eq!(detect_heading_level(&paragraph(""), &styles), None);
}

#[test]
fn sect_pr_geometry_conversion() {
    let sect = SectionProperties::default_letter();
    let geom = sect_pr_to_geometry(&sect);
    assert!((points(geom.page_width) - 612.0).abs() < 0.01);
    assert!((points(geom.page_height) - 792.0).abs() < 0.01);
    assert!((points(geom.margin_top) - 72.0).abs() < 0.01);
    assert!((geom.content_width().0 as f64 / 12_700.0 - 468.0).abs() < 0.01);
}

#[test]
fn sect_pr_a4_geometry() {
    let sect = SectionProperties::default_a4();
    let geom = sect_pr_to_geometry(&sect);
    assert!((points(geom.page_width) - 595.3).abs() < 0.5);
    assert!((points(geom.page_height) - 841.9).abs() < 0.5);
}

fn unstated() -> SectionProperties {
    SectionProperties {
        page_width: None,
        page_height: None,
        margin_top: None,
        margin_right: None,
        margin_bottom: None,
        margin_left: None,
        header_distance: None,
        footer_distance: None,
        ..SectionProperties::default_letter()
    }
}

#[test]
fn what_a_section_does_not_state_is_as_on_letter_paper() {
    assert_eq!(
        sect_pr_to_geometry(&unstated()),
        sect_pr_to_geometry(&SectionProperties::default_letter())
    );
    let wide = SectionProperties { page_width: Some(Twips(i32::MAX)), ..unstated() };
    assert_eq!(
        sect_pr_to_geometry(&wide).content_width(),
        Emu((i64::from(i32::MAX) - 2_880) * 635)
    );
}

fn ending(text: &str, section: SectionProperties) -> Paragraph {
    Paragraph {
        properties: Some(ParagraphProperties {
            sect_pr: Some(section),
            ..Default::default()
        }),
        ..paragraph(text)
    }
}

fn table() -> BodyContent {
    BodyContent::Table(Table { content_controls: Vec::new(), rows: Vec::new() })
}

fn block_width(block: &LayoutBlock) -> Emu {
    match block {
        LayoutBlock::Paragraph { block, .. } => block.params.available_width,
        LayoutBlock::Table { width, .. } => *width,
    }
}

#[test]
fn sections_show_the_body_in_order() {
    let narrow = SectionProperties {
        page_width: Some(Twips(6_000)),
        title_pg: Some(true),
        ..SectionProperties::default_letter()
    };
    let mut input = LayoutInput::of_body(vec![
        table(),
        BodyContent::Paragraph(paragraph("a")),
        BodyContent::RawXml,
        BodyContent::Paragraph(ending("b", narrow)),
        table(),
        BodyContent::Paragraph(paragraph("c")),
    ]);
    input.document.sect_pr = Some(SectionProperties::default_a4());
    let plan = Engine::new().layout(&input);
    assert_eq!(
        section_texts(&plan),
        [vec!["<table 0>", "a", "b"], vec!["<table 4>", "c"]]
    );
    assert_eq!(plan.sections[0].geometry.page_width, Twips(6_000));
    assert_eq!(plan.sections[1].geometry.page_width, Twips(11_906));
    assert!(plan.sections[0].title_pg && !plan.sections[1].title_pg);
    let widths: Vec<Emu> = plan
        .sections
        .iter()
        .flat_map(|section| &section.blocks)
        .map(block_width)
        .collect();
    let a4 = Emu(9_026 * 635);
    let small = Emu(3_120 * 635);
    assert_eq!(widths, [a4, a4, small, small, small]);
    assert_eq!(content_widths(&plan.sections), [small, a4]);
}

fn header_ref(kind: HeaderFooterKind, rel_id: &str) -> HeaderFooterRef {
    HeaderFooterRef { kind, rel_id: rel_id.to_owned() }
}

#[test]
fn headers_and_footers_are_kept_apart() {
    let mut input = input_of(Vec::new());
    let part = |rel_id: &str, texts: &[&str]| HeaderFooterPart {
        rel_id: rel_id.to_owned(),
        paragraphs: texts.iter().map(|text| paragraph(text)).collect(),
    };
    input.headers = vec![part("h", &["one", "two"]), part("f", &["first"]), part("e", &["even"])];
    input.footers = vec![part("h", &["foot"])];
    let section = SectionProperties {
        header_refs: vec![
            header_ref(HeaderFooterKind::Default, "h"),
            header_ref(HeaderFooterKind::First, "f"),
            header_ref(HeaderFooterKind::Even, "e"),
            header_ref(HeaderFooterKind::Default, "none"),
        ],
        footer_refs: vec![header_ref(HeaderFooterKind::Default, "h")],
        ..SectionProperties::default_letter()
    };
    let content = layout_header_footer(&section, &input, &mut Vec::new()).expect("content");
    assert_eq!(content.header_blocks.len(), 2);
    assert_eq!(content.first_header_blocks.len(), 1);
    assert_eq!(content.footer_blocks.len(), 1);
    assert!(content.first_footer_blocks.is_empty());
    assert_eq!(content.header_blocks[0].params.available_width, Emu(9_360 * 635));

    let only_even = SectionProperties {
        header_refs: vec![header_ref(HeaderFooterKind::Even, "e")],
        footer_refs: vec![header_ref(HeaderFooterKind::Default, "none")],
        ..SectionProperties::default_letter()
    };
    assert!(layout_header_footer(&only_even, &input, &mut Vec::new()).is_none());
}

#[test]
fn tracked_header_paragraph_draws_a_change_bar() {
    let changed = Paragraph {
        revisions: vec![PlacedRevision {
            boundary: 0,
            slot: RevisionSlot::Raw(0),
            revision: Revision {
                kind: RevisionKind::Insertion,
                content: RevisionContent::Runs(vec![Run::new("changed header")]),
                nested: Vec::new(),
            },
        }],
        ..Paragraph::of_runs(Vec::new())
    };
    let mut input = input_of(vec![paragraph("body")]);
    input.revision_view = RevisionView::Markup;
    input.document.sect_pr = Some(SectionProperties {
        header_refs: vec![header_ref(HeaderFooterKind::Default, "rIdHeader")],
        ..SectionProperties::default_letter()
    });
    input.headers.push(HeaderFooterPart {
        rel_id: "rIdHeader".to_owned(),
        paragraphs: vec![changed],
    });
    let plan = Engine::new().layout(&input);
    let content = plan.sections[0].header_footer.as_ref().expect("header");
    let marked = content
        .header_blocks
        .iter()
        .filter(|block| block.format.has_visible_revision)
        .count();
    assert_eq!(marked, 1);
}

#[test]
fn a_kept_layout_is_as_good_as_a_new_one() {
    let input = input_of(vec![headed("Heading1", "same"), paragraph("other"), paragraph("other")]);
    let mut engine = Engine::default();
    let first = engine.layout(&input);
    let second = engine.layout(&input);
    assert_eq!(section_texts(&first), section_texts(&second));
    assert_eq!(headings(&first), headings(&second));
    let fresh = Engine::new().layout(&input);
    assert_eq!(section_texts(&fresh), section_texts(&second));
    // An edit is seen, because it changes what the paragraph was written as.
    let edited = input_of(vec![headed("Heading1", "new"), paragraph("other")]);
    assert_eq!(section_texts(&engine.layout(&edited)), [["new", "other"]]);
}

/// A paragraph that is reported whenever it is laid out anew.
fn reported(source: &str) -> Paragraph {
    let field = Field {
        name: "REF".to_owned(),
        arguments: vec![FieldArgument::Text("gone".to_owned())],
        display: Vec::new(),
        projected_text: None,
    };
    Paragraph {
        source: source.as_bytes().to_vec(),
        ..Paragraph::of_runs(vec![Run { content: vec![RunContent::Field(field)], ..Run::new("") }])
    }
}

#[test]
fn equal_engines_lay_out_equal_documents_alike() {
    let input = || input_of(vec![headed("Heading1", "same"), reported("a"), reported("")]);
    let mut first = Engine::new();
    let mut second = Engine::new();
    let mut third = Engine::new_deterministic::<String>(Ok(())).expect("fonts are there");
    let plan = format!("{:?}", first.layout(&input()));
    assert_eq!(format!("{:?}", second.layout(&input())), plan);
    assert_eq!(format!("{:?}", third.layout(&input())), plan);
    let again = format!("{:?}", first.layout(&input()).sections);
    assert_eq!(format!("{:?}", second.layout(&input()).sections), again);
}

#[test]
fn an_unchanged_paragraph_is_not_laid_out_again() {
    let mut engine = Engine::new();
    let mut input = input_of(vec![reported("a"), reported("b")]);
    assert_eq!(engine.layout(&input).diagnostics.len(), 2);
    assert_eq!(engine.layout(&input).diagnostics.len(), 0);
    let edited = input_of(vec![reported("a"), reported("c")]);
    assert_eq!(engine.layout(&edited).diagnostics.len(), 1);
    // Another view is another layout.
    input.revision_view = RevisionView::Markup;
    assert_eq!(engine.layout(&input).diagnostics.len(), 2);
}

#[test]
fn a_paragraph_that_cannot_be_recognized_is_laid_out_anew() {
    let mut engine = Engine::new();
    let plan = engine.layout(&input_of(vec![
        Paragraph::of_runs(Vec::new()),
        Paragraph::of_runs(vec![Run::new("two")]),
    ]));
    assert_eq!(section_texts(&plan), [["", "two"]]);
    let input = input_of(vec![reported("")]);
    assert_eq!(engine.layout(&input).diagnostics.len(), 1);
    assert_eq!(engine.layout(&input).diagnostics.len(), 1);
}

#[test]
fn layouts_with_a_list_marker_are_not_kept() {
    let listed = |marker: &str| Paragraph {
        properties: Some(ParagraphProperties {
            format: ParagraphFormat { num_id: Some(1), ..Default::default() },
            ..Default::default()
        }),
        marker: Some(ListMarker {
            text: marker.to_owned(),
            properties: RunProperties::default(),
            suffix: LevelSuffix::Nothing,
        }),
        ..paragraph("item")
    };
    let mut input = input_of(vec![listed("1."), listed("2.")]);
    input.numbering = Some(vec![NumberingLevel {
        num_id: 1,
        ilvl: 0,
        format: ParagraphFormat::default(),
    }]);
    let plan = Engine::new().layout(&input);
    let markers: Vec<String> = plan.sections[0]
        .blocks
        .iter()
        .filter_map(|block| match block {
            LayoutBlock::Paragraph { block, .. } => match &block.items[0] {
                InlineItem::Marker(text) => Some(text.text.clone()),
                _ => None,
            },
            _ => None,
        })
        .collect();
    assert_eq!(markers, ["1.", "2."]);
}

#[test]
fn fonts_are_loaded_once() {
    let font = |family: &str, length: usize| FontFile {
        family: family.to_owned(),
        data: vec![0; length],
    };
    let mut input = input_of(Vec::new());
    let mut engine = Engine::new();
    assert!(!engine.layout(&input).load_fonts);
    input.fonts = vec![font("Own", 3)];
    assert!(engine.layout(&input).load_fonts);
    assert!(!engine.layout(&input).load_fonts);
    input.fonts = vec![font("Own", 4)];
    assert!(engine.layout(&input).load_fonts);
    assert!(engine.uses_system_fonts());
}

#[test]
fn a_deterministic_engine_needs_its_fonts() {
    let engine = Engine::new_deterministic::<String>(Ok(())).expect("fonts are there");
    assert!(!engine.uses_system_fonts());
    assert_eq!(
        Engine::new_deterministic(Err("no fonts".to_owned())).err(),
        Some("no fonts".to_owned())
    );
}

#[test]
fn fingerprints_have_their_published_values() {
    assert_eq!(take_bytes(FNV_BASIS, b""), 0xcbf2_9ce4_8422_2325);
    assert_eq!(take_bytes(FNV_BASIS, b"a"), 0xaf63_dc4c_8601_ec8c);
    assert_eq!(take_bytes(FNV_BASIS, b"foobar"), 0x8594_4171_f739_67e8);
    assert_eq!(fingerprint_fonts(&Vec::new()), 0xcbf2_9ce4_8422_2325);
    let view = RevisionView::Accepted;
    let key = key_of_block(&b"p".to_vec(), Emu(1), view, 2);
    let mut bytes = b"p".to_vec();
    bytes.extend(1u64.to_le_bytes());
    bytes.push(0);
    bytes.extend(2u64.to_le_bytes());
    assert_eq!(key, take_bytes(FNV_BASIS, &bytes));
    assert_ne!(key, key_of_block(&b"p".to_vec(), Emu(-1), view, 2));
    assert_ne!(key, key_of_block(&b"p".to_vec(), Emu(1), RevisionView::Markup, 2));
    assert_ne!(key, key_of_block(&b"p".to_vec(), Emu(1), view, 3));
}

#[test]
fn metadata_names_its_creator() {
    let mut input = input_of(Vec::new());
    assert_eq!(document_metadata(&input), None);
    input.core_properties = Some(CoreProperties {
        title: Some("Title".to_owned()),
        creator: Some("Ada".to_owned()),
        subject: None,
        keywords: Some("a, b".to_owned()),
    });
    let metadata = document_metadata(&input).expect("metadata");
    assert_eq!(metadata.title.as_deref(), Some("Title"));
    assert_eq!(metadata.author.as_deref(), Some("Ada"));
    assert_eq!(metadata.subject, None);
    assert_eq!(metadata.keywords.as_deref(), Some("a, b"));
    assert_eq!(metadata.creator.as_deref(), Some("rdocx"));
}

#[test]
fn a_literal_color_comes_before_the_theme() {
    let theme = Some(Theme {
        colors: vec![ThemeColor { name: "accent1".to_owned(), hex: "112233".to_owned() }],
        major_font: None,
        minor_font: None,
    });
    let run = |color: Option<&str>, color_theme: Option<&str>| RunProperties {
        color: color.map(str::to_owned),
        color_theme: color_theme.map(str::to_owned),
        ..Default::default()
    };
    let hex = |text: &str| Color::from_hex(&text.to_owned());
    let black = Color::Rgb { red: 0, green: 0, blue: 0 };
    assert_eq!(resolve_run_color(&run(Some("445566"), Some("accent1")), &theme), hex("445566"));
    assert_eq!(resolve_run_color(&run(Some("auto"), Some("accent1")), &theme), hex("112233"));
    assert_eq!(resolve_run_color(&run(None, Some("accent1")), &theme), hex("112233"));
    assert_eq!(resolve_run_color(&run(None, Some("accent2")), &theme), black);
    assert_eq!(resolve_run_color(&run(Some("auto"), None), &theme), black);
    assert_eq!(resolve_run_color(&run(None, Some("accent1")), &None), black);
}

#[test]
fn highlights_have_their_colors() {
    let rgb = |red: u32, green: u32, blue: u32| Some(Color::Rgb { red, green, blue });
    assert_eq!(highlight_to_color(HighlightColor::NoHighlight), None);
    assert_eq!(highlight_to_color(HighlightColor::Black), rgb(0, 0, 0));
    assert_eq!(highlight_to_color(HighlightColor::Yellow), rgb(1000, 1000, 0));
    assert_eq!(highlight_to_color(HighlightColor::DarkBlue), rgb(0, 0, 545));
    assert_eq!(highlight_to_color(HighlightColor::LightGray), rgb(827, 827, 827));
}

#[test]
fn backgrounds_name_six_bytes_of_color() {
    let hex = |text: &str| Some(Color::from_hex(&text.to_owned()));
    assert_eq!(extract_background_color("<w:background w:color=\"ABCDEF\"/>"), hex("ABCDEF"));
    assert_eq!(extract_background_color("<background color=\"123456\"/>"), hex("123456"));
    assert_eq!(extract_background_color("<w:background w:color=\"auto\"/>"), None);
    assert_eq!(extract_background_color("<w:background w:color=\"ABCDEF"), None);
    assert_eq!(extract_background_color(""), None);
}

#[test]
fn merging_keeps_what_is_not_set_directly() {
    let mut effective = ParagraphFormat {
        ind_left: Some(Twips(1)),
        keep_next: Some(true),
        ..Default::default()
    };
    let direct = ParagraphFormat {
        ind_left: Some(Twips(2)),
        num_id: Some(3),
        ..Default::default()
    };
    merge_direct_ppr(&mut effective, &direct);
    assert_eq!(effective.ind_left, Some(Twips(2)));
    assert_eq!(effective.keep_next, Some(true));
    assert_eq!(effective.num_id, Some(3));
    assert_eq!(effective.jc, None);
}

fn stops(position: i32) -> Option<Rc<Vec<TabDefinition>>> {
    Some(Rc::new(vec![TabDefinition {
        val: TabKind::Left,
        pos: Twips(position),
        leader: None,
    }]))
}

#[test]
fn merging_formats_is_associative_and_idempotent() {
    let a = || ParagraphFormat {
        ind_left: Some(Twips(1)),
        tabs: stops(10),
        line_rule: Some("auto".to_owned()),
        ..Default::default()
    };
    let b = || ParagraphFormat {
        ind_left: Some(Twips(2)),
        ind_right: Some(Twips(3)),
        tabs: stops(20),
        ..Default::default()
    };
    let c = || ParagraphFormat { ind_right: Some(Twips(4)), ..Default::default() };
    let merged = |mut below: ParagraphFormat, direct: &ParagraphFormat| {
        merge_direct_ppr(&mut below, direct);
        below
    };
    let left = merged(merged(a(), &b()), &c());
    let right = merged(a(), &merged(b(), &c()));
    for format in [&left, &right, &merged(left.duplicate(), &c())] {
        assert_eq!(format.ind_left, Some(Twips(2)));
        assert_eq!(format.ind_right, Some(Twips(4)));
        assert_eq!(format.line_rule.as_deref(), Some("auto"));
        let tabs = format.tabs.as_ref().expect("tabs");
        assert_eq!(tabs[0].pos, Twips(20));
        assert_eq!(tabs.len(), 1);
    }
}

#[test]
fn merging_run_properties_is_associative() {
    let a = || RunProperties { bold: Some(true), color: Some("a".to_owned()), ..Default::default() };
    let b = || RunProperties { bold: Some(false), italic: Some(true), ..Default::default() };
    let c = || RunProperties { color: Some("c".to_owned()), ..Default::default() };
    let merged = |mut below: RunProperties, direct: &RunProperties| {
        below.merge_from(direct);
        below
    };
    for properties in [merged(merged(a(), &b()), &c()), merged(a(), &merged(b(), &c()))] {
        assert_eq!(properties.bold, Some(false));
        assert_eq!(properties.italic, Some(true));
        assert_eq!(properties.color.as_deref(), Some("c"));
    }
}
