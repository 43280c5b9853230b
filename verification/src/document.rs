//! The parts of a word-processing document that its layout reads.
//!
//! Style inheritance is settled before a document gets here: a paragraph, a run
//! and a stored field result each carry the properties that their styles give
//! them beside the properties that are set on them directly.

use std::rc::Rc;

use vstd::prelude::*;

use crate::units::{Emu, HalfPoint, Twips};

verus! {

/// Which state of a document with tracked changes is laid out.
#[derive(Debug, Clone, Copy, PartialEq, Eq, Structural)]
pub enum RevisionView {
    /// As if every change had been accepted.
    Accepted,
    /// With every change shown.
    Markup,
}

/// Paragraph justification.
#[derive(Debug, Clone, Copy, PartialEq, Eq, Structural)]
pub enum Justification {
    Start,
    End,
    Center,
    Both,
    Distribute,
    Left,
    Right,
}

/// Underline styles of a run.
#[derive(Debug, Clone, Copy, PartialEq, Eq, Structural)]
pub enum UnderlineKind {
    NoUnderline,
    Single,
    Words,
    Double,
    Thick,
    Dotted,
    Dash,
    DotDash,
    DotDotDash,
    Wave,
}

/// Highlight colors of a run.
#[derive(Debug, Clone, Copy, PartialEq, Eq, Structural)]
pub enum HighlightColor {
    Black,
    Blue,
    Cyan,
    DarkBlue,
    DarkCyan,
    DarkGray,
    DarkGreen,
    DarkMagenta,
    DarkRed,
    DarkYellow,
    Green,
    LightGray,
    Magenta,
    NoHighlight,
    Red,
    White,
    Yellow,
}

/// How text is set against a tab stop.
#[derive(Debug, Clone, Copy, PartialEq, Eq, Structural)]
pub enum TabKind {
    Left,
    Center,
    Right,
    Decimal,
    Bar,
    Clear,
    Num,
}

/// What fills the space that a tab leaves.
#[derive(Debug, Clone, Copy, PartialEq, Eq, Structural)]
pub enum TabFill {
    Blank,
    Dot,
    Hyphen,
    Underscore,
    Heavy,
    MiddleDot,
}

/// A tab stop as a document states it.
#[derive(Debug, Clone, Copy, PartialEq, Eq, Structural)]
pub struct TabDefinition {
    pub val: TabKind,
    pub pos: Twips,
    pub leader: Option<TabFill>,
}

/// A set of paragraph borders, by its place in a table that the caller keeps.
#[derive(Debug, Clone, Copy, PartialEq, Eq, Structural)]
pub struct BordersId(pub u32);

/// A parsed chart, by its place in a table that the caller keeps.
#[derive(Debug, Clone, Copy, PartialEq, Eq, Structural)]
pub struct ChartId(pub u32);

/// The paragraph properties that a style, a list level and the paragraph itself
/// can each set. A property that is `None` is left to the level below.
#[derive(Debug)]
pub struct ParagraphFormat {
    pub jc: Option<Justification>,
    pub space_before: Option<Twips>,
    pub space_after: Option<Twips>,
    pub line_spacing: Option<Twips>,
    pub line_rule: Option<String>,
    pub ind_left: Option<Twips>,
    pub ind_right: Option<Twips>,
    pub ind_first_line: Option<Twips>,
    pub ind_hanging: Option<Twips>,
    pub keep_next: Option<bool>,
    pub keep_lines: Option<bool>,
    pub page_break_before: Option<bool>,
    pub widow_control: Option<bool>,
    pub borders: Option<BordersId>,
    pub tabs: Option<Rc<Vec<TabDefinition>>>,
    /// The shading of the paragraph. `Some(None)` is shading without a fill.
    pub shading: Option<Option<String>>,
    pub num_id: Option<u32>,
    pub num_ilvl: Option<u32>,
}

/// The properties of a run of text. A property that is `None` is left to the
/// level below.
#[derive(Debug)]
pub struct RunProperties {
    pub font_ascii: Option<String>,
    pub font_ascii_theme: Option<String>,
    pub bold: Option<bool>,
    pub italic: Option<bool>,
    pub underline: Option<UnderlineKind>,
    pub strike: Option<bool>,
    pub dstrike: Option<bool>,
    pub sz: Option<HalfPoint>,
    pub color: Option<String>,
    pub color_theme: Option<String>,
    pub highlight: Option<HighlightColor>,
    pub caps: Option<bool>,
    pub vert_align: Option<String>,
    pub spacing: Option<Twips>,
    /// How far the text is raised, in half points.
    pub position: Option<i32>,
    pub vanish: Option<bool>,
    /// Whether a tracked change of these properties is recorded with them.
    pub changed: bool,
    /// How many tracked insertion or deletion marks these properties carry.
    pub revision_markers: usize,
}

/// Properties that are set on a paragraph directly.
#[derive(Debug)]
pub struct ParagraphProperties {
    pub style_id: Option<String>,
    pub format: ParagraphFormat,
    /// Whether the numbering of the paragraph is a tracked insertion.
    pub numbering_revision: bool,
    /// Whether a tracked change of these properties is recorded with them.
    pub changed: bool,
    /// The properties of the section that this paragraph ends, if it ends one.
    pub sect_pr: Option<SectionProperties>,
    /// The properties of the paragraph mark.
    pub rpr: Option<RunProperties>,
}

/// Which pages a header or footer is for.
#[derive(Debug, Clone, Copy, PartialEq, Eq, Structural)]
pub enum HeaderFooterKind {
    Default,
    First,
    Even,
}

/// A reference from a section to a header or footer.
#[derive(Debug)]
pub struct HeaderFooterRef {
    pub kind: HeaderFooterKind,
    pub rel_id: String,
}

/// The properties of a section.
#[derive(Debug)]
pub struct SectionProperties {
    pub page_width: Option<Twips>,
    pub page_height: Option<Twips>,
    pub margin_top: Option<Twips>,
    pub margin_right: Option<Twips>,
    pub margin_bottom: Option<Twips>,
    pub margin_left: Option<Twips>,
    pub header_distance: Option<Twips>,
    pub footer_distance: Option<Twips>,
    pub title_pg: Option<bool>,
    pub header_refs: Vec<HeaderFooterRef>,
    pub footer_refs: Vec<HeaderFooterRef>,
    /// Whether a tracked change of these properties is recorded with them.
    pub changed: bool,
}

/// Kinds of tracked change.
#[derive(Debug, Clone, Copy, PartialEq, Eq, Structural)]
pub enum RevisionKind {
    Insertion,
    Deletion,
    MoveFrom,
    MoveTo,
    RunPropertyChange,
    ParagraphPropertyChange,
    TablePropertyChange,
    SectionPropertyChange,
}

/// What a tracked change encloses.
#[derive(Debug)]
pub enum RevisionContent {
    Runs(Vec<Run>),
    Marker,
    PriorRunProperties,
    PriorParagraphProperties,
    PriorTableProperties,
    PriorSectionProperties,
}

/// A tracked change. A nested change sits before the run whose index it is
/// paired with.
#[derive(Debug)]
pub struct Revision {
    pub kind: RevisionKind,
    pub content: RevisionContent,
    pub nested: Vec<(usize, Revision)>,
}

/// Where, among the unmodeled elements at a run boundary, a change stands.
#[derive(Debug, Clone, Copy, PartialEq, Eq, Structural)]
pub enum RevisionSlot {
    /// After this many of the elements.
    Raw(usize),
    /// Inside the hyperlink with this index.
    Hyperlink(usize),
}

/// A tracked change at its place in a paragraph, before the run with index
/// `boundary`.
#[derive(Debug)]
pub struct PlacedRevision {
    pub boundary: usize,
    pub slot: RevisionSlot,
    pub revision: Revision,
}

/// A hyperlink over the runs from `run_start` up to `run_end`.
#[derive(Debug)]
pub struct Hyperlink {
    pub rel_id: Option<String>,
    pub run_start: usize,
    pub run_end: usize,
    /// The place among the unmodeled elements of a link that holds only changes.
    pub preserved_raw_before: Option<usize>,
}

/// One end of a bookmark, before the run with index `run_index` and after
/// `raw_before` of the unmodeled elements there.
#[derive(Debug)]
pub struct BookmarkMarker {
    pub is_start: bool,
    pub id: Option<i32>,
    pub name: Option<String>,
    pub run_index: usize,
    pub raw_before: usize,
}

/// Kinds of break in a run.
#[derive(Debug, Clone, Copy, PartialEq, Eq, Structural)]
pub enum BreakType {
    Line,
    Page,
    Column,
}

/// An argument of a field instruction.
#[derive(Debug)]
pub enum FieldArgument {
    Text(String),
    /// Another field, whose result would be the argument.
    Nested,
}

/// The properties of one stored field result: those of its styles, and its own.
#[derive(Debug)]
pub struct SegmentProperties {
    pub style: RunProperties,
    pub direct: RunProperties,
}

/// A piece of the result that is stored with a field.
#[derive(Debug)]
pub struct DisplaySegment {
    pub text: String,
    pub properties: Option<SegmentProperties>,
}

/// A field.
#[derive(Debug)]
pub struct Field {
    pub name: String,
    pub arguments: Vec<FieldArgument>,
    /// The stored result, split by formatting.
    pub display: Vec<DisplaySegment>,
    /// What the field adds to the plain text of its run.
    pub projected_text: Option<String>,
}

/// A drawing that stands in the line of text.
#[derive(Debug)]
pub struct InlineDrawing {
    pub extent_cx: Emu,
    pub extent_cy: Emu,
    pub embed_id: String,
    pub chart_rel_id: Option<String>,
}

/// What a horizontal offset is measured from.
#[derive(Debug, Clone, Copy, PartialEq, Eq, Structural)]
pub enum RelativeFromH {
    Page,
    Margin,
    Column,
    Character,
    LeftMargin,
    RightMargin,
    InsideMargin,
    OutsideMargin,
}

/// What a vertical offset is measured from.
#[derive(Debug, Clone, Copy, PartialEq, Eq, Structural)]
pub enum RelativeFromV {
    Page,
    Margin,
    Paragraph,
    Line,
    TopMargin,
    BottomMargin,
    InsideMargin,
    OutsideMargin,
}

/// How text treats a floating drawing.
#[derive(Debug, Clone, Copy, PartialEq, Eq, Structural)]
pub enum WrapType {
    NoWrap,
    Square,
    TopAndBottom,
    Tight,
    Through,
}

/// Horizontal alignment of a floating drawing.
#[derive(Debug, Clone, Copy, PartialEq, Eq, Structural)]
pub enum AnchorAlignH {
    Left,
    Center,
    Right,
    Inside,
    Outside,
}

/// Vertical alignment of a floating drawing.
#[derive(Debug, Clone, Copy, PartialEq, Eq, Structural)]
pub enum AnchorAlignV {
    Top,
    Center,
    Bottom,
    Inside,
    Outside,
}

/// Where a floating drawing stands and how text keeps clear of it.
#[derive(Debug, Clone, Copy, PartialEq, Eq, Structural)]
pub struct AnchorFrame {
    pub behind_doc: bool,
    pub pos_h_offset: Emu,
    pub pos_h_relative_from: RelativeFromH,
    pub pos_h_align: Option<AnchorAlignH>,
    pub pos_v_offset: Emu,
    pub pos_v_relative_from: RelativeFromV,
    pub pos_v_align: Option<AnchorAlignV>,
    pub extent_cx: Emu,
    pub extent_cy: Emu,
    pub dist_t: Emu,
    pub dist_b: Emu,
    pub dist_l: Emu,
    pub dist_r: Emu,
    pub wrap: WrapType,
}

/// A floating drawing.
#[derive(Debug)]
pub struct Anchor {
    pub frame: AnchorFrame,
    /// The picture that the drawing shows; empty if it shows none.
    pub embed_id: String,
    pub chart_rel_id: Option<String>,
    pub shape: Option<Shape>,
}

/// A shape with an optional fill and a text box.
#[derive(Debug)]
pub struct Shape {
    pub preset: Option<String>,
    pub solid_fill: Option<String>,
    pub text: Vec<Paragraph>,
}

/// A drawing, in the line or floating.
#[derive(Debug)]
pub struct Drawing {
    pub inline: Option<InlineDrawing>,
    pub anchor: Option<Anchor>,
}

/// A piece of a run.
#[derive(Debug)]
pub enum RunContent {
    Text(String),
    DeletedText(String),
    Tab,
    Break(BreakType),
    Drawing(Drawing),
    Field(Field),
    FootnoteRef { id: i32 },
    EndnoteRef { id: i32 },
    CommentReference { id: i32 },
}

/// A run: content with one set of properties.
#[derive(Debug)]
pub struct Run {
    /// What the styles of the run and its paragraph give it.
    pub style: RunProperties,
    /// What is set on the run directly.
    pub properties: Option<RunProperties>,
    pub content: Vec<RunContent>,
    /// Drawings that were recovered from compatibility blocks.
    pub alt_drawings: Vec<Drawing>,
}

/// What stands between a list marker and the text after it.
#[derive(Debug, Clone, Copy, PartialEq, Eq, Structural)]
pub enum LevelSuffix {
    Tab,
    Space,
    Nothing,
}

/// The list marker that numbering gives a paragraph at its place in the
/// document.
#[derive(Debug)]
pub struct ListMarker {
    pub text: String,
    pub properties: RunProperties,
    pub suffix: LevelSuffix,
}

/// A paragraph.
#[derive(Debug)]
pub struct Paragraph {
    /// What the paragraph was written as. An engine recognizes it by these bytes:
    /// two paragraphs that were written the same have to be the same. A paragraph
    /// without any is laid out anew every time.
    pub source: Vec<u8>,
    /// What the style of the paragraph gives it.
    pub style: ParagraphFormat,
    /// What the style of the paragraph gives text without a style of its own.
    pub text_style: RunProperties,
    /// What is set on the paragraph directly.
    pub properties: Option<ParagraphProperties>,
    pub marker: Option<ListMarker>,
    pub runs: Vec<Run>,
    pub revisions: Vec<PlacedRevision>,
    pub hyperlinks: Vec<Hyperlink>,
    pub bookmark_markers: Vec<BookmarkMarker>,
}

/// A table.
#[derive(Debug)]
pub struct Table {
    pub content_controls: Vec<ContentControl>,
    pub rows: Vec<Row>,
}

/// A table row.
#[derive(Debug)]
pub struct Row {
    pub content_controls: Vec<ContentControl>,
    pub cells: Vec<Cell>,
}

/// A table cell.
#[derive(Debug)]
pub struct Cell {
    pub content: Vec<CellContent>,
}

/// A piece of a table cell.
#[derive(Debug)]
pub enum CellContent {
    Paragraph(Paragraph),
    Table(Table),
    ContentControl(ContentControl),
}

/// A content control.
#[derive(Debug)]
pub struct ContentControl {
    pub content: Vec<ControlContent>,
}

/// A piece of a content control.
#[derive(Debug)]
pub enum ControlContent {
    Paragraph(Paragraph),
    Table(Table),
    Row(Row),
    Cell(Cell),
    ContentControl(ContentControl),
    Run(Run),
    RawXml,
}

/// A piece of the document body.
#[derive(Debug)]
pub enum BodyContent {
    Paragraph(Paragraph),
    Table(Table),
    ContentControl(ContentControl),
    RawXml,
}

/// A document.
#[derive(Debug)]
pub struct Document {
    pub body: Vec<BodyContent>,
    /// The properties of the last section.
    pub sect_pr: Option<SectionProperties>,
    /// The `w:background` element, as it was written.
    pub background_xml: Option<Vec<u8>>,
}

/// A style and its name.
#[derive(Debug)]
pub struct StyleName {
    pub id: String,
    pub name: Option<String>,
}

/// The paragraph properties of one level of one list.
#[derive(Debug)]
pub struct NumberingLevel {
    pub num_id: u32,
    pub ilvl: u32,
    pub format: ParagraphFormat,
}

/// A header or footer, by the relationship that names it.
#[derive(Debug)]
pub struct HeaderFooterPart {
    pub rel_id: String,
    pub paragraphs: Vec<Paragraph>,
}

/// A chart part: the parsed chart, or why it could not be read.
#[derive(Debug)]
pub struct ChartPart {
    pub rel_id: String,
    pub chart: Result<ChartId, String>,
}

/// The target of an external hyperlink.
#[derive(Debug)]
pub struct LinkTarget {
    pub rel_id: String,
    pub url: String,
}

/// A named theme color, as hexadecimal RGB.
#[derive(Debug)]
pub struct ThemeColor {
    pub name: String,
    pub hex: String,
}

/// The document theme.
#[derive(Debug)]
pub struct Theme {
    pub colors: Vec<ThemeColor>,
    pub major_font: Option<String>,
    pub minor_font: Option<String>,
}

/// A font that comes with the document.
#[derive(Debug)]
pub struct FontFile {
    pub family: String,
    pub data: Vec<u8>,
}

/// The descriptive properties of the document.
#[derive(Debug)]
pub struct CoreProperties {
    pub title: Option<String>,
    pub creator: Option<String>,
    pub subject: Option<String>,
    pub keywords: Option<String>,
}

/// Everything that a layout reads. Where two entries of a list have the same id,
/// relationship or name, the first one counts.
#[derive(Debug)]
pub struct LayoutInput {
    pub revision_view: RevisionView,
    pub document: Document,
    pub styles: Vec<StyleName>,
    pub numbering: Option<Vec<NumberingLevel>>,
    pub headers: Vec<HeaderFooterPart>,
    pub footers: Vec<HeaderFooterPart>,
    pub charts: Vec<ChartPart>,
    pub core_properties: Option<CoreProperties>,
    pub hyperlink_urls: Vec<LinkTarget>,
    pub theme: Option<Theme>,
    pub fonts: Vec<FontFile>,
}

/// The paragraph format that sets nothing.
pub open spec fn unset_format() -> ParagraphFormat {
    ParagraphFormat {
        jc: None,
        space_before: None,
        space_after: None,
        line_spacing: None,
        line_rule: None,
        ind_left: None,
        ind_right: None,
        ind_first_line: None,
        ind_hanging: None,
        keep_next: None,
        keep_lines: None,
        page_break_before: None,
        widow_control: None,
        borders: None,
        tabs: None,
        shading: None,
        num_id: None,
        num_ilvl: None,
    }
}

impl Default for ParagraphFormat {
    /// Sets nothing.
    fn default() -> (format: ParagraphFormat)
        ensures
            format == unset_format(),
    {
        ParagraphFormat {
            jc: None,
            space_before: None,
            space_after: None,
            line_spacing: None,
            line_rule: None,
            ind_left: None,
            ind_right: None,
            ind_first_line: None,
            ind_hanging: None,
            keep_next: None,
            keep_lines: None,
            page_break_before: None,
            widow_control: None,
            borders: None,
            tabs: None,
            shading: None,
            num_id: None,
            num_ilvl: None,
        }
    }
}

/// The run properties that set nothing.
pub open spec fn unset_run_properties() -> RunProperties {
    RunProperties {
        font_ascii: None,
        font_ascii_theme: None,
        bold: None,
        italic: None,
        underline: None,
        strike: None,
        dstrike: None,
        sz: None,
        color: None,
        color_theme: None,
        highlight: None,
        caps: None,
        vert_align: None,
        spacing: None,
        position: None,
        vanish: None,
        changed: false,
        revision_markers: 0,
    }
}

impl Default for RunProperties {
    /// Sets nothing.
    fn default() -> (properties: RunProperties)
        ensures
            properties == unset_run_properties(),
    {
        RunProperties {
            font_ascii: None,
            font_ascii_theme: None,
            bold: None,
            italic: None,
            underline: None,
            strike: None,
            dstrike: None,
            sz: None,
            color: None,
            color_theme: None,
            highlight: None,
            caps: None,
            vert_align: None,
            spacing: None,
            position: None,
            vanish: None,
            changed: false,
            revision_markers: 0,
        }
    }
}

impl Default for ParagraphProperties {
    /// Sets nothing.
    fn default() -> (properties: ParagraphProperties)
        ensures
            properties == (ParagraphProperties {
                style_id: None,
                format: unset_format(),
                numbering_revision: false,
                changed: false,
                sect_pr: None,
                rpr: None,
            }),
    {
        ParagraphProperties {
            style_id: None,
            format: ParagraphFormat::default(),
            numbering_revision: false,
            changed: false,
            sect_pr: None,
            rpr: None,
        }
    }
}

impl Run {
    /// A run of text without any formatting.
    pub fn new(text: &str) -> (run: Run)
        ensures
            run.style == unset_run_properties(),
            run.properties is None,
            run.content@.len() == 1,
            run.content@[0] matches RunContent::Text(content) && content@ == text@,
            run.alt_drawings@.len() == 0,
    {
        let mut content: Vec<RunContent> = Vec::new();
        content.push(RunContent::Text(text.to_owned()));
        Run {
            style: RunProperties::default(),
            properties: None,
            content,
            alt_drawings: Vec::new(),
        }
    }
}

impl Paragraph {
    /// A paragraph of some runs, without any formatting.
    pub fn of_runs(runs: Vec<Run>) -> (paragraph: Paragraph)
        ensures
            paragraph.source@.len() == 0,
            paragraph.style == unset_format(),
            paragraph.text_style == unset_run_properties(),
            paragraph.properties is None,
            paragraph.marker is None,
            paragraph.runs == runs,
            paragraph.revisions@.len() == 0,
            paragraph.hyperlinks@.len() == 0,
            paragraph.bookmark_markers@.len() == 0,
    {
        Paragraph {
            source: Vec::new(),
            style: ParagraphFormat::default(),
            text_style: RunProperties::default(),
            properties: None,
            marker: None,
            runs,
            revisions: Vec::new(),
            hyperlinks: Vec::new(),
            bookmark_markers: Vec::new(),
        }
    }
}

impl LayoutInput {
    /// A body to lay out as if every change had been accepted, with nothing
    /// beside it.
    pub fn of_body(body: Vec<BodyContent>) -> (input: LayoutInput)
        ensures
            input.revision_view == RevisionView::Accepted,
            input.document.body == body,
            input.document.sect_pr is None,
            input.document.background_xml is None,
            input.styles@.len() == 0,
            input.numbering is None,
            input.headers@.len() == 0,
            input.footers@.len() == 0,
            input.charts@.len() == 0,
            input.core_properties is None,
            input.hyperlink_urls@.len() == 0,
            input.theme is None,
            input.fonts@.len() == 0,
    {
        LayoutInput {
            revision_view: RevisionView::Accepted,
            document: Document { body, sect_pr: None, background_xml: None },
            styles: Vec::new(),
            numbering: None,
            headers: Vec::new(),
            footers: Vec::new(),
            charts: Vec::new(),
            core_properties: None,
            hyperlink_urls: Vec::new(),
            theme: None,
            fonts: Vec::new(),
        }
    }
}

} // verus!
