//! What a paragraph is made of before any font is asked: the fonts and styles
//! that its text needs, and its items in the order in which they are read.

use vstd::prelude::*;

use crate::document::ChartId;
use crate::style::{FontRequest, FontRequestView, TextStyle};
use crate::units::Emu;

verus! {

/// What stands in for a value that only the finished pages can tell.
#[derive(Debug, Clone, Copy, PartialEq, Eq, Structural)]
pub enum FieldKind {
    /// The number of the page.
    Page,
    /// How many pages there are.
    NumPages,
    /// The number of the page that a bookmark is on.
    TargetPage(usize),
    /// The bookmark itself. It shows nothing.
    Target(usize),
}

/// Which notes a number belongs to. The two are numbered independently.
#[derive(Debug, Clone, Copy, PartialEq, Eq, Structural)]
pub enum NoteStream {
    Footnote,
    Endnote,
}

/// A reference to a note.
#[derive(Debug, Clone, Copy, PartialEq, Eq, Structural)]
pub struct NoteRef {
    pub stream: NoteStream,
    pub id: i32,
}

/// Text with one style.
#[derive(Debug, PartialEq)]
pub struct TextItem {
    /// The style, by its place among the styles of the paragraph.
    pub style: usize,
    pub text: String,
    pub field: Option<FieldKind>,
    pub note: Option<NoteRef>,
}

/// What a chart is drawn from.
#[derive(Debug, Clone, Copy, PartialEq, Eq, Structural)]
pub enum ChartSource {
    Parsed(ChartId),
    /// There is nothing to draw, and a placeholder takes the space.
    Placeholder,
}

/// An item in the lines of a paragraph.
#[derive(Debug, PartialEq)]
pub enum InlineItem {
    /// A list marker.
    Marker(TextItem),
    /// Text that is cut where a line may be broken.
    Text(TextItem),
    /// Text that is never cut.
    Whole(TextItem),
    Tab,
    LineBreak,
    PageBreak,
    ColumnBreak,
    Image { width: Emu, height: Emu, embed_id: String },
    Chart { width: Emu, height: Emu, source: ChartSource },
}

/// Something that a layout could not do as the document asks.
#[derive(Debug, PartialEq)]
pub enum Diagnostic {
    Message(String),
    /// A chart that was read. Only drawing it tells whether there is something
    /// to report.
    ChartPending { rel_id: String, chart: ChartId },
}

/// What a [`TextItem`] stands for.
pub struct TextItemView {
    pub style: int,
    pub text: Seq<char>,
    pub field: Option<FieldKind>,
    pub note: Option<NoteRef>,
}

/// What an [`InlineItem`] stands for.
pub enum ItemView {
    Marker(TextItemView),
    Text(TextItemView),
    Whole(TextItemView),
    Tab,
    LineBreak,
    PageBreak,
    ColumnBreak,
    Image { width: Emu, height: Emu, embed_id: String },
    Chart { width: Emu, height: Emu, source: ChartSource },
}

/// What a [`Diagnostic`] says.
pub enum DiagnosticView {
    Message(Seq<char>),
    ChartPending { rel_id: Seq<char>, chart: ChartId },
}

impl View for TextItem {
    type V = TextItemView;

    open spec fn view(&self) -> TextItemView {
        TextItemView {
            style: self.style as int,
            text: self.text@,
            field: self.field,
            note: self.note,
        }
    }
}

impl View for InlineItem {
    type V = ItemView;

    open spec fn view(&self) -> ItemView {
        match *self {
            InlineItem::Marker(text) => ItemView::Marker(text@),
            InlineItem::Text(text) => ItemView::Text(text@),
            InlineItem::Whole(text) => ItemView::Whole(text@),
            InlineItem::Tab => ItemView::Tab,
            InlineItem::LineBreak => ItemView::LineBreak,
            InlineItem::PageBreak => ItemView::PageBreak,
            InlineItem::ColumnBreak => ItemView::ColumnBreak,
            InlineItem::Image { width, height, embed_id } => ItemView::Image {
                width,
                height,
                embed_id,
            },
            InlineItem::Chart { width, height, source } => ItemView::Chart {
                width,
                height,
                source,
            },
        }
    }
}

impl View for Diagnostic {
    type V = DiagnosticView;

    open spec fn view(&self) -> DiagnosticView {
        match *self {
            Diagnostic::Message(message) => DiagnosticView::Message(message@),
            Diagnostic::ChartPending { rel_id, chart } => DiagnosticView::ChartPending {
                rel_id: rel_id@,
                chart,
            },
        }
    }
}

/// What fonts are asked for.
pub open spec fn font_views(fonts: Seq<FontRequest>) -> Seq<FontRequestView> {
    fonts.map_values(|font: FontRequest| font@)
}

/// What items stand for.
pub open spec fn item_views(items: Seq<InlineItem>) -> Seq<ItemView> {
    items.map_values(|item: InlineItem| item@)
}

/// What diagnostics say.
pub open spec fn diagnostic_views(diagnostics: Seq<Diagnostic>) -> Seq<DiagnosticView> {
    diagnostics.map_values(|diagnostic: Diagnostic| diagnostic@)
}

/// What a paragraph is made of, and what was found out on the way.
#[derive(Debug, PartialEq)]
pub struct ParagraphPlan {
    pub fonts: Vec<FontRequest>,
    pub styles: Vec<TextStyle>,
    pub items: Vec<InlineItem>,
    pub diagnostics: Vec<Diagnostic>,
}

/// What a [`ParagraphPlan`] stands for.
pub struct PlanView {
    pub fonts: Seq<FontRequestView>,
    pub styles: Seq<TextStyle>,
    pub items: Seq<ItemView>,
    pub diagnostics: Seq<DiagnosticView>,
}

impl View for ParagraphPlan {
    type V = PlanView;

    open spec fn view(&self) -> PlanView {
        PlanView {
            fonts: font_views(self.fonts@),
            styles: self.styles@,
            items: item_views(self.items@),
            diagnostics: diagnostic_views(self.diagnostics@),
        }
    }
}

impl PlanView {
    /// A plan of nothing.
    pub open spec fn empty() -> PlanView {
        PlanView {
            fonts: Seq::empty(),
            styles: Seq::empty(),
            items: Seq::empty(),
            diagnostics: Seq::empty(),
        }
    }

    /// The plan with one more font.
    pub open spec fn with_font(self, font: FontRequestView) -> PlanView {
        PlanView { fonts: self.fonts.push(font), ..self }
    }

    /// The plan with one more style.
    pub open spec fn with_style(self, style: TextStyle) -> PlanView {
        PlanView { styles: self.styles.push(style), ..self }
    }

    /// The plan with one more item.
    pub open spec fn with_item(self, item: ItemView) -> PlanView {
        PlanView { items: self.items.push(item), ..self }
    }

    /// The plan with more items.
    pub open spec fn with_items(self, items: Seq<ItemView>) -> PlanView {
        PlanView { items: self.items + items, ..self }
    }

    /// The plan with one more diagnostic.
    pub open spec fn with_diagnostic(self, diagnostic: DiagnosticView) -> PlanView {
        PlanView { diagnostics: self.diagnostics.push(diagnostic), ..self }
    }

    /// Whether every text has a style, and every style a font.
    pub open spec fn is_closed(self) -> bool {
        &&& forall|i: int|
            0 <= i < self.items.len() ==> style_known(#[trigger] self.items[i], self.styles.len())
        &&& forall|i: int|
            0 <= i < self.styles.len() ==> (#[trigger] self.styles[i]).font < self.fonts.len()
    }
}

/// Whether the style of an item, if it has one, is among the first `count`.
pub open spec fn style_known(item: ItemView, count: nat) -> bool {
    match item {
        ItemView::Marker(text) => 0 <= text.style < count,
        ItemView::Text(text) => 0 <= text.style < count,
        ItemView::Whole(text) => 0 <= text.style < count,
        _ => true,
    }
}

impl ParagraphPlan {
    /// A plan of nothing.
    pub fn new() -> (plan: ParagraphPlan)
        ensures
            plan@ == PlanView::empty(),
    {
        let plan = ParagraphPlan {
            fonts: Vec::new(),
            styles: Vec::new(),
            items: Vec::new(),
            diagnostics: Vec::new(),
        };
        proof {
            assert(plan@.fonts =~= PlanView::empty().fonts);
            assert(plan@.items =~= PlanView::empty().items);
            assert(plan@.diagnostics =~= PlanView::empty().diagnostics);
        }
        plan
    }

    /// Asks for a font, and tells its place.
    pub fn add_font(&mut self, font: FontRequest) -> (place: usize)
        ensures
            final(self)@ == old(self)@.with_font(font@),
            place == old(self)@.fonts.len(),
    {
        let place = self.fonts.len();
        self.fonts.push(font);
        proof {
            assert(self@.fonts =~= old(self)@.fonts.push(font@));
        }
        place
    }

    /// Adds a style, and tells its place.
    pub fn add_style(&mut self, style: TextStyle) -> (place: usize)
        ensures
            final(self)@ == old(self)@.with_style(style),
            place == old(self)@.styles.len(),
    {
        let place = self.styles.len();
        self.styles.push(style);
        place
    }

    /// Adds an item.
    pub fn add_item(&mut self, item: InlineItem)
        ensures
            final(self)@ == old(self)@.with_item(item@),
    {
        self.items.push(item);
        proof {
            assert(self@.items =~= old(self)@.items.push(item@));
        }
    }

    /// Reports something.
    pub fn report(&mut self, diagnostic: Diagnostic)
        ensures
            final(self)@ == old(self)@.with_diagnostic(diagnostic@),
    {
        self.diagnostics.push(diagnostic);
        proof {
            assert(self@.diagnostics =~= old(self)@.diagnostics.push(diagnostic@));
        }
    }
}

/// What is left to report when the charts have been drawn: a message stays, and
/// a chart that could not be drawn gets one. `failures` holds, for each chart in
/// turn, why it could not be drawn.
pub open spec fn settled(
    diagnostics: Seq<DiagnosticView>,
    failures: Seq<Option<Seq<char>>>,
) -> Seq<Seq<char>>
    decreases diagnostics.len(),
{
    if diagnostics.len() == 0 {
        Seq::empty()
    } else {
        let before = settled(diagnostics.drop_last(), failures);
        match diagnostics.last() {
            DiagnosticView::Message(message) => before.push(message),
            DiagnosticView::ChartPending { rel_id, .. } => {
                let turn = pending_charts(diagnostics.drop_last());
                if turn < failures.len() {
                    match failures[turn as int] {
                        Some(detail) => before.push(chart_message(rel_id, detail)),
                        None => before,
                    }
                } else {
                    before
                }
            },
        }
    }
}

/// How many diagnostics wait for a chart to be drawn.
pub open spec fn pending_charts(diagnostics: Seq<DiagnosticView>) -> nat
    decreases diagnostics.len(),
{
    if diagnostics.len() == 0 {
        0
    } else {
        pending_charts(diagnostics.drop_last()) + match diagnostics.last() {
            DiagnosticView::Message(_) => 0nat,
            DiagnosticView::ChartPending { .. } => 1nat,
        }
    }
}

/// What is reported of a chart that cannot be shown.
pub open spec fn chart_message(rel_id: Seq<char>, detail: Seq<char>) -> Seq<char> {
    "Word chart relationship "@ + rel_id + ": "@ + detail
}

} // verus!
