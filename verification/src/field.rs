//! Fields: what they show, and the items that show it.

use vstd::prelude::*;
use vstd::string::StringExecFns;

use crate::bookmark::{bookmark_text, field_text_argument, page_ref_id};
use crate::document::{DisplaySegment, Field, LayoutInput, RunProperties, SegmentProperties, Theme};
use crate::plan::{
    Diagnostic, DiagnosticView, FieldKind, InlineItem, ItemView, ParagraphPlan, PlanView, TextItem,
    TextItemView,
};
use crate::style::{font_request, on, run_style, ChangeMarks};
use crate::text::{chars_of, str_eq, string_of};

verus! {

/// What the pieces of one run share.
#[derive(Debug)]
pub struct RunLook {
    pub properties: RunProperties,
    pub marks: ChangeMarks,
    pub hyperlink_url: Option<String>,
    /// Whether the run stands inside a change that is shown as one.
    pub changed: bool,
    /// The font of the run, by its place among the fonts of the paragraph.
    pub font: usize,
    /// The style of the run, by its place among the styles of the paragraph.
    pub style: usize,
}

/// A text in capital letters.
pub uninterp spec fn uppercase(text: Seq<char>) -> Seq<char>;

/// `str::to_uppercase`: the result is a function of the text.
#[verifier::external_body]
fn to_uppercase(text: &str) -> (upper: String)
    ensures
        upper@ == uppercase(text@),
{
    text.to_uppercase()
}

/// A text as it is shown, in capital letters if `caps` asks for them.
pub open spec fn shown(text: Seq<char>, caps: bool) -> Seq<char> {
    if caps {
        uppercase(text)
    } else {
        text
    }
}

/// A text as it is shown, in capital letters if `caps` asks for them.
pub fn show(text: &str, caps: bool) -> (result: String)
    ensures
        result@ == shown(text@, caps),
{
    if caps {
        to_uppercase(text)
    } else {
        text.to_owned()
    }
}

/// The plan with a text, unless the text is empty.
pub open spec fn text_added(
    plan: PlanView,
    style: int,
    text: Seq<char>,
    field: Option<FieldKind>,
) -> PlanView {
    if text.len() == 0 {
        plan
    } else {
        plan.with_item(ItemView::Text(TextItemView { style, text, field, note: None }))
    }
}

/// Adds a text, unless it is empty.
pub fn add_text(plan: &mut ParagraphPlan, style: usize, text: String, field: Option<FieldKind>)
    ensures
        final(plan)@ == text_added(old(plan)@, style as int, text@, field),
{
    if text.as_str().unicode_len() > 0 {
        plan.add_item(InlineItem::Text(TextItem { style, text, field, note: None }));
    }
}

/// What a field shows.
#[derive(Debug, PartialEq)]
pub enum FieldValue {
    /// Nothing at all.
    Skipped,
    /// The result that is stored with it.
    Stored,
    /// A text of its own, which the finished pages may replace.
    Computed { text: String, kind: Option<FieldKind> },
}

/// What a [`FieldValue`] stands for.
pub enum FieldValueView {
    Skipped,
    Stored,
    Computed { text: Seq<char>, kind: Option<FieldKind> },
}

impl View for FieldValue {
    type V = FieldValueView;

    open spec fn view(&self) -> FieldValueView {
        match *self {
            FieldValue::Skipped => FieldValueView::Skipped,
            FieldValue::Stored => FieldValueView::Stored,
            FieldValue::Computed { text, kind } => FieldValueView::Computed { text: text@, kind },
        }
    }
}

/// What stands for a page number until the pages are finished.
pub open spec fn page_placeholder(kind: FieldKind) -> FieldValueView {
    FieldValueView::Computed { text: "99"@, kind: Some(kind) }
}

/// What a field shows. A reference shows the text of its bookmark, a page
/// reference a placeholder for the page of its bookmark. Either shows its stored
/// result where the bookmark has no text, and nothing where it names none.
pub open spec fn field_value(input: LayoutInput, field: Field) -> FieldValueView {
    if field.name@ == "PAGE"@ {
        page_placeholder(FieldKind::Page)
    } else if field.name@ == "NUMPAGES"@ {
        page_placeholder(FieldKind::NumPages)
    } else if field.name@ == "REF"@ {
        match crate::bookmark::text_argument(field, 0) {
            None => FieldValueView::Skipped,
            Some(name) => match crate::bookmark::bookmark_text_of(input, name) {
                Some(text) => FieldValueView::Computed { text, kind: None },
                None => FieldValueView::Stored,
            },
        }
    } else if field.name@ == "PAGEREF"@ {
        match crate::bookmark::text_argument(field, 0) {
            None => FieldValueView::Skipped,
            Some(name) => if crate::bookmark::bookmark_text_of(input, name) is None {
                FieldValueView::Stored
            } else {
                match crate::bookmark::page_ref_of(input, name) {
                    Some(target) => page_placeholder(FieldKind::TargetPage(target)),
                    None => FieldValueView::Stored,
                }
            },
        }
    } else {
        FieldValueView::Stored
    }
}

/// What is reported of a reference to a bookmark without a text.
pub open spec fn missing_target(field: Seq<char>, bookmark: Seq<char>) -> Seq<char> {
    field + " target "@ + bookmark + " was not found, stored display retained"@
}

/// What is reported of a field.
pub open spec fn field_diagnostic(input: LayoutInput, field: Field) -> Option<DiagnosticView> {
    if field.name@ == "REF"@ || field.name@ == "PAGEREF"@ {
        match crate::bookmark::text_argument(field, 0) {
            None => None,
            Some(name) => if crate::bookmark::bookmark_text_of(input, name) is None {
                Some(DiagnosticView::Message(missing_target(field.name@, name)))
            } else {
                None
            },
        }
    } else {
        None
    }
}

/// The plan with what is reported of a field.
pub open spec fn field_reported(plan: PlanView, input: LayoutInput, field: Field) -> PlanView {
    match field_diagnostic(input, field) {
        Some(diagnostic) => plan.with_diagnostic(diagnostic),
        None => plan,
    }
}

fn missing_target_message(field: &str, bookmark: &str) -> (message: String)
    ensures
        message@ == missing_target(field@, bookmark@),
{
    let mut message = field.to_owned();
    message.append(" target ");
    message.append(bookmark);
    message.append(" was not found, stored display retained");
    message
}

/// The names of the fields that are computed are different names.
proof fn lemma_field_names_differ()
    ensures
        "PAGE"@ != "REF"@,
        "PAGE"@ != "PAGEREF"@,
        "NUMPAGES"@ != "REF"@,
        "NUMPAGES"@ != "PAGEREF"@,
        "REF"@ != "PAGEREF"@,
{
    reveal_strlit("PAGE");
    reveal_strlit("NUMPAGES");
    reveal_strlit("REF");
    reveal_strlit("PAGEREF");
    assert("PAGE"@.len() == 4);
    assert("NUMPAGES"@.len() == 8);
    assert("REF"@.len() == 3);
    assert("PAGEREF"@.len() == 7);
}

/// Finds out what a field shows, and reports a reference to a bookmark without
/// a text.
pub fn evaluate_field(
    input: &LayoutInput,
    field: &Field,
    plan: &mut ParagraphPlan,
) -> (value: FieldValue)
    ensures
        value@ == field_value(*input, *field),
        final(plan)@ == field_reported(old(plan)@, *input, *field),
{
    proof {
        lemma_field_names_differ();
    }
    let name = field.name.as_str();
    if str_eq(name, "PAGE") {
        return FieldValue::Computed { text: "99".to_owned(), kind: Some(FieldKind::Page) };
    }
    if str_eq(name, "NUMPAGES") {
        return FieldValue::Computed { text: "99".to_owned(), kind: Some(FieldKind::NumPages) };
    }
    let is_ref = str_eq(name, "REF");
    if !is_ref && !str_eq(name, "PAGEREF") {
        return FieldValue::Stored;
    }
    let bookmark = match field_text_argument(field, 0) {
        Some(bookmark) => bookmark,
        None => {
            return FieldValue::Skipped;
        },
    };
    match bookmark_text(input, bookmark) {
        None => {
            plan.report(Diagnostic::Message(missing_target_message(name, bookmark)));
            FieldValue::Stored
        },
        Some(text) => if is_ref {
            FieldValue::Computed { text, kind: None }
        } else {
            match page_ref_id(input, bookmark) {
                Some(target) => FieldValue::Computed {
                    text: "99".to_owned(),
                    kind: Some(FieldKind::TargetPage(target)),
                },
                None => FieldValue::Stored,
            }
        },
    }
}

/// A piece of a field result: text, or what a control character stands for.
pub enum Piece {
    Text(Seq<char>),
    Control(ItemView),
}

/// What a control character in a field result stands for.
pub open spec fn control_item(c: char) -> Option<ItemView> {
    if c == '\t' {
        Some(ItemView::Tab)
    } else if c == '\n' {
        Some(ItemView::LineBreak)
    } else if c == '\u{000c}' {
        Some(ItemView::PageBreak)
    } else if c == '\u{000b}' {
        Some(ItemView::ColumnBreak)
    } else {
        None
    }
}

/// The pieces of a field result. Text between control characters stays
/// together, and no text is empty.
pub open spec fn pieces(value: Seq<char>) -> Seq<Piece>
    decreases value.len(),
{
    if value.len() == 0 {
        Seq::empty()
    } else {
        let before = pieces(value.drop_last());
        match control_item(value.last()) {
            Some(item) => before.push(Piece::Control(item)),
            None => if before.len() > 0 && before.last() is Text {
                before.drop_last().push(Piece::Text(before.last()->Text_0.push(value.last())))
            } else {
                before.push(Piece::Text(seq![value.last()]))
            },
        }
    }
}

/// The plan with the pieces of a field result.
pub open spec fn pieces_added(
    plan: PlanView,
    style: int,
    parts: Seq<Piece>,
    caps: bool,
    kind: Option<FieldKind>,
) -> PlanView
    decreases parts.len(),
{
    if parts.len() == 0 {
        plan
    } else {
        let before = pieces_added(plan, style, parts.drop_last(), caps, kind);
        match parts.last() {
            Piece::Text(text) => text_added(before, style, shown(text, caps), kind),
            Piece::Control(item) => before.with_item(item),
        }
    }
}

/// The properties of a stored field result: those of its own styles and its own,
/// where it has any, and those of the run that the field stands in otherwise.
pub open spec fn segment_properties(
    run: RunProperties,
    stored: Option<SegmentProperties>,
) -> RunProperties {
    match stored {
        Some(own) => crate::properties::merged_run(own.style, own.direct),
        None => run,
    }
}

/// The plan with one field result, unless it is hidden.
pub open spec fn segment_added(
    plan: PlanView,
    theme: Option<Theme>,
    look: RunLook,
    value: Seq<char>,
    stored: Option<SegmentProperties>,
    kind: Option<FieldKind>,
) -> PlanView {
    let properties = segment_properties(look.properties, stored);
    if crate::style::is_on(properties.vanish) {
        plan
    } else {
        let font = plan.fonts.len() as usize;
        let style = crate::style::text_style(
            properties,
            theme,
            look.marks,
            font,
            look.hyperlink_url,
        );
        pieces_added(
            plan.with_font(crate::style::run_font(properties, theme, value)).with_style(style),
            plan.styles.len() as int,
            pieces(value),
            crate::style::is_on(properties.caps),
            kind,
        )
    }
}

/// The plan with the first `n` stored results of a field.
pub open spec fn stored_added(
    plan: PlanView,
    theme: Option<Theme>,
    look: RunLook,
    display: Seq<DisplaySegment>,
    n: nat,
) -> PlanView
    decreases n,
{
    if n == 0 {
        plan
    } else {
        segment_added(
            stored_added(plan, theme, look, display, (n - 1) as nat),
            theme,
            look,
            display[n - 1].text@,
            display[n - 1].properties,
            None,
        )
    }
}

/// The properties of the first stored result of a field.
pub open spec fn first_stored(field: Field) -> Option<SegmentProperties> {
    if field.display@.len() > 0 {
        field.display@[0].properties
    } else {
        None
    }
}

/// The plan with a field whose value is known. A computed value looks like the
/// first stored result.
pub open spec fn value_added(
    plan: PlanView,
    theme: Option<Theme>,
    look: RunLook,
    field: Field,
    value: FieldValueView,
) -> PlanView {
    match value {
        FieldValueView::Skipped => plan,
        FieldValueView::Stored => stored_added(
            plan,
            theme,
            look,
            field.display@,
            field.display@.len(),
        ),
        FieldValueView::Computed { text, kind } => segment_added(
            plan,
            theme,
            look,
            text,
            first_stored(field),
            kind,
        ),
    }
}

/// The plan with a field.
pub open spec fn field_added(
    plan: PlanView,
    input: LayoutInput,
    look: RunLook,
    field: Field,
) -> PlanView {
    value_added(
        field_reported(plan, input, field),
        input.theme,
        look,
        field,
        field_value(input, field),
    )
}

/// The item that a control character stands for.
fn control_of(c: char) -> (item: Option<InlineItem>)
    ensures
        match item {
            Some(item) => control_item(c) == Some(item@),
            None => control_item(c) is None,
        },
{
    if c == '\t' {
        Some(InlineItem::Tab)
    } else if c == '\n' {
        Some(InlineItem::LineBreak)
    } else if c == '\u{000c}' {
        Some(InlineItem::PageBreak)
    } else if c == '\u{000b}' {
        Some(InlineItem::ColumnBreak)
    } else {
        None
    }
}

/// The pieces of a value, once those before the text that has begun are known.
spec fn with_open_text(done: Seq<Piece>, text: Seq<char>) -> Seq<Piece> {
    if text.len() == 0 {
        done
    } else {
        done.push(Piece::Text(text))
    }
}

proof fn lemma_pieces_step(value: Seq<char>, done: Seq<Piece>, start: int, i: int)
    requires
        0 <= start <= i < value.len(),
        pieces(value.take(i)) == with_open_text(done, value.subrange(start, i)),
        done.len() > 0 ==> !(done.last() is Text),
    ensures
        control_item(value[i]) is None ==> pieces(value.take(i + 1)) == with_open_text(
            done,
            value.subrange(start, i + 1),
        ),
        control_item(value[i]) is Some ==> pieces(value.take(i + 1)) == with_open_text(
            done,
            value.subrange(start, i),
        ).push(Piece::Control(control_item(value[i])->Some_0)),
{
    assert(value.take(i + 1).drop_last() =~= value.take(i));
    assert(value.take(i + 1).last() == value[i]);
    let open = value.subrange(start, i);
    let longer = value.subrange(start, i + 1);
    assert(longer =~= open.push(value[i]));
    if control_item(value[i]) is None {
        let before = with_open_text(done, open);
        if open.len() > 0 {
            assert(before.drop_last() =~= done);
        } else {
            assert(longer =~= seq![value[i]]);
        }
    }
}

/// Adds the pieces of a field result.
fn add_pieces(
    plan: &mut ParagraphPlan,
    style: usize,
    value: &str,
    caps: bool,
    kind: Option<FieldKind>,
)
    ensures
        final(plan)@ == pieces_added(old(plan)@, style as int, pieces(value@), caps, kind),
{
    let chars = chars_of(value);
    let ghost base = plan@;
    let ghost mut done: Seq<Piece> = Seq::empty();
    let mut start: usize = 0;
    let mut i: usize = 0;
    proof {
        assert(chars@.take(0) =~= Seq::empty());
        assert(pieces(chars@.take(0)) =~= done);
    }
    while i < chars.len()
        invariant
            start <= i <= chars@.len(),
            chars@ == value@,
            pieces(chars@.take(i as int)) == with_open_text(
                done,
                chars@.subrange(start as int, i as int),
            ),
            done.len() > 0 ==> !(done.last() is Text),
            plan@ == pieces_added(base, style as int, done, caps, kind),
        decreases chars@.len() - i,
    {
        proof {
            lemma_pieces_step(chars@, done, start as int, i as int);
        }
        if let Some(control) = control_of(chars[i]) {
            let ghost open = chars@.subrange(start as int, i as int);
            let ghost closed = with_open_text(done, open);
            if start < i {
                let piece = string_of(&chars, start, i);
                let text = show(piece.as_str(), caps);
                add_text(plan, style, text, kind);
                proof {
                    assert(closed.drop_last() =~= done);
                }
            }
            proof {
                assert(plan@ == pieces_added(base, style as int, closed, caps, kind));
                let more = closed.push(Piece::Control(control@));
                assert(more.drop_last() =~= closed);
                done = more;
                assert(chars@.subrange(i + 1, i + 1) =~= Seq::empty());
            }
            plan.add_item(control);
            start = i + 1;
        }
        i += 1;
    }
    proof {
        assert(chars@.take(i as int) =~= chars@);
    }
    if start < i {
        let ghost closed = with_open_text(done, chars@.subrange(start as int, i as int));
        let piece = string_of(&chars, start, i);
        let text = show(piece.as_str(), caps);
        add_text(plan, style, text, kind);
        proof {
            assert(closed.drop_last() =~= done);
        }
    }
}

/// Adds one field result, unless it is hidden.
fn add_segment(
    plan: &mut ParagraphPlan,
    theme: &Option<Theme>,
    look: &RunLook,
    value: &str,
    stored: &Option<SegmentProperties>,
    kind: Option<FieldKind>,
)
    ensures
        final(plan)@ == segment_added(old(plan)@, *theme, *look, value@, *stored, kind),
{
    let properties = match stored {
        Some(own) => {
            let mut properties = own.style.duplicate();
            properties.merge_from(&own.direct);
            properties
        },
        None => look.properties.duplicate(),
    };
    if on(properties.vanish) {
        return;
    }
    let font = plan.add_font(font_request(&properties, theme, value.to_owned()));
    let style = plan.add_style(
        run_style(&properties, theme, look.marks, font, look.hyperlink_url.clone()),
    );
    add_pieces(plan, style, value, on(properties.caps), kind);
}

/// Adds a field whose value is known.
pub fn add_value(
    plan: &mut ParagraphPlan,
    theme: &Option<Theme>,
    look: &RunLook,
    field: &Field,
    value: &FieldValue,
)
    ensures
        final(plan)@ == value_added(old(plan)@, *theme, *look, *field, value@),
{
    match value {
        FieldValue::Skipped => {},
        FieldValue::Stored => {
            let ghost base = plan@;
            let mut i: usize = 0;
            while i < field.display.len()
                invariant
                    i <= field.display@.len(),
                    plan@ == stored_added(base, *theme, *look, field.display@, i as nat),
                decreases field.display@.len() - i,
            {
                let segment = &field.display[i];
                add_segment(plan, theme, look, segment.text.as_str(), &segment.properties, None);
                i += 1;
            }
        },
        FieldValue::Computed { text, kind } => {
            if field.display.len() > 0 {
                add_segment(plan, theme, look, text.as_str(), &field.display[0].properties, *kind);
            } else {
                add_segment(plan, theme, look, text.as_str(), &None, *kind);
            }
        },
    }
}

/// Adds a field.
pub fn add_field(plan: &mut ParagraphPlan, input: &LayoutInput, look: &RunLook, field: &Field)
    ensures
        final(plan)@ == field_added(old(plan)@, *input, *look, *field),
{
    let value = evaluate_field(input, field, plan);
    add_value(plan, &input.theme, look, field, &value);
}

} // verus!
