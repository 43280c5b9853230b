//! What is left to do once the pages are finished: page numbers are filled in,
//! bookmarks are taken out, and the background is put under everything.
//!
//! `L` is the measure of positions and advances.

use std::collections::HashMap;

use vstd::prelude::*;

use crate::color::{extract_background_color, Color};
use crate::plan::FieldKind;
use crate::text::decimal_string;

verus! {

/// Glyphs on a page. Where they stand and which font they are in is found in a
/// table of the caller, at `style`.
#[derive(Debug, PartialEq)]
pub struct GlyphRun<L> {
    pub text: String,
    pub glyph_ids: Vec<u16>,
    pub advances: Vec<L>,
    pub field_kind: Option<FieldKind>,
    pub style: u32,
}

/// A rectangle on a page.
#[derive(Debug, PartialEq)]
pub struct Rect<L> {
    pub x: L,
    pub y: L,
    pub width: L,
    pub height: L,
}

/// Something on a page.
#[derive(Debug, PartialEq)]
pub enum PositionedElement<L> {
    Text(GlyphRun<L>),
    FilledRect { rect: Rect<L>, color: Color },
    /// Anything else, by its place in a table that the caller keeps.
    Other(u64),
}

/// A page.
#[derive(Debug, PartialEq)]
pub struct PageFrame<L> {
    pub page_number: usize,
    pub width: L,
    pub height: L,
    pub elements: Vec<PositionedElement<L>>,
}

/// The glyphs of a text.
#[derive(Debug, PartialEq)]
pub struct ShapedText<L> {
    pub glyph_ids: Vec<u16>,
    pub advances: Vec<L>,
}

/// What a [`GlyphRun`] stands for.
pub struct GlyphRunView<L> {
    pub text: Seq<char>,
    pub glyph_ids: Seq<u16>,
    pub advances: Seq<L>,
    pub field_kind: Option<FieldKind>,
    pub style: u32,
}

/// What a [`PositionedElement`] stands for.
pub enum ElementView<L> {
    Text(GlyphRunView<L>),
    FilledRect { rect: Rect<L>, color: Color },
    Other(u64),
}

/// What a [`PageFrame`] stands for.
pub struct PageView<L> {
    pub page_number: usize,
    pub width: L,
    pub height: L,
    pub elements: Seq<ElementView<L>>,
}

/// A text that a field shows, and the style that it has to be measured in.
#[derive(Debug, PartialEq)]
pub struct FieldText {
    pub style: u32,
    pub text: String,
}

/// What a [`FieldText`] stands for.
pub struct FieldTextView {
    pub style: u32,
    pub text: Seq<char>,
}

impl View for FieldText {
    type V = FieldTextView;

    open spec fn view(&self) -> FieldTextView {
        FieldTextView { style: self.style, text: self.text@ }
    }
}

/// What texts of fields stand for.
pub open spec fn field_text_views(texts: Seq<FieldText>) -> Seq<FieldTextView> {
    texts.map_values(|text: FieldText| text@)
}

/// What a [`ShapedText`] stands for.
pub struct ShapedTextView<L> {
    pub glyph_ids: Seq<u16>,
    pub advances: Seq<L>,
}

impl<L> View for GlyphRun<L> {
    type V = GlyphRunView<L>;

    open spec fn view(&self) -> GlyphRunView<L> {
        GlyphRunView {
            text: self.text@,
            glyph_ids: self.glyph_ids@,
            advances: self.advances@,
            field_kind: self.field_kind,
            style: self.style,
        }
    }
}

impl<L> View for PositionedElement<L> {
    type V = ElementView<L>;

    open spec fn view(&self) -> ElementView<L> {
        match *self {
            PositionedElement::Text(run) => ElementView::Text(run@),
            PositionedElement::FilledRect { rect, color } => ElementView::FilledRect {
                rect,
                color,
            },
            PositionedElement::Other(place) => ElementView::Other(place),
        }
    }
}

/// What elements stand for.
pub open spec fn element_views<L>(elements: Seq<PositionedElement<L>>) -> Seq<ElementView<L>> {
    elements.map_values(|element: PositionedElement<L>| element@)
}

impl<L> View for PageFrame<L> {
    type V = PageView<L>;

    open spec fn view(&self) -> PageView<L> {
        PageView {
            page_number: self.page_number,
            width: self.width,
            height: self.height,
            elements: element_views(self.elements@),
        }
    }
}

/// What pages stand for.
pub open spec fn page_views<L>(pages: Seq<PageFrame<L>>) -> Seq<PageView<L>> {
    pages.map_values(|page: PageFrame<L>| page@)
}

/// What glyphs that may be missing stand for.
pub open spec fn shaped_view<L>(shaped: Option<ShapedText<L>>) -> Option<ShapedTextView<L>> {
    match shaped {
        Some(shaped) => Some(
            ShapedTextView { glyph_ids: shaped.glyph_ids@, advances: shaped.advances@ },
        ),
        None => None,
    }
}

/// What lists of glyphs that may be missing stand for.
pub open spec fn shaped_views<L>(shapes: Seq<Option<ShapedText<L>>>) -> Seq<
    Option<ShapedTextView<L>>,
> {
    shapes.map_values(|shaped: Option<ShapedText<L>>| shaped_view(shaped))
}

/// The bookmark that an element stands for.
pub open spec fn target_in<L>(element: ElementView<L>) -> Option<usize> {
    match element {
        ElementView::Text(run) => match run.field_kind {
            Some(FieldKind::Target(target)) => Some(target),
            _ => None,
        },
        _ => None,
    }
}

/// On which pages bookmarks are, after the first `n` elements of a page.
pub open spec fn targets_on_page<L>(known: Map<usize, usize>, page: PageView<L>, n: nat) -> Map<
    usize,
    usize,
>
    decreases n,
{
    if n == 0 {
        known
    } else {
        let before = targets_on_page(known, page, (n - 1) as nat);
        match target_in(page.elements[n - 1]) {
            Some(target) => before.insert(target, page.page_number),
            None => before,
        }
    }
}

/// On which pages bookmarks are, as far as the first `n` pages tell. A bookmark
/// that comes up again is on the page where it came up last.
pub open spec fn target_pages<L>(pages: Seq<PageView<L>>, n: nat) -> Map<usize, usize>
    decreases n,
{
    if n == 0 {
        Map::empty()
    } else {
        targets_on_page(
            target_pages(pages, (n - 1) as nat),
            pages[n - 1],
            pages[n - 1].elements.len(),
        )
    }
}

/// The bookmark that an element stands for.
fn find_target<L>(element: &PositionedElement<L>) -> (target: Option<usize>)
    ensures
        target == target_in(element@),
{
    match element {
        PositionedElement::Text(run) => match run.field_kind {
            Some(FieldKind::Target(target)) => Some(target),
            _ => None,
        },
        _ => None,
    }
}

/// On which pages bookmarks are.
pub fn bookmark_pages<L>(pages: &Vec<PageFrame<L>>) -> (found: HashMap<usize, usize>)
    ensures
        found@ == target_pages(page_views(pages@), pages@.len()),
{
    broadcast use vstd::std_specs::hash::group_hash_axioms;

    let ghost views = page_views(pages@);
    let mut found: HashMap<usize, usize> = HashMap::new();
    let mut i: usize = 0;
    while i < pages.len()
        invariant
            i <= pages@.len(),
            views == page_views(pages@),
            found@ == target_pages(views, i as nat),
        decreases pages@.len() - i,
    {
        let page = &pages[i];
        let ghost known = found@;
        let mut j: usize = 0;
        proof {
            assert(views[i as int] == page@);
        }
        while j < page.elements.len()
            invariant
                j <= page.elements@.len(),
                found@ == targets_on_page(known, page@, j as nat),
            decreases page.elements@.len() - j,
        {
            proof {
                assert(page@.elements[j as int] == page.elements@[j as int]@);
            }
            if let Some(target) = find_target(&page.elements[j]) {
                found.insert(target, page.page_number);
            }
            j += 1;
        }
        i += 1;
    }
    found
}

/// What the finished pages tell about fields on one of them.
pub struct PageFacts {
    pub page_number: usize,
    pub total_pages: usize,
    pub bookmark_pages: Map<usize, usize>,
}

/// What a field shows on a page. A page reference to a bookmark that is on no
/// page keeps its text, and a bookmark has nothing to show.
pub open spec fn value_on_page<L>(element: ElementView<L>, facts: PageFacts) -> Option<Seq<char>> {
    match element {
        ElementView::Text(run) => match run.field_kind {
            Some(FieldKind::Page) => Some(crate::text::decimal(facts.page_number as nat)),
            Some(FieldKind::NumPages) => Some(crate::text::decimal(facts.total_pages as nat)),
            Some(FieldKind::TargetPage(target)) => Some(
                if facts.bookmark_pages.dom().contains(target) {
                    crate::text::decimal(facts.bookmark_pages[target] as nat)
                } else {
                    run.text
                },
            ),
            _ => None,
        },
        _ => None,
    }
}

/// The values of the first `n` elements that have one.
pub open spec fn values_on_page<L>(elements: Seq<ElementView<L>>, facts: PageFacts, n: nat) -> Seq<
    FieldTextView,
>
    decreases n,
{
    if n == 0 {
        Seq::empty()
    } else {
        let before = values_on_page(elements, facts, (n - 1) as nat);
        match value_on_page(elements[n - 1], facts) {
            Some(text) => before.push(FieldTextView { style: style_in(elements[n - 1]), text }),
            None => before,
        }
    }
}

/// The style of an element.
pub open spec fn style_in<L>(element: ElementView<L>) -> u32 {
    match element {
        ElementView::Text(run) => run.style,
        _ => 0,
    }
}

fn find_style<L>(element: &PositionedElement<L>) -> (style: u32)
    ensures
        style == style_in(element@),
{
    match element {
        PositionedElement::Text(run) => run.style,
        _ => 0,
    }
}

/// What a field shows on a page.
fn find_value<L>(
    element: &PositionedElement<L>,
    page_number: usize,
    total_pages: usize,
    bookmark_pages: &HashMap<usize, usize>,
) -> (value: Option<String>)
    ensures
        crate::text::opt_view(value) == value_on_page(
            element@,
            PageFacts { page_number, total_pages, bookmark_pages: bookmark_pages@ },
        ),
{
    broadcast use vstd::std_specs::hash::group_hash_axioms;

    match element {
        PositionedElement::Text(run) => match run.field_kind {
            Some(FieldKind::Page) => Some(decimal_string(page_number as u64)),
            Some(FieldKind::NumPages) => Some(decimal_string(total_pages as u64)),
            Some(FieldKind::TargetPage(target)) => match bookmark_pages.get(&target) {
                Some(page) => Some(decimal_string(*page as u64)),
                None => Some(run.text.clone()),
            },
            _ => None,
        },
        _ => None,
    }
}

/// The texts that fields show on a page, in the order of its elements. They have
/// to be measured before they can be put in place.
pub fn field_values<L>(
    elements: &Vec<PositionedElement<L>>,
    page_number: usize,
    total_pages: usize,
    bookmark_pages: &HashMap<usize, usize>,
) -> (values: Vec<FieldText>)
    ensures
        field_text_views(values@) == values_on_page(
            element_views(elements@),
            PageFacts { page_number, total_pages, bookmark_pages: bookmark_pages@ },
            elements@.len(),
        ),
{
    let ghost facts = PageFacts { page_number, total_pages, bookmark_pages: bookmark_pages@ };
    let ghost views = element_views(elements@);
    let mut values: Vec<FieldText> = Vec::new();
    let mut i: usize = 0;
    proof {
        assert(field_text_views(values@) =~= values_on_page(views, facts, 0));
    }
    while i < elements.len()
        invariant
            i <= elements@.len(),
            views == element_views(elements@),
            facts == (PageFacts { page_number, total_pages, bookmark_pages: bookmark_pages@ }),
            field_text_views(values@) == values_on_page(views, facts, i as nat),
        decreases elements@.len() - i,
    {
        proof {
            assert(views[i as int] == elements@[i as int]@);
        }
        if let Some(text) = find_value(&elements[i], page_number, total_pages, bookmark_pages) {
            let value = FieldText { style: find_style(&elements[i]), text };
            proof {
                assert(field_text_views(values@.push(value)) =~= field_text_views(values@).push(
                    value@,
                ));
            }
            values.push(value);
        }
        i += 1;
    }
    values
}

/// An element with its value in place, unless the value could not be measured.
pub open spec fn with_value<L>(
    element: ElementView<L>,
    value: Seq<char>,
    shaped: Option<ShapedTextView<L>>,
) -> ElementView<L> {
    match (element, shaped) {
        (ElementView::Text(run), Some(shaped)) => ElementView::Text(
            GlyphRunView {
                text: value,
                glyph_ids: shaped.glyph_ids,
                advances: shaped.advances,
                ..run
            },
        ),
        _ => element,
    }
}

/// The elements of a page with their values in place. The value of each is the
/// next of those that were measured.
pub open spec fn filled_in<L>(
    elements: Seq<ElementView<L>>,
    facts: PageFacts,
    shapes: Seq<Option<ShapedTextView<L>>>,
) -> Seq<ElementView<L>> {
    Seq::new(
        elements.len(),
        |i: int| filled_element(elements, facts, shapes, i),
    )
}

/// The element at index `i` with its value in place.
pub open spec fn filled_element<L>(
    elements: Seq<ElementView<L>>,
    facts: PageFacts,
    shapes: Seq<Option<ShapedTextView<L>>>,
    i: int,
) -> ElementView<L> {
    match value_on_page(elements[i], facts) {
        Some(value) => with_value(
            elements[i],
            value,
            shapes[values_on_page(elements, facts, i as nat).len() as int],
        ),
        None => elements[i],
    }
}

/// The condition that an element is not a bookmark.
pub open spec fn shows_something<L>() -> spec_fn(ElementView<L>) -> bool {
    |element: ElementView<L>| target_in(element) is None
}

/// The elements of a page once its fields are filled in and its bookmarks are
/// taken out.
pub open spec fn substituted<L>(
    elements: Seq<ElementView<L>>,
    facts: PageFacts,
    shapes: Seq<Option<ShapedTextView<L>>>,
) -> Seq<ElementView<L>> {
    filled_in(elements, facts, shapes).filter(shows_something())
}

/// An element with its value in place, unless the value could not be measured.
fn put_value<L>(
    element: PositionedElement<L>,
    value: String,
    shaped: Option<ShapedText<L>>,
) -> (filled: PositionedElement<L>)
    ensures
        filled@ == with_value(element@, value@, shaped_view(shaped)),
{
    match (element, shaped) {
        (PositionedElement::Text(run), Some(shaped)) => PositionedElement::Text(
            GlyphRun {
                text: value,
                glyph_ids: shaped.glyph_ids,
                advances: shaped.advances,
                field_kind: run.field_kind,
                style: run.style,
            },
        ),
        (element, _) => element,
    }
}

/// What the elements of a page come to from index `i` on, one by one.
proof fn lemma_suffix_kept<L>(elements: Seq<ElementView<L>>, i: int)
    requires
        0 <= i < elements.len(),
    ensures
        elements.skip(i).filter(shows_something()) == if target_in(elements[i]) is None {
            seq![elements[i]] + elements.skip(i + 1).filter(shows_something())
        } else {
            elements.skip(i + 1).filter(shows_something())
        },
{
    let keep = shows_something::<L>();
    let first = seq![elements[i]];
    let rest = elements.skip(i + 1);
    assert(elements.skip(i) =~= first + rest);
    Seq::filter_distributes_over_add(first, rest, keep);
    reveal_with_fuel(Seq::filter, 2);
    assert(first.drop_last() =~= Seq::empty());
    assert(keep(elements[i]) == (target_in(elements[i]) is None));
    if keep(elements[i]) {
        assert(first.filter(keep) =~= first);
    } else {
        assert(first.filter(keep) =~= Seq::empty());
        assert(Seq::<ElementView<L>>::empty() + rest.filter(keep) =~= rest.filter(keep));
    }
}

proof fn lemma_element_views_push<L>(
    elements: Seq<PositionedElement<L>>,
    element: PositionedElement<L>,
)
    ensures
        element_views(elements.push(element)) == element_views(elements).push(element@),
{
    assert(element_views(elements.push(element)) =~= element_views(elements).push(element@));
}

/// Replaces the placeholders of fields on a page by what they show there, and
/// takes the bookmarks out. `shapes` holds the glyphs of each value in turn, or
/// nothing for one that could not be measured and is left as it is.
pub fn substitute_fields<L>(
    elements: &mut Vec<PositionedElement<L>>,
    page_number: usize,
    total_pages: usize,
    bookmark_pages: &HashMap<usize, usize>,
    shapes: Vec<Option<ShapedText<L>>>,
)
    requires
        shapes@.len() == values_on_page(
            element_views(old(elements)@),
            PageFacts { page_number, total_pages, bookmark_pages: bookmark_pages@ },
            old(elements)@.len(),
        ).len(),
    ensures
        element_views(final(elements)@) == substituted(
            element_views(old(elements)@),
            PageFacts { page_number, total_pages, bookmark_pages: bookmark_pages@ },
            shaped_views(shapes@),
        ),
{
    let ghost facts = PageFacts { page_number, total_pages, bookmark_pages: bookmark_pages@ };
    let ghost views = element_views(elements@);
    let ghost given = shapes@;
    let ghost filled = filled_in(views, facts, shaped_views(given));
    let ghost keep = shows_something::<L>();
    let mut shapes = shapes;
    let mut kept: Vec<PositionedElement<L>> = Vec::new();
    proof {
        reveal(Seq::filter);
        assert(filled.skip(elements@.len() as int) =~= Seq::empty());
        assert(element_views(kept@).reverse() =~= filled.skip(elements@.len() as int).filter(keep));
        assert(given.take(shapes@.len() as int) =~= given);
        assert(views =~= views.take(elements@.len() as int));
    }
    while elements.len() > 0
        invariant
            facts == (PageFacts { page_number, total_pages, bookmark_pages: bookmark_pages@ }),
            elements@.len() <= views.len(),
            filled == filled_in(views, facts, shaped_views(given)),
            keep == shows_something::<L>(),
            element_views(elements@) == views.take(elements@.len() as int),
            shapes@.len() <= given.len(),
            shapes@.len() == values_on_page(views, facts, elements@.len()).len(),
            shapes@ == given.take(shapes@.len() as int),
            element_views(kept@).reverse() == filled.skip(elements@.len() as int).filter(keep),
        decreases elements@.len(),
    {
        let ghost i = elements@.len() - 1;
        let ghost before = elements@;
        proof {
            assert(element_views(before)[i] == before[i]@);
        }
        if let Some(element) = elements.pop() {
            proof {
                assert(element@ == views[i]);
                assert(element_views(elements@) =~= views.take(i));
                lemma_suffix_kept(filled, i);
                assert(filled[i] == filled_element(views, facts, shaped_views(given), i));
            }
            let done = match find_value(&element, page_number, total_pages, bookmark_pages) {
                Some(value) => {
                    let ghost last = shapes@.len() - 1;
                    proof {
                        assert(shaped_views(given)[last] == shaped_view(given[last]));
                        assert(shapes@.take(last) =~= given.take(last));
                    }
                    match shapes.pop() {
                        Some(shaped) => put_value(element, value, shaped),
                        None => element,
                    }
                },
                None => element,
            };
            proof {
                assert(done@ == filled[i]);
                lemma_element_views_push(kept@, done);
                let shown = element_views(kept@);
                assert(shown.push(done@).reverse() =~= seq![done@] + shown.reverse());
            }
            if find_target(&done).is_none() {
                kept.push(done);
            }
        }
    }
    let ghost all = element_views(kept@).reverse();
    proof {
        assert(filled.skip(0) =~= filled);
        assert(element_views(elements@) + element_views(kept@).reverse() =~= all);
    }
    while kept.len() > 0
        invariant
            element_views(elements@) + element_views(kept@).reverse() == all,
        decreases kept@.len(),
    {
        let ghost shown = element_views(kept@);
        let ghost placed = element_views(elements@);
        let ghost last = kept@.len() - 1;
        proof {
            assert(shown[last] == kept@[last]@);
        }
        if let Some(element) = kept.pop() {
            proof {
                lemma_element_views_push(elements@, element);
                assert(element_views(kept@) =~= shown.take(last));
                assert(shown.reverse() =~= seq![element@] + shown.take(last).reverse());
                assert(placed.push(element@) + element_views(kept@).reverse() =~= placed
                    + shown.reverse());
            }
            elements.push(element);
        }
    }
    proof {
        assert(element_views(kept@).reverse() =~= Seq::empty());
        assert(element_views(elements@) =~= all);
    }
}

/// `std::str::from_utf8`: a text whose encoding the bytes are, or none if they
/// are not valid UTF-8.
#[verifier::external_body]
fn text_of_bytes(bytes: &[u8]) -> (text: Option<&str>)
    ensures
        match text {
            Some(text) => vstd::utf8::encode_utf8(text@) == bytes@,
            None => !vstd::utf8::valid_utf8(bytes@),
        },
{
    std::str::from_utf8(bytes).ok()
}

/// The color that the background element of a document asks for.
pub open spec fn background_color(xml: Option<Vec<u8>>) -> Option<Seq<char>> {
    match xml {
        Some(bytes) => if vstd::utf8::valid_utf8(bytes@) {
            crate::color::background_hex(vstd::utf8::decode_utf8(bytes@))
        } else {
            None
        },
        None => None,
    }
}

/// Whether a page is another one with a rectangle of the page's size, in the
/// color `hex`, under everything else.
pub open spec fn is_on_background<L>(
    page: PageView<L>,
    before: PageView<L>,
    hex: Seq<char>,
    origin: L,
) -> bool {
    &&& page.page_number == before.page_number
    &&& page.width == before.width
    &&& page.height == before.height
    &&& page.elements.len() == before.elements.len() + 1
    &&& page.elements.skip(1) == before.elements
    &&& page.elements[0] matches ElementView::FilledRect { rect, color } && rect == (Rect {
        x: origin,
        y: origin,
        width: before.width,
        height: before.height,
    }) && (color matches Color::Hex(text) && text@ == hex)
}

/// The color that the background element of a document asks for.
fn find_background(xml: &Option<Vec<u8>>) -> (color: Option<String>)
    ensures
        crate::text::opt_view(color) == background_color(*xml),
{
    match xml {
        Some(bytes) => match text_of_bytes(bytes.as_slice()) {
            Some(text) => {
                proof {
                    vstd::utf8::encode_utf8_valid_utf8(text@);
                    vstd::utf8::encode_utf8_decode_utf8(text@);
                }
                match extract_background_color(text) {
                    Some(Color::Hex(hex)) => Some(hex),
                    _ => None,
                }
            },
            None => None,
        },
        None => None,
    }
}

/// Applies the background color of a document to all pages: a rectangle of the
/// page's size, which begins at `origin` in both directions, under everything
/// else.
pub fn apply_page_background<L: Copy>(
    pages: &mut Vec<PageFrame<L>>,
    background_xml: &Option<Vec<u8>>,
    origin: L,
)
    ensures
        final(pages)@.len() == old(pages)@.len(),
        match background_color(*background_xml) {
            Some(hex) => forall|i: int|
                0 <= i < old(pages)@.len() ==> is_on_background(
                    #[trigger] final(pages)@[i]@,
                    old(pages)@[i]@,
                    hex,
                    origin,
                ),
            None => final(pages)@ == old(pages)@,
        },
{
    let hex = match find_background(background_xml) {
        Some(hex) => hex,
        None => {
            return;
        },
    };
    let ghost before = pages@;
    let mut i: usize = 0;
    while i < pages.len()
        invariant
            i <= pages@.len(),
            pages@.len() == before.len(),
            forall|k: int|
                0 <= k < i ==> is_on_background(#[trigger] pages@[k]@, before[k]@, hex@, origin),
            forall|k: int| i <= k < pages@.len() ==> #[trigger] pages@[k] == before[k],
        decreases pages@.len() - i,
    {
        let page = &mut pages[i];
        let rect = Rect { x: origin, y: origin, width: page.width, height: page.height };
        let color = Color::Hex(hex.clone());
        let ghost elements = page.elements@;
        page.elements.insert(0, PositionedElement::FilledRect { rect, color });
        proof {
            let after = page@.elements;
            assert(after.skip(1) =~= element_views(elements));
            assert(after[0] == page.elements@[0]@);
        }
        i += 1;
    }
}

/// Filling in fields leaves no bookmark on a page.
pub proof fn law_no_bookmark_is_left<L>(
    elements: Seq<ElementView<L>>,
    facts: PageFacts,
    shapes: Seq<Option<ShapedTextView<L>>>,
)
    ensures
        forall|i: int|
            0 <= i < substituted(elements, facts, shapes).len() ==> target_in(
                #[trigger] substituted(elements, facts, shapes)[i],
            ) is None,
{
    let filled = filled_in(elements, facts, shapes);
    let keep = shows_something::<L>();
    let left = substituted(elements, facts, shapes);
    assert forall|i: int| 0 <= i < left.len() implies target_in(#[trigger] left[i]) is None by {
        filled.lemma_filter_pred(keep, i);
        assert(keep(left[i]));
    }
}

/// Whether a bookmark is on a page.
pub open spec fn holds_target<L>(page: PageView<L>, target: usize) -> bool {
    exists|j: int|
        0 <= j < page.elements.len() && target_in(#[trigger] page.elements[j]) == Some(target)
}

/// Whether a bookmark is among the first `n` elements of a page.
spec fn holds_target_before<L>(page: PageView<L>, target: usize, n: nat) -> bool {
    exists|j: int| 0 <= j < n && target_in(#[trigger] page.elements[j]) == Some(target)
}

proof fn lemma_targets_on_page<L>(
    known: Map<usize, usize>,
    page: PageView<L>,
    n: nat,
    target: usize,
)
    requires
        n <= page.elements.len(),
    ensures
        ({
            let after = targets_on_page(known, page, n);
            if holds_target_before(page, target, n) {
                after.dom().contains(target) && after[target] == page.page_number
            } else {
                after.dom().contains(target) == known.dom().contains(target) && (
                known.dom().contains(target) ==> after[target] == known[target])
            }
        }),
    decreases n,
{
    if n > 0 {
        lemma_targets_on_page(known, page, (n - 1) as nat, target);
        if target_in(page.elements[n - 1]) == Some(target) {
            assert(holds_target_before(page, target, n));
        } else if holds_target_before(page, target, (n - 1) as nat) {
            let j = choose|j: int|
                0 <= j < n - 1 && target_in(#[trigger] page.elements[j]) == Some(target);
            assert(holds_target_before(page, target, n));
        } else if holds_target_before(page, target, n) {
            let j = choose|j: int|
                0 <= j < n && target_in(#[trigger] page.elements[j]) == Some(target);
            assert(holds_target_before(page, target, (n - 1) as nat));
        }
    }
}

proof fn lemma_target_pages<L>(pages: Seq<PageView<L>>, n: nat, target: usize)
    requires
        n <= pages.len(),
    ensures
        target_pages(pages, n).dom().contains(target) <==> exists|i: int|
            0 <= i < n && holds_target(#[trigger] pages[i], target),
        target_pages(pages, n).dom().contains(target) ==> exists|i: int|
            0 <= i < n && holds_target(#[trigger] pages[i], target) && pages[i].page_number
                == target_pages(pages, n)[target] && forall|k: int|
                i < k < n ==> !holds_target(#[trigger] pages[k], target),
    decreases n,
{
    if n > 0 {
        lemma_target_pages(pages, (n - 1) as nat, target);
        let page = pages[n - 1];
        let known = target_pages(pages, (n - 1) as nat);
        lemma_targets_on_page(known, page, page.elements.len(), target);
        assert(holds_target_before(page, target, page.elements.len()) == holds_target(page, target));
        if holds_target(page, target) {
            assert(holds_target(pages[n - 1], target));
        } else if known.dom().contains(target) {
            let i = choose|i: int|
                0 <= i < n - 1 && holds_target(#[trigger] pages[i], target)
                    && pages[i].page_number == known[target] && forall|k: int|
                    i < k < n - 1 ==> !holds_target(#[trigger] pages[k], target);
            assert(holds_target(pages[i], target));
            assert forall|k: int| i < k < n implies !holds_target(#[trigger] pages[k], target) by {}
        }
    }
}

/// A bookmark is found exactly if it is on some page, and its page is the last
/// one that it is on.
pub proof fn law_bookmarks_are_found_on_their_pages<L>(pages: Seq<PageView<L>>, target: usize)
    ensures
        target_pages(pages, pages.len()).dom().contains(target) <==> exists|i: int|
            0 <= i < pages.len() && holds_target(#[trigger] pages[i], target),
        target_pages(pages, pages.len()).dom().contains(target) ==> exists|i: int|
            0 <= i < pages.len() && holds_target(#[trigger] pages[i], target)
                && pages[i].page_number == target_pages(pages, pages.len())[target] && forall|
                k: int,
            |
                i < k < pages.len() ==> !holds_target(#[trigger] pages[k], target),
{
    lemma_target_pages(pages, pages.len(), target);
}

/// A page reference shows the number of the last page that its bookmark is on,
/// and keeps its text if the bookmark is on no page.
pub proof fn law_page_references_show_the_page_of_their_bookmark<L>(
    pages: Seq<PageView<L>>,
    run: GlyphRunView<L>,
    target: usize,
    facts: PageFacts,
)
    requires
        run.field_kind == Some(FieldKind::TargetPage(target)),
        facts.bookmark_pages == target_pages(pages, pages.len()),
    ensures
        ({
            let shown = value_on_page(ElementView::Text(run), facts);
            ||| shown == Some(run.text) && forall|i: int|
                0 <= i < pages.len() ==> !holds_target(#[trigger] pages[i], target)
            ||| exists|i: int|
                0 <= i < pages.len() && holds_target(#[trigger] pages[i], target) && shown == Some(
                    crate::text::decimal(pages[i].page_number as nat),
                ) && forall|k: int| i < k < pages.len() ==> !holds_target(#[trigger] pages[k], target)
        }),
{
    law_bookmarks_are_found_on_their_pages(pages, target);
}

/// Whether an element is an ordinary one, without any field.
pub open spec fn is_ordinary<L>(element: ElementView<L>) -> bool {
    match element {
        ElementView::Text(run) => run.field_kind is None,
        _ => true,
    }
}

/// A page without fields stays as it is.
pub proof fn law_a_page_without_fields_is_unchanged<L>(
    elements: Seq<ElementView<L>>,
    facts: PageFacts,
    shapes: Seq<Option<ShapedTextView<L>>>,
)
    requires
        forall|i: int| 0 <= i < elements.len() ==> is_ordinary(#[trigger] elements[i]),
    ensures
        substituted(elements, facts, shapes) == elements,
        values_on_page(elements, facts, elements.len()).len() == 0,
{
    let keep = shows_something::<L>();
    assert forall|i: int| 0 <= i < elements.len() implies filled_in(elements, facts, shapes)[i]
        == #[trigger] elements[i] by {
        assert(is_ordinary(elements[i]));
    }
    assert(filled_in(elements, facts, shapes) =~= elements);
    assert forall|i: int| 0 <= i < elements.len() implies keep(#[trigger] elements[i]) by {
        assert(is_ordinary(elements[i]));
    }
    lemma_all_kept(elements);
    lemma_no_values(elements, facts, elements.len());
}

proof fn lemma_all_kept<L>(elements: Seq<ElementView<L>>)
    requires
        forall|i: int|
            0 <= i < elements.len() ==> #[trigger] shows_something::<L>()(elements[i]),
    ensures
        elements.filter(shows_something()) == elements,
    decreases elements.len(),
{
    reveal(Seq::filter);
    if elements.len() > 0 {
        let rest = elements.drop_last();
        assert forall|i: int| 0 <= i < rest.len() implies #[trigger] shows_something::<L>()(
            rest[i],
        ) by {
            assert(shows_something::<L>()(elements[i]));
        }
        lemma_all_kept(rest);
        assert(shows_something::<L>()(elements[elements.len() - 1]));
        assert(rest.push(elements.last()) =~= elements);
    }
}

proof fn lemma_no_values<L>(elements: Seq<ElementView<L>>, facts: PageFacts, n: nat)
    requires
        n <= elements.len(),
        forall|i: int| 0 <= i < elements.len() ==> is_ordinary(#[trigger] elements[i]),
    ensures
        values_on_page(elements, facts, n).len() == 0,
    decreases n,
{
    if n > 0 {
        lemma_no_values(elements, facts, (n - 1) as nat);
        assert(is_ordinary(elements[n - 1]));
    }
}

/// The values of the first elements depend on these elements alone.
proof fn lemma_values_of_prefix<L>(
    a: Seq<ElementView<L>>,
    b: Seq<ElementView<L>>,
    facts: PageFacts,
    n: nat,
)
    requires
        n <= a.len(),
        n <= b.len(),
        forall|i: int| 0 <= i < n ==> #[trigger] a[i] == b[i],
    ensures
        values_on_page(a, facts, n) == values_on_page(b, facts, n),
    decreases n,
{
    if n > 0 {
        lemma_values_of_prefix(a, b, facts, (n - 1) as nat);
        assert(a[n - 1] == b[n - 1]);
    }
}

/// Putting a value in place changes neither what the element has to show nor
/// its style.
proof fn lemma_value_in_place<L>(
    element: ElementView<L>,
    facts: PageFacts,
    value: Seq<char>,
    shaped: Option<ShapedTextView<L>>,
)
    requires
        value_on_page(element, facts) == Some(value),
    ensures
        value_on_page(with_value(element, value, shaped), facts) == Some(value),
        style_in(with_value(element, value, shaped)) == style_in(element),
        target_in(with_value(element, value, shaped)) is None,
        with_value(with_value(element, value, shaped), value, shaped) == with_value(
            element,
            value,
            shaped,
        ),
{
}

/// Among the elements that are left of the first `n`, the values are the same
/// and are in place already.
proof fn lemma_filled_once<L>(
    elements: Seq<ElementView<L>>,
    facts: PageFacts,
    shapes: Seq<Option<ShapedTextView<L>>>,
    n: nat,
)
    requires
        n <= elements.len(),
    ensures
        ({
            let left = filled_in(elements, facts, shapes).take(n as int).filter(shows_something());
            &&& values_on_page(left, facts, left.len()) == values_on_page(elements, facts, n)
            &&& forall|i: int|
                0 <= i < left.len() ==> filled_element(left, facts, shapes, i)
                    == #[trigger] left[i]
        }),
    decreases n,
{
    reveal(Seq::filter);
    let keep = shows_something::<L>();
    let filled = filled_in(elements, facts, shapes);
    let left = filled.take(n as int).filter(keep);
    if n == 0 {
        assert(left =~= Seq::empty());
    } else {
        let m = (n - 1) as nat;
        lemma_filled_once(elements, facts, shapes, m);
        let before = filled.take(m as int).filter(keep);
        let element = elements[m as int];
        let last = filled[m as int];
        assert(filled.take(n as int).drop_last() =~= filled.take(m as int));
        assert(last == filled_element(elements, facts, shapes, m as int));
        assert(keep(last) == (target_in(last) is None));
        let turn = values_on_page(elements, facts, m).len() as int;
        if let Some(value) = value_on_page(element, facts) {
            lemma_value_in_place(element, facts, value, shapes[turn]);
        }
        if target_in(last) is None {
            assert(left == before.push(last));
            assert forall|i: int| 0 <= i < left.len() implies filled_element(left, facts, shapes, i)
                == #[trigger] left[i] by {
                lemma_values_of_prefix(left, before, facts, i as nat);
                if i < before.len() {
                    assert(left[i] == before[i]);
                    assert(filled_element(before, facts, shapes, i) == before[i]);
                }
            }
            lemma_values_of_prefix(left, before, facts, before.len());
        } else {
            assert(left == before);
        }
    }
}

/// Filling in the fields of a page a second time, with the same values and the
/// same glyphs, changes nothing.
pub proof fn law_filling_in_twice_changes_nothing<L>(
    elements: Seq<ElementView<L>>,
    facts: PageFacts,
    shapes: Seq<Option<ShapedTextView<L>>>,
)
    ensures
        ({
            let once = substituted(elements, facts, shapes);
            &&& values_on_page(once, facts, once.len()) == values_on_page(
                elements,
                facts,
                elements.len(),
            )
            &&& substituted(once, facts, shapes) == once
        }),
{
    let filled = filled_in(elements, facts, shapes);
    let once = substituted(elements, facts, shapes);
    assert(filled.take(elements.len() as int) =~= filled);
    lemma_filled_once(elements, facts, shapes, elements.len());
    assert(filled_in(once, facts, shapes) =~= once);
    law_no_bookmark_is_left(elements, facts, shapes);
    assert forall|i: int| 0 <= i < once.len() implies #[trigger] shows_something::<L>()(
        once[i],
    ) by {
        assert(target_in(once[i]) is None);
    }
    lemma_all_kept(once);
}

} // verus!
