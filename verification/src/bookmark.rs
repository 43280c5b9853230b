//! Bookmarks, the text that they cover, and the page references that name them.

use vstd::prelude::*;
use vstd::string::StringExecFns;

use crate::document::{
    BodyContent, BookmarkMarker, Field, FieldArgument, LayoutInput, Paragraph, RevisionView, Run,
    RunContent,
};
use crate::revision::{project_paragraph_runs, ProjectedRun, ProjectedRunView, RawOrder};
use crate::text::str_eq;
use crate::visit::visit_document_paragraphs;

verus! {

/// The argument of a field at an index, where it is plain text.
pub open spec fn text_argument(field: Field, index: int) -> Option<Seq<char>> {
    if 0 <= index < field.arguments@.len() {
        match field.arguments@[index] {
            FieldArgument::Text(value) => Some(value@),
            FieldArgument::Nested => None,
        }
    } else {
        None
    }
}

/// The text of a string slice that may be missing.
pub open spec fn opt_str(value: Option<&str>) -> Option<Seq<char>> {
    match value {
        Some(text) => Some(text@),
        None => None,
    }
}

/// The argument of a field at an index, where it is plain text.
pub fn field_text_argument<'a>(field: &'a Field, index: usize) -> (argument: Option<&'a str>)
    ensures
        opt_str(argument) == text_argument(*field, index as int),
{
    if index < field.arguments.len() {
        match &field.arguments[index] {
            FieldArgument::Text(value) => Some(value.as_str()),
            FieldArgument::Nested => None,
        }
    } else {
        None
    }
}

/// The bookmark whose page a piece of a run asks for.
pub open spec fn page_ref_name(content: RunContent) -> Option<Seq<char>> {
    match content {
        RunContent::Field(field) => if field.name@ == "PAGEREF"@ {
            text_argument(field, 0)
        } else {
            None
        },
        _ => None,
    }
}

/// The bookmarks whose pages the first `n` pieces of a run ask for.
pub open spec fn run_refs(run: Run, n: nat) -> Seq<Seq<char>>
    decreases n,
{
    if n == 0 {
        Seq::empty()
    } else {
        let before = run_refs(run, (n - 1) as nat);
        match page_ref_name(run.content@[n - 1]) {
            Some(name) => before.push(name),
            None => before,
        }
    }
}

/// The bookmarks whose pages the first `n` of some runs ask for.
pub open spec fn projected_refs(runs: Seq<ProjectedRunView>, n: nat) -> Seq<Seq<char>>
    decreases n,
{
    if n == 0 {
        Seq::empty()
    } else {
        projected_refs(runs, (n - 1) as nat) + run_refs(
            runs[n - 1].run,
            runs[n - 1].run.content@.len(),
        )
    }
}

/// The bookmarks whose pages a paragraph asks for.
pub open spec fn paragraph_refs(paragraph: Paragraph, view: RevisionView) -> Seq<Seq<char>> {
    let runs = crate::revision::projection(paragraph, view);
    projected_refs(runs, runs.len())
}

/// The bookmarks whose pages the first `n` of some paragraphs ask for.
pub open spec fn paragraphs_refs(paragraphs: Seq<Paragraph>, view: RevisionView, n: nat) -> Seq<
    Seq<char>,
>
    decreases n,
{
    if n == 0 {
        Seq::empty()
    } else {
        paragraphs_refs(paragraphs, view, (n - 1) as nat) + paragraph_refs(paragraphs[n - 1], view)
    }
}

/// The bookmarks whose pages a document asks for, each as often as it does.
pub open spec fn document_refs(input: LayoutInput) -> Seq<Seq<char>> {
    let paragraphs = crate::visit::document_paragraphs(input);
    paragraphs_refs(paragraphs, input.revision_view, paragraphs.len())
}

/// The different items of a sequence, in the order in which they first occur.
pub open spec fn distinct(items: Seq<Seq<char>>) -> Seq<Seq<char>>
    decreases items.len(),
{
    if items.len() == 0 {
        Seq::empty()
    } else {
        let before = distinct(items.drop_last());
        if before.contains(items.last()) {
            before
        } else {
            before.push(items.last())
        }
    }
}

/// Whether a name is the given one.
pub open spec fn same_name(name: Seq<char>) -> spec_fn(Seq<char>) -> bool {
    |candidate: Seq<char>| candidate == name
}

/// The place of a bookmark among those whose pages a document asks for, in the
/// order of first use.
pub open spec fn page_ref_place(input: LayoutInput, name: Seq<char>) -> Option<int> {
    crate::text::first_where(distinct(document_refs(input)), same_name(name))
}

/// The number of a bookmark among those whose pages a document asks for.
pub open spec fn page_ref_of(input: LayoutInput, name: Seq<char>) -> Option<usize> {
    match page_ref_place(input, name) {
        Some(index) => Some(index as usize),
        None => None,
    }
}

/// The texts of string slices.
pub open spec fn texts(strings: Seq<&str>) -> Seq<Seq<char>> {
    strings.map_values(|string: &str| string@)
}

proof fn lemma_texts_push<'a>(strings: Seq<&'a str>, string: &'a str)
    ensures
        texts(strings.push(string)) == texts(strings).push(string@),
{
    assert(texts(strings.push(string)) =~= texts(strings).push(string@));
}

/// Adds the bookmarks whose pages a run asks for.
fn add_run_refs<'a>(run: &'a Run, refs: &mut Vec<&'a str>)
    ensures
        texts(final(refs)@) == texts(old(refs)@) + run_refs(*run, run.content@.len()),
{
    let ghost before = texts(refs@);
    let mut i: usize = 0;
    proof {
        assert(before + run_refs(*run, 0) =~= before);
    }
    while i < run.content.len()
        invariant
            i <= run.content@.len(),
            texts(refs@) == before + run_refs(*run, i as nat),
        decreases run.content@.len() - i,
    {
        if let RunContent::Field(field) = &run.content[i] {
            if str_eq(field.name.as_str(), "PAGEREF") {
                if let Some(name) = field_text_argument(field, 0) {
                    proof {
                        lemma_texts_push(refs@, name);
                    }
                    refs.push(name);
                }
            }
        }
        proof {
            assert(texts(refs@) =~= before + run_refs(*run, (i + 1) as nat));
        }
        i += 1;
    }
}

/// Adds the bookmarks whose pages a paragraph asks for.
fn add_paragraph_refs<'a>(paragraph: &'a Paragraph, view: RevisionView, refs: &mut Vec<&'a str>)
    ensures
        texts(final(refs)@) == texts(old(refs)@) + paragraph_refs(*paragraph, view),
{
    let ghost before = texts(refs@);
    let projected: Vec<ProjectedRun<'a>> = project_paragraph_runs(paragraph, view);
    let ghost runs = crate::revision::projection(*paragraph, view);
    let mut i: usize = 0;
    proof {
        assert(before + projected_refs(runs, 0) =~= before);
    }
    while i < projected.len()
        invariant
            i <= projected@.len(),
            crate::revision::projected_views(projected@) == runs,
            texts(refs@) == before + projected_refs(runs, i as nat),
        decreases projected@.len() - i,
    {
        proof {
            assert(runs[i as int] == projected@[i as int]@);
        }
        add_run_refs(projected[i].run, refs);
        proof {
            assert(texts(refs@) =~= before + projected_refs(runs, (i + 1) as nat));
        }
        i += 1;
    }
}

/// The bookmarks whose pages a document asks for, each as often as it does.
fn collect_refs<'a>(input: &'a LayoutInput) -> (refs: Vec<&'a str>)
    ensures
        texts(refs@) == document_refs(*input),
{
    let paragraphs = visit_document_paragraphs(input);
    let mut refs: Vec<&'a str> = Vec::new();
    let ghost all = crate::visit::document_paragraphs(*input);
    let mut i: usize = 0;
    proof {
        assert(texts(refs@) =~= paragraphs_refs(all, input.revision_view, 0));
    }
    while i < paragraphs.len()
        invariant
            i <= paragraphs@.len(),
            crate::visit::referenced(paragraphs@) == all,
            texts(refs@) == paragraphs_refs(all, input.revision_view, i as nat),
        decreases paragraphs@.len() - i,
    {
        proof {
            assert(all[i as int] == *paragraphs@[i as int]);
        }
        add_paragraph_refs(paragraphs[i], input.revision_view, &mut refs);
        i += 1;
    }
    refs
}

/// The index of a name in a list of names.
fn position_of(names: &Vec<&str>, name: &str) -> (place: Option<usize>)
    ensures
        match place {
            Some(i) => crate::text::first_where(texts(names@), same_name(name@)) == Some(i as int),
            None => crate::text::first_where(texts(names@), same_name(name@)) is None,
        },
{
    let ghost all = texts(names@);
    let mut i: usize = 0;
    while i < names.len()
        invariant
            i <= names@.len(),
            all == texts(names@),
            crate::text::first_where(all, same_name(name@)) == crate::text::first_from(
                all,
                same_name(name@),
                i as int,
            ),
        decreases names@.len() - i,
    {
        proof {
            assert(all[i as int] == names@[i as int]@);
            assert(same_name(name@)(all[i as int]) == (all[i as int] == name@));
        }
        if str_eq(names[i], name) {
            return Some(i);
        }
        i += 1;
    }
    None
}

/// A name is found in a list exactly if the list contains it.
proof fn lemma_found_iff_contained(names: Seq<Seq<char>>, name: Seq<char>)
    ensures
        names.contains(name) == (crate::text::first_where(names, same_name(name)) is Some),
{
    crate::text::lemma_first_from(names, same_name(name), 0);
    if names.contains(name) {
        let i = choose|i: int| 0 <= i < names.len() && names[i] == name;
        assert(same_name(name)(names[i]));
    }
}

/// The bookmarks whose pages a document asks for, in the order of first use.
fn page_ref_names<'a>(input: &'a LayoutInput) -> (names: Vec<&'a str>)
    ensures
        texts(names@) == distinct(document_refs(*input)),
{
    let refs = collect_refs(input);
    let ghost all = document_refs(*input);
    let mut names: Vec<&'a str> = Vec::new();
    let mut i: usize = 0;
    proof {
        assert(texts(names@) =~= distinct(all.take(0)));
    }
    while i < refs.len()
        invariant
            i <= refs@.len(),
            texts(refs@) == all,
            texts(names@) == distinct(all.take(i as int)),
        decreases refs@.len() - i,
    {
        proof {
            assert(all[i as int] == refs@[i as int]@);
            assert(all.take(i + 1).drop_last() =~= all.take(i as int));
            lemma_found_iff_contained(texts(names@), all[i as int]);
        }
        if position_of(&names, refs[i]).is_none() {
            proof {
                lemma_texts_push(names@, refs@[i as int]);
            }
            names.push(refs[i]);
        }
        i += 1;
    }
    proof {
        assert(all.take(i as int) =~= all);
    }
    names
}

/// The number of a bookmark among those whose pages the document asks for.
pub fn page_ref_id(input: &LayoutInput, name: &str) -> (id: Option<usize>)
    ensures
        id == page_ref_of(*input, name@),
        match id {
            Some(i) => page_ref_place(*input, name@) == Some(i as int),
            None => page_ref_place(*input, name@) is None,
        },
{
    let names = page_ref_names(input);
    position_of(&names, name)
}

/// Whether the document asks for the page of a bookmark.
pub fn document_has_page_ref(input: &LayoutInput, name: &str) -> (asked: bool)
    ensures
        asked == document_refs(*input).contains(name@),
{
    let id = page_ref_id(input, name);
    proof {
        lemma_distinct(document_refs(*input));
        lemma_found_iff_contained(distinct(document_refs(*input)), name@);
    }
    id.is_some()
}

/// Dropping repetitions keeps every item once.
pub proof fn lemma_distinct(items: Seq<Seq<char>>)
    ensures
        distinct(items).no_duplicates(),
        forall|item: Seq<char>| #[trigger]
            distinct(items).contains(item) <==> items.contains(item),
        distinct(items).len() <= items.len(),
    decreases items.len(),
{
    if items.len() > 0 {
        let rest = items.drop_last();
        let last = items.last();
        lemma_distinct(rest);
        assert(items =~= rest.push(last));
        assert forall|item: Seq<char>| #[trigger] distinct(items).contains(item) implies items.contains(
            item,
        ) by {
            let i = choose|i: int| 0 <= i < distinct(items).len() && distinct(items)[i] == item;
            if i < distinct(rest).len() {
                assert(distinct(rest).contains(distinct(rest)[i]));
                let j = choose|j: int| 0 <= j < rest.len() && rest[j] == item;
                assert(items[j] == item);
            } else {
                assert(items[items.len() - 1] == item);
            }
        }
        assert forall|item: Seq<char>| items.contains(item) implies #[trigger] distinct(items).contains(
            item,
        ) by {
            let i = choose|i: int| 0 <= i < items.len() && items[i] == item;
            if i < rest.len() {
                assert(rest[i] == item);
                assert(distinct(rest).contains(item));
                let j = choose|j: int| 0 <= j < distinct(rest).len() && distinct(rest)[j] == item;
                assert(distinct(items)[j] == item);
            } else if !distinct(rest).contains(last) {
                assert(distinct(items)[distinct(items).len() - 1] == item);
            }
        }
    }
}

/// Bookmarks whose pages a document asks for are numbered from 0 on in the order
/// of first use: a bookmark has a number exactly if the document asks for its
/// page, each number belongs to the name at that place, and two names never share
/// one.
pub proof fn law_page_references_are_numbered_apart(input: LayoutInput, a: Seq<char>, b: Seq<char>)
    ensures
        document_refs(input).contains(a) <==> page_ref_place(input, a) is Some,
        forall|i: int|
            page_ref_place(input, a) == Some(i) <==> 0 <= i < distinct(document_refs(input)).len()
                && #[trigger] distinct(document_refs(input))[i] == a,
        page_ref_place(input, a) is Some && page_ref_place(input, a) == page_ref_place(input, b)
            ==> a == b,
{
    let names = distinct(document_refs(input));
    lemma_distinct(document_refs(input));
    lemma_found_iff_contained(names, a);
    crate::text::lemma_first_from(names, same_name(a), 0);
    crate::text::lemma_first_from(names, same_name(b), 0);
    assert forall|i: int|
        page_ref_place(input, a) == Some(i) <==> 0 <= i < names.len() && #[trigger] names[i]
            == a by {
        if 0 <= i < names.len() && names[i] == a {
            assert(same_name(a)(names[i]));
            assert(names.contains(a));
            let found = page_ref_place(input, a)->Some_0;
            assert(same_name(a)(names[found]));
            assert(names[found] == names[i]);
        }
    }
}

/// A place in the document body: a run boundary, and a place there.
#[derive(Debug, Clone, Copy, PartialEq, Eq, Structural)]
pub struct BodyPosition {
    pub body_index: usize,
    pub boundary: usize,
    pub raw_order: RawOrder,
}

impl BodyPosition {
    /// Whether this place comes strictly before another.
    pub open spec fn precedes(self, other: BodyPosition) -> bool {
        ||| self.body_index < other.body_index
        ||| self.body_index == other.body_index && self.boundary < other.boundary
        ||| self.body_index == other.body_index && self.boundary == other.boundary
            && self.raw_order.precedes(other.raw_order)
    }

    /// Tests whether this place comes strictly before another.
    pub fn comes_before(self, other: BodyPosition) -> (earlier: bool)
        ensures
            earlier == self.precedes(other),
    {
        self.body_index < other.body_index || (self.body_index == other.body_index && (
        self.boundary < other.boundary || (self.boundary == other.boundary
            && self.raw_order.comes_before(other.raw_order))))
    }
}

/// A bookmark marker in a paragraph of the body.
#[derive(Debug, Clone, Copy)]
pub struct PlacedMarker<'a> {
    pub body_index: usize,
    pub marker: &'a BookmarkMarker,
}

/// What a [`PlacedMarker`] stands for.
pub struct PlacedMarkerView {
    pub body_index: usize,
    pub marker: BookmarkMarker,
}

impl<'a> View for PlacedMarker<'a> {
    type V = PlacedMarkerView;

    open spec fn view(&self) -> PlacedMarkerView {
        PlacedMarkerView { body_index: self.body_index, marker: *self.marker }
    }
}

impl PlacedMarkerView {
    /// Where the marker stands.
    pub open spec fn position(self) -> BodyPosition {
        BodyPosition {
            body_index: self.body_index,
            boundary: self.marker.run_index,
            raw_order: RawOrder::Raw(self.marker.raw_before),
        }
    }
}

/// What a list of markers stands for.
pub open spec fn marker_views(markers: Seq<PlacedMarker<'_>>) -> Seq<PlacedMarkerView> {
    markers.map_values(|marker: PlacedMarker<'_>| marker@)
}

proof fn lemma_marker_views_push<'a>(markers: Seq<PlacedMarker<'a>>, marker: PlacedMarker<'a>)
    ensures
        marker_views(markers.push(marker)) == marker_views(markers).push(marker@),
{
    assert(marker_views(markers.push(marker)) =~= marker_views(markers).push(marker@));
}

/// The first `n` markers of a paragraph, without those that have no number.
pub open spec fn paragraph_markers(paragraph: Paragraph, body_index: usize, n: nat) -> Seq<
    PlacedMarkerView,
>
    decreases n,
{
    if n == 0 {
        Seq::empty()
    } else {
        let before = paragraph_markers(paragraph, body_index, (n - 1) as nat);
        let marker = paragraph.bookmark_markers@[n - 1];
        if marker.id is Some {
            before.push(PlacedMarkerView { body_index, marker })
        } else {
            before
        }
    }
}

/// The markers in the first `n` pieces of the body, without those that have no
/// number. Only paragraphs that stand in the body itself hold any.
pub open spec fn body_markers(body: Seq<BodyContent>, n: nat) -> Seq<PlacedMarkerView>
    decreases n,
{
    if n == 0 {
        Seq::empty()
    } else {
        let before = body_markers(body, (n - 1) as nat);
        match body[n - 1] {
            BodyContent::Paragraph(paragraph) => before + paragraph_markers(
                paragraph,
                (n - 1) as usize,
                paragraph.bookmark_markers@.len(),
            ),
            _ => before,
        }
    }
}

/// Whether a marker with a number stands past the last run of its paragraph.
pub open spec fn is_stray(paragraph: Paragraph, marker: BookmarkMarker) -> bool {
    marker.id is Some && marker.run_index > paragraph.runs@.len()
}

/// Whether a paragraph holds a marker past its last run.
pub open spec fn paragraph_strays(paragraph: Paragraph) -> bool {
    exists|k: int|
        0 <= k < paragraph.bookmark_markers@.len() && is_stray(
            paragraph,
            #[trigger] paragraph.bookmark_markers@[k],
        )
}

/// Whether a piece of the body is a paragraph with a marker past its last run.
pub open spec fn content_strays(content: BodyContent) -> bool {
    match content {
        BodyContent::Paragraph(paragraph) => paragraph_strays(paragraph),
        _ => false,
    }
}

/// Whether any paragraph of the body holds a marker past its last run.
pub open spec fn body_strays(body: Seq<BodyContent>) -> bool {
    exists|i: int| 0 <= i < body.len() && content_strays(#[trigger] body[i])
}

/// Whether the markers at `s` and `e` are the start and the end of a bookmark
/// of this name, and the only markers with their number.
pub open spec fn is_pair(markers: Seq<PlacedMarkerView>, name: Seq<char>, s: int, e: int) -> bool {
    &&& 0 <= s < markers.len()
    &&& 0 <= e < markers.len()
    &&& markers[s].marker.is_start
    &&& crate::text::opt_view(markers[s].marker.name) == Some(name)
    &&& !markers[e].marker.is_start
    &&& markers[e].marker.id == markers[s].marker.id
    &&& forall|j: int|
        0 <= j < markers.len() && (#[trigger] markers[j]).marker.id == markers[s].marker.id ==> j
            == s || j == e
}

/// Whether the markers at `s` and `e` are the only pair for this name.
pub open spec fn is_only_pair(
    markers: Seq<PlacedMarkerView>,
    name: Seq<char>,
    s: int,
    e: int,
) -> bool {
    &&& is_pair(markers, name, s, e)
    &&& forall|s2: int, e2: int| #[trigger] is_pair(markers, name, s2, e2) ==> s2 == s
}

/// From where to where the bookmark of a name reaches, if exactly one does.
pub open spec fn bookmark_range(markers: Seq<PlacedMarkerView>, name: Seq<char>) -> Option<
    (BodyPosition, BodyPosition),
> {
    if exists|s: int, e: int| is_only_pair(markers, name, s, e) {
        let (s, e) = choose|s: int, e: int| is_only_pair(markers, name, s, e);
        Some((markers[s].position(), markers[e].position()))
    } else {
        None
    }
}

/// Whether a run stands from `start` on and before `end`.
pub open spec fn within(body_index: usize, start: BodyPosition, end: BodyPosition) -> spec_fn(
    ProjectedRunView,
) -> bool {
    |run: ProjectedRunView|
        {
            let position = BodyPosition {
                body_index,
                boundary: run.boundary,
                raw_order: run.raw_order,
            };
            !position.precedes(start) && position.precedes(end)
        }
}

/// The text of the runs of a paragraph between two places.
pub open spec fn covered_text(
    paragraph: Paragraph,
    view: RevisionView,
    body_index: usize,
    start: BodyPosition,
    end: BodyPosition,
) -> Seq<char> {
    crate::revision::projected_text(
        crate::revision::projection(paragraph, view).filter(within(body_index, start, end)),
    )
}

/// The covered texts of the paragraphs of the body from `start` on, as far as
/// they stand in its first `n` pieces.
pub open spec fn covered_parts(
    body: Seq<BodyContent>,
    view: RevisionView,
    start: BodyPosition,
    end: BodyPosition,
    n: int,
) -> Seq<Seq<char>>
    decreases n,
{
    if n <= start.body_index || n <= 0 {
        Seq::empty()
    } else {
        let before = covered_parts(body, view, start, end, n - 1);
        match body[n - 1] {
            BodyContent::Paragraph(paragraph) => before.push(
                covered_text(paragraph, view, (n - 1) as usize, start, end),
            ),
            _ => before,
        }
    }
}

/// The text that the bookmark of a name covers, one line for each paragraph.
/// There is none if a marker in the body stands past the runs of its paragraph,
/// if the name does not stand for exactly one complete bookmark, or if that
/// bookmark ends before it starts.
pub open spec fn bookmark_text_of(input: LayoutInput, name: Seq<char>) -> Option<Seq<char>> {
    let body = input.document.body@;
    if body_strays(body) {
        None
    } else {
        match bookmark_range(body_markers(body, body.len()), name) {
            Some((start, end)) => if end.precedes(start) {
                None
            } else {
                Some(
                    crate::text::joined(
                        covered_parts(body, input.revision_view, start, end, end.body_index + 1),
                        '\n',
                    ),
                )
            },
            None => None,
        }
    }
}

/// Adds the markers of a paragraph that have a number, or finds one past the
/// last run.
fn add_paragraph_markers<'a>(
    paragraph: &'a Paragraph,
    body_index: usize,
    markers: &mut Vec<PlacedMarker<'a>>,
) -> (in_place: bool)
    ensures
        in_place == !paragraph_strays(*paragraph),
        in_place ==> marker_views(final(markers)@) == marker_views(old(markers)@)
            + paragraph_markers(*paragraph, body_index, paragraph.bookmark_markers@.len()),
{
    let ghost before = marker_views(markers@);
    let mut i: usize = 0;
    proof {
        assert(before + paragraph_markers(*paragraph, body_index, 0) =~= before);
    }
    while i < paragraph.bookmark_markers.len()
        invariant
            i <= paragraph.bookmark_markers@.len(),
            marker_views(markers@) == before + paragraph_markers(
                *paragraph,
                body_index,
                i as nat,
            ),
            forall|k: int|
                0 <= k < i ==> !is_stray(*paragraph, #[trigger] paragraph.bookmark_markers@[k]),
        decreases paragraph.bookmark_markers@.len() - i,
    {
        let marker = &paragraph.bookmark_markers[i];
        if marker.id.is_some() {
            if marker.run_index > paragraph.runs.len() {
                proof {
                    assert(is_stray(*paragraph, paragraph.bookmark_markers@[i as int]));
                }
                return false;
            }
            proof {
                lemma_marker_views_push(markers@, PlacedMarker { body_index, marker });
            }
            markers.push(PlacedMarker { body_index, marker });
        }
        proof {
            assert(marker_views(markers@) =~= before + paragraph_markers(
                *paragraph,
                body_index,
                (i + 1) as nat,
            ));
        }
        i += 1;
    }
    true
}

/// The markers of the body that have a number, unless one stands past the last
/// run of its paragraph.
fn collect_markers<'a>(input: &'a LayoutInput) -> (found: Option<Vec<PlacedMarker<'a>>>)
    ensures
        match found {
            Some(markers) => !body_strays(input.document.body@) && marker_views(markers@)
                == body_markers(input.document.body@, input.document.body@.len()),
            None => body_strays(input.document.body@),
        },
{
    let mut markers: Vec<PlacedMarker<'a>> = Vec::new();
    let mut i: usize = 0;
    proof {
        assert(marker_views(markers@) =~= body_markers(input.document.body@, 0));
    }
    while i < input.document.body.len()
        invariant
            i <= input.document.body@.len(),
            marker_views(markers@) == body_markers(input.document.body@, i as nat),
            forall|k: int| 0 <= k < i ==> !content_strays(#[trigger] input.document.body@[k]),
        decreases input.document.body@.len() - i,
    {
        if let BodyContent::Paragraph(paragraph) = &input.document.body[i] {
            if !add_paragraph_markers(paragraph, i, &mut markers) {
                proof {
                    assert(content_strays(input.document.body@[i as int]));
                }
                return None;
            }
        }
        i += 1;
    }
    Some(markers)
}

/// The end of the bookmark that starts at marker `s`, if it has exactly one
/// start and one end.
fn partner_of(markers: &Vec<PlacedMarker<'_>>, name: &str, s: usize) -> (partner: Option<usize>)
    requires
        s < markers@.len(),
        markers@[s as int]@.marker.is_start,
        crate::text::opt_view(markers@[s as int]@.marker.name) == Some(name@),
    ensures
        match partner {
            Some(e) => is_pair(marker_views(markers@), name@, s as int, e as int),
            None => forall|e: int| !is_pair(marker_views(markers@), name@, s as int, e),
        },
{
    let ghost views = marker_views(markers@);
    let mut partner: Option<usize> = None;
    let mut j: usize = 0;
    while j < markers.len()
        invariant
            j <= markers@.len(),
            s < markers@.len(),
            views == marker_views(markers@),
            markers@[s as int]@.marker.is_start,
            match partner {
                Some(e) => e < j && e != s && !views[e as int].marker.is_start
                    && views[e as int].marker.id == views[s as int].marker.id && forall|k: int|
                    0 <= k < j && (#[trigger] views[k]).marker.id == views[s as int].marker.id ==> k
                        == s || k == e,
                None => forall|k: int|
                    0 <= k < j && (#[trigger] views[k]).marker.id == views[s as int].marker.id ==> k
                        == s,
            },
        decreases markers@.len() - j,
    {
        proof {
            assert(views[j as int] == markers@[j as int]@);
            assert(views[s as int] == markers@[s as int]@);
        }
        if j != s && same_id(markers[j].marker.id, markers[s].marker.id) {
            if partner.is_some() || markers[j].marker.is_start {
                proof {
                    assert forall|e: int| !is_pair(views, name@, s as int, e) by {
                        if is_pair(views, name@, s as int, e) {
                            assert(views[j as int].marker.id == views[s as int].marker.id);
                            if let Some(p) = partner {
                                assert(views[p as int].marker.id == views[s as int].marker.id);
                            }
                        }
                    }
                }
                return None;
            }
            partner = Some(j);
        }
        j += 1;
    }
    proof {
        assert(views[s as int] == markers@[s as int]@);
        if partner is None {
            assert forall|e: int| !is_pair(views, name@, s as int, e) by {
                if is_pair(views, name@, s as int, e) {
                    assert(views[e].marker.id == views[s as int].marker.id);
                }
            }
        }
    }
    partner
}

/// From where to where the bookmark of a name reaches, if exactly one does.
fn find_bookmark(markers: &Vec<PlacedMarker<'_>>, name: &str) -> (range: Option<
    (BodyPosition, BodyPosition),
>)
    ensures
        range == bookmark_range(marker_views(markers@), name@),
{
    let ghost views = marker_views(markers@);
    let mut found: Option<(usize, usize)> = None;
    let mut s: usize = 0;
    while s < markers.len()
        invariant
            s <= markers@.len(),
            views == marker_views(markers@),
            match found {
                Some((a, b)) => a < s && is_pair(views, name@, a as int, b as int) && forall|
                    s2: int,
                    e2: int,
                |
                    s2 < s && #[trigger] is_pair(views, name@, s2, e2) ==> s2 == a,
                None => forall|s2: int, e2: int|
                    s2 < s ==> !#[trigger] is_pair(views, name@, s2, e2),
            },
        decreases markers@.len() - s,
    {
        proof {
            assert(views[s as int] == markers@[s as int]@);
        }
        let named = match &markers[s].marker.name {
            Some(candidate) => str_eq(candidate.as_str(), name),
            None => false,
        };
        if markers[s].marker.is_start && named {
            if let Some(e) = partner_of(markers, name, s) {
                if let Some((a, b)) = found {
                    proof {
                        if exists|s2: int, e2: int| is_only_pair(views, name@, s2, e2) {
                            let (s2, e2) = choose|s2: int, e2: int|
                                is_only_pair(views, name@, s2, e2);
                            assert(is_pair(views, name@, a as int, b as int));
                            assert(is_pair(views, name@, s as int, e as int));
                        }
                    }
                    return None;
                }
                found = Some((s, e));
            }
        }
        s += 1;
    }
    match found {
        Some((a, b)) => {
            proof {
                assert(is_only_pair(views, name@, a as int, b as int));
                let (s2, e2) = choose|s2: int, e2: int| is_only_pair(views, name@, s2, e2);
                assert(is_pair(views, name@, s2, e2));
                assert(s2 == a);
                assert(views[e2].marker.id == views[s2].marker.id);
                assert(e2 == a || e2 == b);
            }
            Some((markers[a].position(), markers[b].position()))
        },
        None => {
            proof {
                if exists|s2: int, e2: int| is_only_pair(views, name@, s2, e2) {
                    let (s2, e2) = choose|s2: int, e2: int| is_only_pair(views, name@, s2, e2);
                    assert(!is_pair(views, name@, s2, e2));
                }
            }
            None
        },
    }
}

impl<'a> PlacedMarker<'a> {
    /// Where the marker stands.
    fn position(&self) -> (position: BodyPosition)
        ensures
            position == self@.position(),
    {
        BodyPosition {
            body_index: self.body_index,
            boundary: self.marker.run_index,
            raw_order: RawOrder::Raw(self.marker.raw_before),
        }
    }
}

/// One more run either adds its text or does not.
proof fn lemma_kept_text(
    runs: Seq<ProjectedRunView>,
    keep: spec_fn(ProjectedRunView) -> bool,
    i: int,
)
    requires
        0 <= i < runs.len(),
    ensures
        crate::revision::projected_text(runs.take(i + 1).filter(keep)) == if keep(runs[i]) {
            crate::revision::projected_text(runs.take(i).filter(keep)) + crate::revision::run_text(
                runs[i].run,
            )
        } else {
            crate::revision::projected_text(runs.take(i).filter(keep))
        },
{
    reveal(Seq::filter);
    let kept = runs.take(i).filter(keep);
    assert(runs.take(i + 1).drop_last() =~= runs.take(i));
    if keep(runs[i]) {
        let more = kept.push(runs[i]);
        assert(runs.take(i + 1).filter(keep) == more);
        let parts = Seq::new(kept.len(), |k: int| crate::revision::run_text(kept[k].run));
        let all = Seq::new(more.len(), |k: int| crate::revision::run_text(more[k].run));
        assert(all =~= parts.push(crate::revision::run_text(runs[i].run)));
        crate::text::lemma_concat_push(parts, crate::revision::run_text(runs[i].run));
    }
}

/// The text of the runs of a paragraph between two places.
fn text_between(
    paragraph: &Paragraph,
    view: RevisionView,
    body_index: usize,
    start: BodyPosition,
    end: BodyPosition,
) -> (text: String)
    ensures
        text@ == covered_text(*paragraph, view, body_index, start, end),
{
    let projected = project_paragraph_runs(paragraph, view);
    let ghost runs = crate::revision::projection(*paragraph, view);
    let ghost keep = within(body_index, start, end);
    let mut text = String::new();
    let mut i: usize = 0;
    proof {
        reveal(Seq::filter);
        assert(runs.take(0).filter(keep) =~= Seq::empty());
        assert(text@ =~= crate::revision::projected_text(runs.take(0).filter(keep)));
    }
    while i < projected.len()
        invariant
            i <= projected@.len(),
            keep == within(body_index, start, end),
            crate::revision::projected_views(projected@) == runs,
            text@ == crate::revision::projected_text(runs.take(i as int).filter(keep)),
        decreases projected@.len() - i,
    {
        let position = BodyPosition {
            body_index,
            boundary: projected[i].boundary,
            raw_order: projected[i].raw_order,
        };
        proof {
            assert(runs[i as int] == projected@[i as int]@);
            assert(keep(runs[i as int]) == (!position.precedes(start) && position.precedes(end)));
            lemma_kept_text(runs, keep, i as int);
        }
        if !position.comes_before(start) && position.comes_before(end) {
            let part = projected[i].run.text();
            text.append(part.as_str());
        }
        i += 1;
    }
    proof {
        assert(runs.take(i as int) =~= runs);
    }
    text
}

/// The text that the bookmark of a name covers, one line for each paragraph.
pub fn bookmark_text(input: &LayoutInput, name: &str) -> (text: Option<String>)
    ensures
        crate::text::opt_view(text) == bookmark_text_of(*input, name@),
{
    let markers = match collect_markers(input) {
        Some(markers) => markers,
        None => {
            return None;
        },
    };
    let (start, end) = match find_bookmark(&markers, name) {
        Some(range) => range,
        None => {
            return None;
        },
    };
    if end.comes_before(start) {
        return None;
    }
    let count = input.document.body.len();
    proof {
        assert(input.document.body@.len() == count);
        lemma_range_in_body(input.document.body@, name@);
    }
    let ghost body = input.document.body@;
    let ghost view = input.revision_view;
    let mut text = String::new();
    let mut first = true;
    let mut i: usize = start.body_index;
    while i <= end.body_index
        invariant
            start.body_index <= i <= end.body_index + 1,
            end.body_index < input.document.body.len(),
            body == input.document.body@,
            view == input.revision_view,
            text@ == crate::text::joined(covered_parts(body, view, start, end, i as int), '\n'),
            first == (covered_parts(body, view, start, end, i as int).len() == 0),
        decreases end.body_index + 1 - i,
    {
        if let BodyContent::Paragraph(paragraph) = &input.document.body[i] {
            let part = text_between(paragraph, input.revision_view, i, start, end);
            proof {
                let before = covered_parts(body, view, start, end, i as int);
                let after = covered_parts(body, view, start, end, i + 1);
                assert(after == before.push(part@));
                assert(after.drop_last() =~= before);
            }
            if !first {
                text.push('\n');
            }
            text.append(part.as_str());
            first = false;
        }
        proof {
            assert(text@ =~= crate::text::joined(
                covered_parts(body, view, start, end, i + 1),
                '\n',
            ));
        }
        i += 1;
    }
    Some(text)
}

/// The markers of a body stand in its pieces.
proof fn lemma_markers_in_body(body: Seq<BodyContent>, n: nat)
    requires
        n <= body.len() <= usize::MAX,
    ensures
        forall|k: int|
            0 <= k < body_markers(body, n).len() ==> (#[trigger] body_markers(
                body,
                n,
            )[k]).body_index < n,
    decreases n,
{
    if n > 0 {
        lemma_markers_in_body(body, (n - 1) as nat);
        if let BodyContent::Paragraph(paragraph) = body[n - 1] {
            lemma_markers_in_paragraph(
                paragraph,
                (n - 1) as usize,
                paragraph.bookmark_markers@.len(),
            );
        }
    }
}

/// The markers of a paragraph stand in it.
proof fn lemma_markers_in_paragraph(paragraph: Paragraph, body_index: usize, n: nat)
    ensures
        forall|k: int|
            0 <= k < paragraph_markers(paragraph, body_index, n).len() ==> (
            #[trigger] paragraph_markers(paragraph, body_index, n)[k]).body_index == body_index,
    decreases n,
{
    if n > 0 {
        lemma_markers_in_paragraph(paragraph, body_index, (n - 1) as nat);
    }
}

/// A bookmark starts and ends in the body.
proof fn lemma_range_in_body(body: Seq<BodyContent>, name: Seq<char>)
    requires
        body.len() <= usize::MAX,
    ensures
        match bookmark_range(body_markers(body, body.len()), name) {
            Some((start, end)) => start.body_index < body.len() && end.body_index < body.len(),
            None => true,
        },
{
    lemma_markers_in_body(body, body.len());
    let markers = body_markers(body, body.len());
    if exists|s: int, e: int| is_only_pair(markers, name, s, e) {
        let (s, e) = choose|s: int, e: int| is_only_pair(markers, name, s, e);
        assert(is_pair(markers, name, s, e));
        assert(markers[s].body_index < body.len());
        assert(markers[e].body_index < body.len());
    }
}

/// Whether two marker numbers are the same.
fn same_id(a: Option<i32>, b: Option<i32>) -> (same: bool)
    ensures
        same == (a == b),
{
    match (a, b) {
        (Some(a), Some(b)) => a == b,
        (None, None) => true,
        _ => false,
    }
}

} // verus!
