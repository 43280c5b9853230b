//! What holds of references, whatever results are stored with them.

use vstd::prelude::*;

use crate::document::{
    BodyContent, BookmarkMarker, Field, LayoutInput, Paragraph, PlacedRevision, Revision,
    RevisionContent, RevisionView, Run, RunContent, SegmentProperties, Theme,
};
use crate::field::{FieldValueView, Piece, RunLook};
use crate::plan::{FieldKind, ItemView, PlanView, TextItemView};
use crate::revision::{ProjectedRunView, RawOrder, RevisionPlace};
use crate::units::Emu;

verus! {

/// Whether two fields ask for the same, and their first stored results look the
/// same. What is stored with them may differ.
pub open spec fn fields_match(a: Field, b: Field) -> bool {
    &&& a.name@ == b.name@
    &&& crate::bookmark::text_argument(a, 0) == crate::bookmark::text_argument(b, 0)
    &&& crate::field::first_stored(a) == crate::field::first_stored(b)
}

/// Whether two pieces of runs are the same but for the results stored with
/// fields.
pub open spec fn contents_match(a: RunContent, b: RunContent) -> bool {
    match (a, b) {
        (RunContent::Field(x), RunContent::Field(y)) => fields_match(x, y),
        _ => a == b,
    }
}

/// Whether two runs are the same but for the results stored with fields.
pub open spec fn runs_match(a: Run, b: Run) -> bool {
    &&& a.style == b.style
    &&& a.properties == b.properties
    &&& a.content@.len() == b.content@.len()
    &&& forall|i: int|
        0 <= i < a.content@.len() ==> contents_match(#[trigger] a.content@[i], b.content@[i])
}

/// Whether what two changes enclose is the same but for the results stored with
/// fields.
pub open spec fn enclosed_match(a: RevisionContent, b: RevisionContent) -> bool {
    match (a, b) {
        (RevisionContent::Runs(x), RevisionContent::Runs(y)) => x@.len() == y@.len() && forall|
            i: int,
        |
            0 <= i < x@.len() ==> runs_match(#[trigger] x@[i], y@[i]),
        _ => a == b,
    }
}

/// Whether two changes are the same but for the results stored with fields,
/// however deep those are nested.
pub open spec fn changes_match(a: Revision, b: Revision) -> bool
    decreases a,
{
    &&& a.kind == b.kind
    &&& enclosed_match(a.content, b.content)
    &&& a.nested@.len() == b.nested@.len()
    &&& forall|i: int|
        0 <= i < a.nested@.len() ==> (#[trigger] a.nested@[i]).0 == b.nested@[i].0
            && changes_match(a.nested@[i].1, b.nested@[i].1)
}

/// Whether two changes stand at the same place and match.
pub open spec fn placed_match(a: PlacedRevision, b: PlacedRevision) -> bool {
    &&& a.boundary == b.boundary
    &&& a.slot == b.slot
    &&& changes_match(a.revision, b.revision)
}

/// Whether two paragraphs are the same but for the results stored with fields,
/// in their runs and in their changes.
pub open spec fn paragraphs_match(a: Paragraph, b: Paragraph) -> bool {
    &&& a.style == b.style
    &&& a.text_style == b.text_style
    &&& a.properties == b.properties
    &&& a.marker == b.marker
    &&& a.revisions@.len() == b.revisions@.len()
    &&& forall|i: int|
        0 <= i < a.revisions@.len() ==> placed_match(
            #[trigger] a.revisions@[i],
            b.revisions@[i],
        )
    &&& a.hyperlinks@ == b.hyperlinks@
    &&& a.bookmark_markers@ == b.bookmark_markers@
    &&& a.runs@.len() == b.runs@.len()
    &&& forall|i: int| 0 <= i < a.runs@.len() ==> runs_match(#[trigger] a.runs@[i], b.runs@[i])
}

/// Whether two pieces of a body are paragraphs that match, or neither is one.
pub open spec fn body_pieces_match(a: BodyContent, b: BodyContent) -> bool {
    match (a, b) {
        (BodyContent::Paragraph(x), BodyContent::Paragraph(y)) => paragraphs_match(x, y),
        (BodyContent::Paragraph(_), _) => false,
        (_, BodyContent::Paragraph(_)) => false,
        _ => true,
    }
}

/// Whether two documents are the same but for the results stored with fields:
/// their paragraphs match one by one, wherever they stand, and so do the pieces
/// of their bodies.
pub open spec fn documents_match(a: LayoutInput, b: LayoutInput) -> bool {
    let all_a = crate::visit::document_paragraphs(a);
    let all_b = crate::visit::document_paragraphs(b);
    &&& a.revision_view == b.revision_view
    &&& all_a.len() == all_b.len()
    &&& forall|i: int| 0 <= i < all_a.len() ==> paragraphs_match(#[trigger] all_a[i], all_b[i])
    &&& a.document.body@.len() == b.document.body@.len()
    &&& forall|i: int|
        0 <= i < a.document.body@.len() ==> body_pieces_match(
            #[trigger] a.document.body@[i],
            b.document.body@[i],
        )
}

/// Whether two shown runs match and stand at the same place with the same marks.
spec fn shown_match(a: ProjectedRunView, b: ProjectedRunView) -> bool {
    &&& runs_match(a.run, b.run)
    &&& b == (ProjectedRunView { run: b.run, ..a })
}

/// Whether lists of shown runs match one by one.
spec fn lists_match(a: Seq<ProjectedRunView>, b: Seq<ProjectedRunView>) -> bool {
    &&& a.len() == b.len()
    &&& forall|i: int| 0 <= i < a.len() ==> shown_match(#[trigger] a[i], b[i])
}

proof fn lemma_content_matches_itself(content: RunContent)
    ensures
        contents_match(content, content),
{
}

proof fn lemma_list_matches_itself(runs: Seq<ProjectedRunView>)
    ensures
        lists_match(runs, runs),
{
    assert forall|i: int| 0 <= i < runs.len() implies shown_match(#[trigger] runs[i], runs[i]) by {
        let run = runs[i].run;
        assert forall|k: int| 0 <= k < run.content@.len() implies contents_match(
            #[trigger] run.content@[k],
            run.content@[k],
        ) by {
            lemma_content_matches_itself(run.content@[k]);
        }
    }
}

proof fn lemma_lists_add(
    a: Seq<ProjectedRunView>,
    b: Seq<ProjectedRunView>,
    c: Seq<ProjectedRunView>,
    d: Seq<ProjectedRunView>,
)
    requires
        lists_match(a, b),
        lists_match(c, d),
    ensures
        lists_match(a + c, b + d),
{
    let left = a + c;
    let right = b + d;
    assert forall|i: int| 0 <= i < left.len() implies shown_match(#[trigger] left[i], right[i]) by {
        if i < a.len() {
            assert(shown_match(a[i], b[i]));
        } else {
            assert(shown_match(c[i - a.len()], d[i - a.len()]));
        }
    }
}

proof fn lemma_revisions_match(
    a: Revision,
    b: Revision,
    view: RevisionView,
    place: RevisionPlace,
    underline: bool,
    strike: bool,
)
    requires
        changes_match(a, b),
    ensures
        lists_match(
            crate::revision::revision_projection(a, view, place, underline, strike),
            crate::revision::revision_projection(b, view, place, underline, strike),
        ),
    decreases a, 0nat, 0nat,
{
    lemma_list_matches_itself(Seq::empty());
    match (
        crate::revision::enclosed_runs(a.content),
        crate::revision::enclosed_runs(b.content),
    ) {
        (Some(x), Some(y)) => {
            assert forall|i: int| 0 <= i < x.len() implies runs_match(#[trigger] x[i], y[i]) by {
                if let (RevisionContent::Runs(u), RevisionContent::Runs(v)) = (
                    a.content,
                    b.content,
                ) {
                    assert(runs_match(u@[i], v@[i]));
                }
            }
            assert forall|i: int| 0 <= i < a.nested@.len() implies (
            #[trigger] a.nested@[i]).0 == b.nested@[i].0 && changes_match(
                a.nested@[i].1,
                b.nested@[i].1,
            ) by {}
            lemma_prefixes_match(
                a.nested@,
                b.nested@,
                x,
                y,
                view,
                place,
                underline || (view is Markup && crate::revision::adds_text(a.kind)),
                strike || (view is Markup && crate::revision::removes_text(a.kind)),
                (x.len() + 1) as nat,
            );
        },
        _ => {},
    }
}

proof fn lemma_prefixes_match(
    a: Seq<(usize, Revision)>,
    b: Seq<(usize, Revision)>,
    x: Seq<Run>,
    y: Seq<Run>,
    view: RevisionView,
    place: RevisionPlace,
    underline: bool,
    strike: bool,
    count: nat,
)
    requires
        nested_match(a, b),
        x.len() == y.len(),
        forall|i: int| 0 <= i < x.len() ==> runs_match(#[trigger] x[i], y[i]),
    ensures
        lists_match(
            crate::revision::revision_prefix(a, x, view, place, underline, strike, count),
            crate::revision::revision_prefix(b, y, view, place, underline, strike, count),
        ),
    decreases a, 1nat, count,
{
    lemma_list_matches_itself(Seq::empty());
    if count > 0 {
        let boundary = (count - 1) as nat;
        lemma_prefixes_match(a, b, x, y, view, place, underline, strike, boundary);
        lemma_nested_lists_match(a, b, boundary, view, place, underline, strike, a.len());
        let before_a = crate::revision::revision_prefix(
            a,
            x,
            view,
            place,
            underline,
            strike,
            boundary,
        );
        let before_b = crate::revision::revision_prefix(
            b,
            y,
            view,
            place,
            underline,
            strike,
            boundary,
        );
        let inner_a = crate::revision::nested_at(
            a,
            boundary,
            view,
            place,
            underline,
            strike,
            a.len(),
        );
        let inner_b = crate::revision::nested_at(
            b,
            boundary,
            view,
            place,
            underline,
            strike,
            b.len(),
        );
        lemma_lists_add(before_a, before_b, inner_a, inner_b);
        if boundary < x.len() {
            assert(runs_match(x[boundary as int], y[boundary as int]));
            let own_a = crate::revision::revised_run(
                x[boundary as int],
                place,
                underline,
                strike,
            );
            let own_b = crate::revision::revised_run(
                y[boundary as int],
                place,
                underline,
                strike,
            );
            assert(lists_match(seq![own_a], seq![own_b]));
            lemma_lists_add(before_a + inner_a, before_b + inner_b, seq![own_a], seq![own_b]);
        } else {
            lemma_lists_add(
                before_a + inner_a,
                before_b + inner_b,
                Seq::empty(),
                Seq::empty(),
            );
        }
    }
}

/// Whether nested changes match one by one.
spec fn nested_match(a: Seq<(usize, Revision)>, b: Seq<(usize, Revision)>) -> bool {
    &&& a.len() == b.len()
    &&& forall|i: int|
        0 <= i < a.len() ==> (#[trigger] a[i]).0 == b[i].0 && changes_match(a[i].1, b[i].1)
}

proof fn lemma_nested_lists_match(
    a: Seq<(usize, Revision)>,
    b: Seq<(usize, Revision)>,
    boundary: nat,
    view: RevisionView,
    place: RevisionPlace,
    underline: bool,
    strike: bool,
    count: nat,
)
    requires
        nested_match(a, b),
    ensures
        lists_match(
            crate::revision::nested_at(a, boundary, view, place, underline, strike, count),
            crate::revision::nested_at(b, boundary, view, place, underline, strike, count),
        ),
    decreases a, 0nat, count,
{
    lemma_list_matches_itself(Seq::empty());
    if 0 < count <= a.len() {
        let m = (count - 1) as nat;
        lemma_nested_lists_match(a, b, boundary, view, place, underline, strike, m);
        assert(a[m as int].0 == b[m as int].0);
        let before_a = crate::revision::nested_at(
            a,
            boundary,
            view,
            place,
            underline,
            strike,
            m,
        );
        let before_b = crate::revision::nested_at(
            b,
            boundary,
            view,
            place,
            underline,
            strike,
            m,
        );
        if a[m as int].0 == boundary {
            lemma_revisions_match(a[m as int].1, b[m as int].1, view, place, underline, strike);
            lemma_lists_add(
                before_a,
                before_b,
                crate::revision::revision_projection(
                    a[m as int].1,
                    view,
                    place,
                    underline,
                    strike,
                ),
                crate::revision::revision_projection(
                    b[m as int].1,
                    view,
                    place,
                    underline,
                    strike,
                ),
            );
        } else {
            lemma_lists_add(before_a, before_b, Seq::empty(), Seq::empty());
        }
    }
}

/// The changes of paragraphs that match show runs that match.
proof fn lemma_changes_show_alike(
    a: Paragraph,
    b: Paragraph,
    view: RevisionView,
    boundary: nat,
    count: nat,
)
    requires
        paragraphs_match(a, b),
    ensures
        lists_match(
            crate::revision::revisions_at(a, view, boundary, count),
            crate::revision::revisions_at(b, view, boundary, count),
        ),
    decreases count,
{
    lemma_list_matches_itself(Seq::empty());
    if 0 < count <= a.revisions@.len() {
        let m = (count - 1) as nat;
        lemma_changes_show_alike(a, b, view, boundary, m);
        let x = a.revisions@[m as int];
        let y = b.revisions@[m as int];
        assert(placed_match(x, y));
        assert(crate::revision::slot_order(a, x.boundary, x.slot) == crate::revision::slot_order(
            b,
            y.boundary,
            y.slot,
        ));
        let place = RevisionPlace {
            boundary: x.boundary,
            raw_order: crate::revision::slot_order(a, x.boundary, x.slot),
            hyperlink_index: crate::revision::slot_hyperlink(x.slot),
        };
        let before_a = crate::revision::revisions_at(a, view, boundary, m);
        let before_b = crate::revision::revisions_at(b, view, boundary, m);
        if x.boundary == boundary {
            lemma_revisions_match(x.revision, y.revision, view, place, false, false);
            lemma_lists_add(
                before_a,
                before_b,
                crate::revision::revision_projection(x.revision, view, place, false, false),
                crate::revision::revision_projection(y.revision, view, place, false, false),
            );
        } else {
            lemma_lists_add(before_a, before_b, Seq::empty(), Seq::empty());
        }
    }
}

proof fn lemma_projections_match(a: Paragraph, b: Paragraph, view: RevisionView, count: nat)
    requires
        paragraphs_match(a, b),
        count <= a.runs@.len() + 1,
    ensures
        lists_match(
            crate::revision::projection_prefix(a, view, count),
            crate::revision::projection_prefix(b, view, count),
        ),
    decreases count,
{
    if count > 0 {
        let boundary = (count - 1) as nat;
        lemma_projections_match(a, b, view, boundary);
        lemma_changes_show_alike(a, b, view, boundary, a.revisions@.len());
        let changes = crate::revision::revisions_at(a, view, boundary, a.revisions@.len());
        let others = crate::revision::revisions_at(b, view, boundary, b.revisions@.len());
        if boundary < a.runs@.len() {
            assert(runs_match(a.runs@[boundary as int], b.runs@[boundary as int]));
            let x = crate::revision::ordinary_run(a.runs@[boundary as int], boundary as usize);
            let y = crate::revision::ordinary_run(b.runs@[boundary as int], boundary as usize);
            assert(lists_match(seq![x], seq![y]));
            lemma_lists_add(changes, others, seq![x], seq![y]);
        } else {
            lemma_list_matches_itself(Seq::empty());
            lemma_lists_add(changes, others, Seq::empty(), Seq::empty());
        }
        lemma_lists_add(
            crate::revision::projection_prefix(a, view, boundary),
            crate::revision::projection_prefix(b, view, boundary),
            crate::revision::boundary_projection(a, view, boundary),
            crate::revision::boundary_projection(b, view, boundary),
        );
    }
}

proof fn lemma_same_run_refs(a: Run, b: Run, n: nat)
    requires
        runs_match(a, b),
        n <= a.content@.len(),
    ensures
        crate::bookmark::run_refs(a, n) == crate::bookmark::run_refs(b, n),
    decreases n,
{
    if n > 0 {
        lemma_same_run_refs(a, b, (n - 1) as nat);
        assert(contents_match(a.content@[n - 1], b.content@[n - 1]));
        assert(crate::bookmark::page_ref_name(a.content@[n - 1]) == crate::bookmark::page_ref_name(
            b.content@[n - 1],
        ));
    }
}

proof fn lemma_same_projected_refs(
    a: Seq<ProjectedRunView>,
    b: Seq<ProjectedRunView>,
    n: nat,
)
    requires
        lists_match(a, b),
        n <= a.len(),
    ensures
        crate::bookmark::projected_refs(a, n) == crate::bookmark::projected_refs(b, n),
    decreases n,
{
    if n > 0 {
        lemma_same_projected_refs(a, b, (n - 1) as nat);
        assert(shown_match(a[n - 1], b[n - 1]));
        lemma_same_run_refs(a[n - 1].run, b[n - 1].run, a[n - 1].run.content@.len());
    }
}

proof fn lemma_same_refs(
    a: Seq<Paragraph>,
    b: Seq<Paragraph>,
    view: RevisionView,
    n: nat,
)
    requires
        a.len() == b.len(),
        forall|i: int| 0 <= i < a.len() ==> paragraphs_match(#[trigger] a[i], b[i]),
        n <= a.len(),
    ensures
        crate::bookmark::paragraphs_refs(a, view, n) == crate::bookmark::paragraphs_refs(
            b,
            view,
            n,
        ),
    decreases n,
{
    if n > 0 {
        lemma_same_refs(a, b, view, (n - 1) as nat);
        let x = a[n - 1];
        let y = b[n - 1];
        assert(paragraphs_match(x, y));
        lemma_projections_match(x, y, view, (x.runs@.len() + 1) as nat);
        let runs_x = crate::revision::projection(x, view);
        let runs_y = crate::revision::projection(y, view);
        lemma_same_projected_refs(runs_x, runs_y, runs_x.len());
    }
}

proof fn lemma_same_paragraph_markers(a: Paragraph, b: Paragraph, body_index: usize, n: nat)
    requires
        paragraphs_match(a, b),
    ensures
        crate::bookmark::paragraph_markers(a, body_index, n) == crate::bookmark::paragraph_markers(
            b,
            body_index,
            n,
        ),
    decreases n,
{
    if n > 0 {
        lemma_same_paragraph_markers(a, b, body_index, (n - 1) as nat);
    }
}

proof fn lemma_same_body_markers(a: Seq<BodyContent>, b: Seq<BodyContent>, n: nat)
    requires
        a.len() == b.len(),
        forall|i: int| 0 <= i < a.len() ==> body_pieces_match(#[trigger] a[i], b[i]),
        n <= a.len(),
    ensures
        crate::bookmark::body_markers(a, n) == crate::bookmark::body_markers(b, n),
    decreases n,
{
    if n > 0 {
        lemma_same_body_markers(a, b, (n - 1) as nat);
        assert(body_pieces_match(a[n - 1], b[n - 1]));
        if let (BodyContent::Paragraph(x), BodyContent::Paragraph(y)) = (a[n - 1], b[n - 1]) {
            lemma_same_paragraph_markers(
                x,
                y,
                (n - 1) as usize,
                x.bookmark_markers@.len(),
            );
        }
    }
}

proof fn lemma_strays_too(a: Paragraph, b: Paragraph)
    requires
        a.bookmark_markers@ == b.bookmark_markers@,
        a.runs@.len() == b.runs@.len(),
        crate::bookmark::paragraph_strays(a),
    ensures
        crate::bookmark::paragraph_strays(b),
{
    let k = choose|k: int|
        0 <= k < a.bookmark_markers@.len() && crate::bookmark::is_stray(
            a,
            #[trigger] a.bookmark_markers@[k],
        );
    assert(crate::bookmark::is_stray(b, b.bookmark_markers@[k]));
}

proof fn lemma_body_strays_too(a: Seq<BodyContent>, b: Seq<BodyContent>)
    requires
        a.len() == b.len(),
        forall|i: int| 0 <= i < a.len() ==> body_pieces_match(#[trigger] a[i], b[i]),
    ensures
        crate::bookmark::body_strays(a) == crate::bookmark::body_strays(b),
{
    if crate::bookmark::body_strays(a) {
        let i = choose|i: int|
            0 <= i < a.len() && crate::bookmark::content_strays(#[trigger] a[i]);
        assert(body_pieces_match(a[i], b[i]));
        if let (BodyContent::Paragraph(x), BodyContent::Paragraph(y)) = (a[i], b[i]) {
            lemma_strays_too(x, y);
        }
        assert(crate::bookmark::content_strays(b[i]));
    }
    if crate::bookmark::body_strays(b) {
        let i = choose|i: int|
            0 <= i < b.len() && crate::bookmark::content_strays(#[trigger] b[i]);
        assert(body_pieces_match(a[i], b[i]));
        if let (BodyContent::Paragraph(x), BodyContent::Paragraph(y)) = (a[i], b[i]) {
            lemma_strays_too(y, x);
        }
        assert(crate::bookmark::content_strays(a[i]));
    }
}

/// What is stored with fields does not decide which bookmarks have a text, nor
/// how page references are numbered.
pub proof fn law_stored_results_decide_no_reference(
    a: LayoutInput,
    b: LayoutInput,
    name: Seq<char>,
)
    requires
        documents_match(a, b),
    ensures
        crate::bookmark::page_ref_of(a, name) == crate::bookmark::page_ref_of(b, name),
        (crate::bookmark::bookmark_text_of(a, name) is Some) == (
        crate::bookmark::bookmark_text_of(b, name) is Some),
{
    let all_a = crate::visit::document_paragraphs(a);
    let all_b = crate::visit::document_paragraphs(b);
    lemma_same_refs(all_a, all_b, a.revision_view, all_a.len());
    lemma_body_strays_too(a.document.body@, b.document.body@);
    lemma_same_body_markers(a.document.body@, b.document.body@, a.document.body@.len());
}

/// Whether two inputs lay out alike but for the results stored with fields.
pub open spec fn inputs_match(a: LayoutInput, b: LayoutInput) -> bool {
    &&& documents_match(a, b)
    &&& a.numbering == b.numbering
    &&& a.theme == b.theme
    &&& a.hyperlink_urls@ == b.hyperlink_urls@
    &&& a.charts@ == b.charts@
}

/// Whether a piece of a run is no field, or one that shows a placeholder until
/// the pages are finished.
pub open spec fn is_fixed(input: LayoutInput, content: RunContent) -> bool {
    match content {
        RunContent::Field(field) => match crate::field::field_value(input, field) {
            FieldValueView::Computed { kind, .. } => kind is Some,
            _ => false,
        },
        _ => true,
    }
}

/// Whether every field of a run shows a placeholder until the pages are finished.
pub open spec fn run_is_fixed(input: LayoutInput, run: Run) -> bool {
    forall|i: int| 0 <= i < run.content@.len() ==> is_fixed(input, #[trigger] run.content@[i])
}

/// Whether two plans have the same items, styles and diagnostics, and as many
/// fonts.
spec fn agree(p: PlanView, q: PlanView) -> bool {
    &&& p.items == q.items
    &&& p.styles == q.styles
    &&& p.diagnostics == q.diagnostics
    &&& p.fonts.len() == q.fonts.len()
}

proof fn lemma_pieces_agree(
    p: PlanView,
    q: PlanView,
    style: int,
    parts: Seq<Piece>,
    caps: bool,
    kind: Option<FieldKind>,
)
    requires
        agree(p, q),
    ensures
        agree(
            crate::field::pieces_added(p, style, parts, caps, kind),
            crate::field::pieces_added(q, style, parts, caps, kind),
        ),
    decreases parts.len(),
{
    if parts.len() > 0 {
        lemma_pieces_agree(p, q, style, parts.drop_last(), caps, kind);
    }
}

proof fn lemma_segment_agrees(
    p: PlanView,
    q: PlanView,
    theme: Option<Theme>,
    look: RunLook,
    value: Seq<char>,
    stored: Option<SegmentProperties>,
    kind: Option<FieldKind>,
)
    requires
        agree(p, q),
    ensures
        agree(
            crate::field::segment_added(p, theme, look, value, stored, kind),
            crate::field::segment_added(q, theme, look, value, stored, kind),
        ),
{
    let properties = crate::field::segment_properties(look.properties, stored);
    let style = crate::style::text_style(
        properties,
        theme,
        look.marks,
        p.fonts.len() as usize,
        look.hyperlink_url,
    );
    let font = crate::style::run_font(properties, theme, value);
    lemma_pieces_agree(
        p.with_font(font).with_style(style),
        q.with_font(font).with_style(style),
        p.styles.len() as int,
        crate::field::pieces(value),
        crate::style::is_on(properties.caps),
        kind,
    );
}

/// A field that shows a placeholder shows the same one in inputs that match.
proof fn lemma_same_value(a: LayoutInput, b: LayoutInput, x: Field, y: Field)
    requires
        inputs_match(a, b),
        fields_match(x, y),
        is_fixed(a, RunContent::Field(x)),
    ensures
        crate::field::field_value(a, x) == crate::field::field_value(b, y),
        crate::field::field_diagnostic(a, x) == crate::field::field_diagnostic(b, y),
{
    if let Some(name) = crate::bookmark::text_argument(x, 0) {
        law_stored_results_decide_no_reference(a, b, name);
    }
}

proof fn lemma_content_agrees(
    p: PlanView,
    q: PlanView,
    a: LayoutInput,
    b: LayoutInput,
    look: RunLook,
    x: RunContent,
    y: RunContent,
)
    requires
        agree(p, q),
        inputs_match(a, b),
        contents_match(x, y),
        is_fixed(a, x),
    ensures
        agree(
            crate::run_plan::content_added(p, a, look, x),
            crate::run_plan::content_added(q, b, look, y),
        ),
{
    if let (RunContent::Field(f), RunContent::Field(g)) = (x, y) {
        lemma_same_value(a, b, f, g);
        if let FieldValueView::Computed { text, kind } = crate::field::field_value(a, f) {
            lemma_segment_agrees(
                crate::field::field_reported(p, a, f),
                crate::field::field_reported(q, b, g),
                a.theme,
                look,
                text,
                crate::field::first_stored(f),
                kind,
            );
        }
    } else {
        assert(x == y);
    }
}

proof fn lemma_contents_agree(
    p: PlanView,
    q: PlanView,
    a: LayoutInput,
    b: LayoutInput,
    look: RunLook,
    x: Run,
    y: Run,
    n: nat,
)
    requires
        agree(p, q),
        inputs_match(a, b),
        runs_match(x, y),
        run_is_fixed(a, x),
        n <= x.content@.len(),
    ensures
        agree(
            crate::run_plan::contents_added(p, a, look, x, n),
            crate::run_plan::contents_added(q, b, look, y, n),
        ),
    decreases n,
{
    if n > 0 {
        let m = (n - 1) as nat;
        lemma_contents_agree(p, q, a, b, look, x, y, m);
        assert(contents_match(x.content@[m as int], y.content@[m as int]));
        assert(is_fixed(a, x.content@[m as int]));
        lemma_content_agrees(
            crate::run_plan::contents_added(p, a, look, x, m),
            crate::run_plan::contents_added(q, b, look, y, m),
            a,
            b,
            look,
            x.content@[m as int],
            y.content@[m as int],
        );
    }
}

proof fn lemma_run_agrees(
    p: PlanView,
    q: PlanView,
    a: LayoutInput,
    b: LayoutInput,
    pa: Paragraph,
    pb: Paragraph,
    x: ProjectedRunView,
    y: ProjectedRunView,
)
    requires
        agree(p, q),
        inputs_match(a, b),
        paragraphs_match(pa, pb),
        shown_match(x, y),
        run_is_fixed(a, x.run),
    ensures
        agree(
            crate::run_plan::run_added(p, a, pa, x),
            crate::run_plan::run_added(q, b, pb, y),
        ),
{
    let look = crate::run_plan::run_look(p, a, pa, x);
    assert(look == crate::run_plan::run_look(q, b, pb, y));
    let style = crate::style::text_style(
        look.properties,
        a.theme,
        look.marks,
        look.font,
        look.hyperlink_url,
    );
    let font_x = crate::style::run_font(
        look.properties,
        a.theme,
        crate::revision::run_text(x.run),
    );
    let font_y = crate::style::run_font(
        look.properties,
        b.theme,
        crate::revision::run_text(y.run),
    );
    lemma_contents_agree(
        p.with_font(font_x).with_style(style),
        q.with_font(font_y).with_style(style),
        a,
        b,
        look,
        x.run,
        y.run,
        x.run.content@.len(),
    );
}

proof fn lemma_same_targets(
    a: LayoutInput,
    b: LayoutInput,
    markers: Seq<BookmarkMarker>,
    boundary: usize,
    after: Option<RawOrder>,
    through: RawOrder,
    n: nat,
)
    requires
        inputs_match(a, b),
    ensures
        crate::run_plan::targets_between(a, markers, boundary, after, through, n)
            == crate::run_plan::targets_between(b, markers, boundary, after, through, n),
    decreases n,
{
    if n > 0 {
        lemma_same_targets(a, b, markers, boundary, after, through, (n - 1) as nat);
        if let Some(name) = markers[n - 1].name {
            law_stored_results_decide_no_reference(a, b, name@);
        }
    }
}

proof fn lemma_runs_agree(
    p: PlanView,
    a: LayoutInput,
    b: LayoutInput,
    pa: Paragraph,
    pb: Paragraph,
    runs_a: Seq<ProjectedRunView>,
    runs_b: Seq<ProjectedRunView>,
    n: nat,
)
    requires
        inputs_match(a, b),
        paragraphs_match(pa, pb),
        lists_match(runs_a, runs_b),
        forall|i: int| 0 <= i < runs_a.len() ==> run_is_fixed(a, (#[trigger] runs_a[i]).run),
        n <= runs_a.len(),
    ensures
        agree(
            crate::run_plan::runs_added(p, a, pa, runs_a, n),
            crate::run_plan::runs_added(p, b, pb, runs_b, n),
        ),
    decreases n,
{
    if n > 0 {
        let m = (n - 1) as nat;
        lemma_runs_agree(p, a, b, pa, pb, runs_a, runs_b, m);
        assert(shown_match(runs_a[m as int], runs_b[m as int]));
        if m > 0 {
            assert(shown_match(runs_a[m - 1], runs_b[m - 1]));
        }
        assert(run_is_fixed(a, runs_a[m as int].run));
        lemma_same_targets(
            a,
            b,
            pa.bookmark_markers@,
            runs_a[m as int].boundary,
            crate::run_plan::place_before(runs_a, m as int),
            runs_a[m as int].raw_order,
            pa.bookmark_markers@.len(),
        );
        let targets = crate::run_plan::targets_before_run(a, pa, runs_a, m as int);
        assert(targets == crate::run_plan::targets_before_run(b, pb, runs_b, m as int));
        lemma_run_agrees(
            crate::run_plan::targets_added(
                crate::run_plan::runs_added(p, a, pa, runs_a, m),
                targets,
            ),
            crate::run_plan::targets_added(
                crate::run_plan::runs_added(p, b, pb, runs_b, m),
                targets,
            ),
            a,
            b,
            pa,
            pb,
            runs_a[m as int],
            runs_b[m as int],
        );
    }
}

/// Page references take the same room in every pagination: where all fields of a
/// paragraph show placeholders, two layouts of it that differ only in the results
/// stored with fields, there and anywhere else in the document, inside changes
/// too, have the same items and the same styles, however long the stored results
/// are.
pub proof fn law_stored_results_do_not_change_the_items(
    a: LayoutInput,
    b: LayoutInput,
    pa: Paragraph,
    pb: Paragraph,
    width: Emu,
)
    requires
        inputs_match(a, b),
        paragraphs_match(pa, pb),
        forall|i: int|
            0 <= i < crate::revision::projection(pa, a.revision_view).len() ==> run_is_fixed(
                a,
                (#[trigger] crate::revision::projection(pa, a.revision_view)[i]).run,
            ),
    ensures
        ({
            let one = crate::paragraph::laid_out(a, pa, width).0;
            let other = crate::paragraph::laid_out(b, pb, width).0;
            &&& one.items == other.items
            &&& one.styles == other.styles
            &&& one.params == other.params
        }),
{
    let format = crate::paragraph::effective_format(a, pa);
    assert(format == crate::paragraph::effective_format(b, pb));
    let runs_a = crate::revision::projection(pa, a.revision_view);
    let runs_b = crate::revision::projection(pb, b.revision_view);
    lemma_projections_match(pa, pb, a.revision_view, (pa.runs@.len() + 1) as nat);
    let marked = match (format.num_id, a.numbering, pa.marker) {
        (Some(_), Some(_), Some(marker)) => crate::run_plan::marker_added(
            PlanView::empty(),
            marker,
            pa.text_style,
        ),
        _ => PlanView::empty(),
    };
    lemma_runs_agree(marked, a, b, pa, pb, runs_a, runs_b, runs_a.len());
    if runs_a.len() > 0 {
        assert(shown_match(runs_a[runs_a.len() - 1], runs_b[runs_b.len() - 1]));
    }
    lemma_same_targets(
        a,
        b,
        pa.bookmark_markers@,
        pa.runs@.len() as usize,
        crate::run_plan::last_place(pa, runs_a),
        RawOrder::AfterRaw,
        pa.bookmark_markers@.len(),
    );
}

/// Whether a paragraph holds nothing but one run with one field.
pub open spec fn holds_only(paragraph: Paragraph, run: Run, field: Field) -> bool {
    &&& paragraph.runs@ == seq![run]
    &&& paragraph.revisions@.len() == 0
    &&& paragraph.bookmark_markers@.len() == 0
    &&& paragraph.marker is None
    &&& run.content@ == seq![RunContent::Field(field)]
    &&& run.alt_drawings@.len() == 0
}

/// A paragraph without changes shows its one run.
proof fn lemma_one_run_shown(paragraph: Paragraph, run: Run, view: RevisionView)
    requires
        paragraph.runs@ == seq![run],
        paragraph.revisions@.len() == 0,
    ensures
        crate::revision::projection(paragraph, view) == seq![
            crate::revision::ordinary_run(run, 0),
        ],
{
    reveal_with_fuel(crate::revision::projection_prefix, 3);
    assert(crate::revision::projection(paragraph, view) =~= seq![
        crate::revision::ordinary_run(run, 0),
    ]);
}

/// A page reference to a bookmark that has a text, alone in its paragraph, is
/// laid out as one placeholder for the page of that bookmark, and nothing is
/// reported of it.
pub proof fn law_a_page_reference_is_one_placeholder(
    input: LayoutInput,
    paragraph: Paragraph,
    run: Run,
    field: Field,
    name: Seq<char>,
    target: usize,
    width: Emu,
)
    requires
        holds_only(paragraph, run, field),
        field.name@ == "PAGEREF"@,
        crate::bookmark::text_argument(field, 0) == Some(name),
        crate::bookmark::bookmark_text_of(input, name) is Some,
        crate::bookmark::page_ref_of(input, name) == Some(target),
        !crate::style::is_on(crate::run_plan::shown_properties(run).vanish),
        !crate::style::is_on(
            crate::field::segment_properties(
                crate::run_plan::shown_properties(run),
                crate::field::first_stored(field),
            ).vanish,
        ),
        !crate::style::is_on(
            crate::field::segment_properties(
                crate::run_plan::shown_properties(run),
                crate::field::first_stored(field),
            ).caps,
        ),
    ensures
        crate::paragraph::laid_out(input, paragraph, width).0.items == seq![
            ItemView::Text(
                TextItemView {
                    style: 1,
                    text: "99"@,
                    field: Some(FieldKind::TargetPage(target)),
                    note: None,
                },
            ),
        ],
        crate::paragraph::laid_out(input, paragraph, width).1.len() == 0,
{
    let view = input.revision_view;
    let shown = crate::revision::projection(paragraph, view);
    lemma_one_run_shown(paragraph, run, view);
    reveal_strlit("PAGEREF");
    reveal_strlit("PAGE");
    reveal_strlit("NUMPAGES");
    reveal_strlit("REF");
    assert("PAGEREF"@.len() == 7);
    assert("PAGE"@.len() == 4);
    assert("NUMPAGES"@.len() == 8);
    assert("REF"@.len() == 3);
    let kind = Some(FieldKind::TargetPage(target));
    assert(crate::field::field_value(input, field) == crate::field::page_placeholder(
        FieldKind::TargetPage(target),
    ));
    assert(crate::field::field_diagnostic(input, field) is None);
    // The plan: a font and a style for the run, then those of the placeholder.
    let empty = PlanView::empty();
    let shown_run = shown[0];
    let look = crate::run_plan::run_look(empty, input, paragraph, shown_run);
    let ready = empty.with_font(
        crate::style::run_font(
            look.properties,
            input.theme,
            crate::revision::run_text(run),
        ),
    ).with_style(
        crate::style::text_style(
            look.properties,
            input.theme,
            look.marks,
            look.font,
            look.hyperlink_url,
        ),
    );
    let value = "99"@;
    reveal_strlit("99");
    assert(value =~= seq!['9', '9']);
    lemma_two_plain_chars(value);
    let properties = crate::field::segment_properties(
        look.properties,
        crate::field::first_stored(field),
    );
    let style = crate::style::text_style(
        properties,
        input.theme,
        look.marks,
        ready.fonts.len() as usize,
        look.hyperlink_url,
    );
    let begun = ready.with_font(
        crate::style::run_font(properties, input.theme, value),
    ).with_style(style);
    reveal_with_fuel(crate::field::pieces_added, 2);
    let item = ItemView::Text(TextItemView { style: 1, text: value, field: kind, note: None });
    let parts = crate::field::pieces(value);
    assert(parts.drop_last() =~= Seq::empty());
    assert(crate::field::pieces_added(begun, 1, parts, false, kind) == begun.with_item(item));
    reveal_with_fuel(crate::run_plan::contents_added, 2);
    assert(run.content@[0] == RunContent::Field(field));
    let done = crate::run_plan::run_added(empty, input, paragraph, shown_run);
    assert(done == begun.with_item(item));
    reveal_with_fuel(crate::run_plan::runs_added, 2);
    reveal_with_fuel(crate::run_plan::targets_between, 1);
    let num_id = crate::paragraph::effective_format(input, paragraph).num_id;
    let plan = crate::run_plan::paragraph_plan(input, paragraph, num_id);
    assert(plan == done);
    assert(plan.items =~= seq![item]);
    // No drawing floats here.
    reveal_with_fuel(crate::paragraph::paragraph_anchored, 2);
    reveal_with_fuel(crate::paragraph::contents_anchored, 2);
    reveal_with_fuel(crate::paragraph::recovered_anchored, 1);
    let anchored = crate::paragraph::paragraph_anchored(input, paragraph, shown.len());
    assert(anchored.diagnostics.len() == 0);
}

proof fn lemma_two_plain_chars(value: Seq<char>)
    requires
        value == seq!['9', '9'],
    ensures
        crate::field::pieces(value) == seq![Piece::Text(value)],
{
    reveal_with_fuel(crate::field::pieces, 3);
    let one = value.drop_last();
    assert(one =~= seq!['9']);
    assert(one.drop_last() =~= Seq::empty());
    assert(crate::field::pieces(one) =~= seq![Piece::Text(seq!['9'])]);
    assert(seq!['9'].push('9') =~= value);
    assert(crate::field::pieces(value) =~= seq![Piece::Text(value)]);
}

proof fn lemma_refs_contain(
    paragraphs: Seq<Paragraph>,
    view: RevisionView,
    i: int,
    name: Seq<char>,
    n: nat,
)
    requires
        0 <= i < n <= paragraphs.len(),
        crate::bookmark::paragraph_refs(paragraphs[i], view).contains(name),
    ensures
        crate::bookmark::paragraphs_refs(paragraphs, view, n).contains(name),
    decreases n,
{
    let before = crate::bookmark::paragraphs_refs(paragraphs, view, (n - 1) as nat);
    let here = crate::bookmark::paragraph_refs(paragraphs[n - 1], view);
    let all = crate::bookmark::paragraphs_refs(paragraphs, view, n);
    assert(all == before + here);
    if i == n - 1 {
        let k = choose|k: int| 0 <= k < here.len() && here[k] == name;
        assert(all[before.len() + k] == name);
    } else {
        lemma_refs_contain(paragraphs, view, i, name, (n - 1) as nat);
        let k = choose|k: int| 0 <= k < before.len() && before[k] == name;
        assert(all[k] == name);
    }
}

/// A page reference that stands alone in a paragraph of the document, in the body
/// or anywhere inside a table or a content control, has a number.
pub proof fn law_a_page_reference_in_the_document_has_a_number(
    input: LayoutInput,
    paragraph: Paragraph,
    run: Run,
    field: Field,
    name: Seq<char>,
)
    requires
        holds_only(paragraph, run, field),
        field.name@ == "PAGEREF"@,
        crate::bookmark::text_argument(field, 0) == Some(name),
        crate::visit::document_paragraphs(input).contains(paragraph),
    ensures
        crate::bookmark::page_ref_of(input, name) is Some,
{
    let view = input.revision_view;
    let all = crate::visit::document_paragraphs(input);
    let i = choose|i: int| 0 <= i < all.len() && all[i] == paragraph;
    lemma_one_run_shown(paragraph, run, view);
    reveal_with_fuel(crate::bookmark::projected_refs, 2);
    reveal_with_fuel(crate::bookmark::run_refs, 2);
    assert(run.content@[0] == RunContent::Field(field));
    let refs = crate::bookmark::paragraph_refs(paragraph, view);
    assert(refs =~= seq![name]);
    assert(refs[0] == name);
    lemma_refs_contain(all, view, i, name, all.len());
    crate::bookmark::law_page_references_are_numbered_apart(input, name, name);
}

} // verus!
