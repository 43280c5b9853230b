//! What holds of the runs that a revision view shows.

use vstd::prelude::*;

use crate::document::{Paragraph, Revision, RevisionView, Run};
use crate::revision::{ProjectedRunView, RevisionPlace};

verus! {

/// Whether a change that neither adds nor removes text encloses no runs, and
/// whether the same holds of every change nested in it.
pub open spec fn revision_consistent(revision: Revision) -> bool
    decreases revision,
{
    &&& crate::revision::adds_text(revision.kind) || crate::revision::removes_text(revision.kind)
        || crate::revision::enclosed_runs(revision.content) is None
    &&& forall|i: int|
        0 <= i < revision.nested@.len() ==> revision_consistent((#[trigger] revision.nested@[i]).1)
}

/// A shown run without its underline mark.
pub open spec fn unmarked(run: ProjectedRunView) -> ProjectedRunView {
    ProjectedRunView { force_underline: false, ..run }
}

/// The runs that are not struck out, without their underline marks.
pub open spec fn unstruck(runs: Seq<ProjectedRunView>) -> Seq<ProjectedRunView> {
    runs.filter(|run: ProjectedRunView| !run.force_strike).map_values(
        |run: ProjectedRunView| unmarked(run),
    )
}

proof fn lemma_unstruck_add(a: Seq<ProjectedRunView>, b: Seq<ProjectedRunView>)
    ensures
        unstruck(a + b) == unstruck(a) + unstruck(b),
{
    let keep = |run: ProjectedRunView| !run.force_strike;
    Seq::filter_distributes_over_add(a, b, keep);
    assert(unstruck(a + b) =~= unstruck(a) + unstruck(b));
}

proof fn lemma_unstruck_one(run: ProjectedRunView)
    ensures
        unstruck(seq![run]) == if run.force_strike {
            Seq::<ProjectedRunView>::empty()
        } else {
            seq![unmarked(run)]
        },
{
    let keep = |run: ProjectedRunView| !run.force_strike;
    reveal_with_fuel(Seq::filter, 2);
    assert(seq![run].drop_last() =~= Seq::<ProjectedRunView>::empty());
    assert(unstruck(seq![run]) =~= if run.force_strike {
        Seq::<ProjectedRunView>::empty()
    } else {
        seq![unmarked(run)]
    });
}

proof fn lemma_unstruck_empty()
    ensures
        unstruck(Seq::<ProjectedRunView>::empty()) == Seq::<ProjectedRunView>::empty(),
{
    reveal_with_fuel(Seq::filter, 1);
    assert(unstruck(Seq::<ProjectedRunView>::empty()) =~= Seq::<ProjectedRunView>::empty());
}

proof fn lemma_revision_unstruck(
    revision: Revision,
    place: RevisionPlace,
    underline: bool,
    strike: bool,
)
    requires
        revision_consistent(revision),
    ensures
        unstruck(
            crate::revision::revision_projection(
                revision,
                RevisionView::Markup,
                place,
                underline,
                strike,
            ),
        ) == if strike {
            Seq::<ProjectedRunView>::empty()
        } else {
            crate::revision::revision_projection(
                revision,
                RevisionView::Accepted,
                place,
                false,
                false,
            )
        },
    decreases revision, 0nat, 0nat,
{
    lemma_unstruck_empty();
    match crate::revision::enclosed_runs(revision.content) {
        Some(runs) => {
            lemma_prefix_unstruck(
                revision.nested@,
                runs,
                place,
                underline || crate::revision::adds_text(revision.kind),
                strike || crate::revision::removes_text(revision.kind),
                (runs.len() + 1) as nat,
            );
        },
        None => {},
    }
}

proof fn lemma_prefix_unstruck(
    nested: Seq<(usize, Revision)>,
    runs: Seq<Run>,
    place: RevisionPlace,
    underline: bool,
    strike: bool,
    count: nat,
)
    requires
        forall|i: int| 0 <= i < nested.len() ==> revision_consistent((#[trigger] nested[i]).1),
    ensures
        unstruck(
            crate::revision::revision_prefix(
                nested,
                runs,
                RevisionView::Markup,
                place,
                underline,
                strike,
                count,
            ),
        ) == if strike {
            Seq::<ProjectedRunView>::empty()
        } else {
            crate::revision::revision_prefix(
                nested,
                runs,
                RevisionView::Accepted,
                place,
                false,
                false,
                count,
            )
        },
    decreases nested, 1nat, count,
{
    lemma_unstruck_empty();
    if count > 0 {
        let boundary = (count - 1) as nat;
        lemma_prefix_unstruck(nested, runs, place, underline, strike, boundary);
        lemma_nested_unstruck(nested, boundary, place, underline, strike, nested.len());
        let before = crate::revision::revision_prefix(
            nested,
            runs,
            RevisionView::Markup,
            place,
            underline,
            strike,
            boundary,
        );
        let inner = crate::revision::nested_at(
            nested,
            boundary,
            RevisionView::Markup,
            place,
            underline,
            strike,
            nested.len(),
        );
        let own = if boundary < runs.len() {
            seq![crate::revision::revised_run(runs[boundary as int], place, underline, strike)]
        } else {
            Seq::<ProjectedRunView>::empty()
        };
        if boundary < runs.len() {
            lemma_unstruck_one(
                crate::revision::revised_run(runs[boundary as int], place, underline, strike),
            );
        }
        lemma_unstruck_add(before, inner);
        lemma_unstruck_add(before + inner, own);
        if strike {
            assert(Seq::<ProjectedRunView>::empty() + Seq::<ProjectedRunView>::empty()
                =~= Seq::<ProjectedRunView>::empty());
        }
    }
}

proof fn lemma_nested_unstruck(
    nested: Seq<(usize, Revision)>,
    boundary: nat,
    place: RevisionPlace,
    underline: bool,
    strike: bool,
    count: nat,
)
    requires
        forall|i: int| 0 <= i < nested.len() ==> revision_consistent((#[trigger] nested[i]).1),
    ensures
        unstruck(
            crate::revision::nested_at(
                nested,
                boundary,
                RevisionView::Markup,
                place,
                underline,
                strike,
                count,
            ),
        ) == if strike {
            Seq::<ProjectedRunView>::empty()
        } else {
            crate::revision::nested_at(
                nested,
                boundary,
                RevisionView::Accepted,
                place,
                false,
                false,
                count,
            )
        },
    decreases nested, 0nat, count,
{
    lemma_unstruck_empty();
    if 0 < count <= nested.len() {
        lemma_nested_unstruck(nested, boundary, place, underline, strike, (count - 1) as nat);
        let before = crate::revision::nested_at(
            nested,
            boundary,
            RevisionView::Markup,
            place,
            underline,
            strike,
            (count - 1) as nat,
        );
        if nested[count - 1].0 == boundary {
            let last = crate::revision::revision_projection(
                nested[count - 1].1,
                RevisionView::Markup,
                place,
                underline,
                strike,
            );
            lemma_revision_unstruck(nested[count - 1].1, place, underline, strike);
            lemma_unstruck_add(before, last);
        } else {
            lemma_unstruck_add(before, Seq::<ProjectedRunView>::empty());
        }
        if strike {
            assert(Seq::<ProjectedRunView>::empty() + Seq::<ProjectedRunView>::empty()
                =~= Seq::<ProjectedRunView>::empty());
        }
    }
}

proof fn lemma_revisions_unstruck(para: Paragraph, boundary: nat, count: nat)
    requires
        forall|i: int|
            0 <= i < para.revisions@.len() ==> revision_consistent(
                (#[trigger] para.revisions@[i]).revision,
            ),
    ensures
        unstruck(crate::revision::revisions_at(para, RevisionView::Markup, boundary, count))
            == crate::revision::revisions_at(para, RevisionView::Accepted, boundary, count),
    decreases count,
{
    lemma_unstruck_empty();
    if 0 < count <= para.revisions@.len() {
        lemma_revisions_unstruck(para, boundary, (count - 1) as nat);
        let before = crate::revision::revisions_at(
            para,
            RevisionView::Markup,
            boundary,
            (count - 1) as nat,
        );
        let placed = para.revisions@[count - 1];
        if placed.boundary == boundary {
            let place = RevisionPlace {
                boundary: placed.boundary,
                raw_order: crate::revision::slot_order(para, placed.boundary, placed.slot),
                hyperlink_index: crate::revision::slot_hyperlink(placed.slot),
            };
            let last = crate::revision::revision_projection(
                placed.revision,
                RevisionView::Markup,
                place,
                false,
                false,
            );
            lemma_revision_unstruck(placed.revision, place, false, false);
            lemma_unstruck_add(before, last);
        } else {
            lemma_unstruck_add(before, Seq::<ProjectedRunView>::empty());
        }
    }
}

proof fn lemma_projection_unstruck(para: Paragraph, count: nat)
    requires
        forall|i: int|
            0 <= i < para.revisions@.len() ==> revision_consistent(
                (#[trigger] para.revisions@[i]).revision,
            ),
    ensures
        unstruck(crate::revision::projection_prefix(para, RevisionView::Markup, count))
            == crate::revision::projection_prefix(para, RevisionView::Accepted, count),
    decreases count,
{
    lemma_unstruck_empty();
    if count > 0 {
        let boundary = (count - 1) as nat;
        lemma_projection_unstruck(para, boundary);
        lemma_revisions_unstruck(para, boundary, para.revisions@.len());
        let before = crate::revision::projection_prefix(para, RevisionView::Markup, boundary);
        let changes = crate::revision::revisions_at(
            para,
            RevisionView::Markup,
            boundary,
            para.revisions@.len(),
        );
        let own = if boundary < para.runs@.len() {
            seq![crate::revision::ordinary_run(para.runs@[boundary as int], boundary as usize)]
        } else {
            Seq::<ProjectedRunView>::empty()
        };
        if boundary < para.runs@.len() {
            let run = crate::revision::ordinary_run(
                para.runs@[boundary as int],
                boundary as usize,
            );
            lemma_unstruck_one(run);
            assert(unmarked(run) == run);
        }
        lemma_unstruck_add(changes, own);
        lemma_unstruck_add(before, changes + own);
    }
}

/// Accepting every change leaves exactly the runs that the markup view does not
/// strike out, in the same order.
pub proof fn law_accepted_is_markup_without_struck_runs(para: Paragraph)
    requires
        forall|i: int|
            0 <= i < para.revisions@.len() ==> revision_consistent(
                (#[trigger] para.revisions@[i]).revision,
            ),
    ensures
        crate::revision::projection(para, RevisionView::Accepted) == unstruck(
            crate::revision::projection(para, RevisionView::Markup),
        ),
{
    lemma_projection_unstruck(para, (para.runs@.len() + 1) as nat);
}

/// Whether a shown run stands where its change stands, inside a change.
pub open spec fn stands_at(run: ProjectedRunView, place: RevisionPlace) -> bool {
    &&& run.boundary == place.boundary
    &&& run.raw_order == place.raw_order
    &&& run.hyperlink_index == place.hyperlink_index
    &&& run.ordinary_run_index is None
}

proof fn lemma_revision_placed(
    revision: Revision,
    view: RevisionView,
    place: RevisionPlace,
    underline: bool,
    strike: bool,
)
    ensures
        forall|k: int|
            0 <= k < crate::revision::revision_projection(
                revision,
                view,
                place,
                underline,
                strike,
            ).len() ==> {
                let run = #[trigger] crate::revision::revision_projection(
                    revision,
                    view,
                    place,
                    underline,
                    strike,
                )[k];
                stands_at(run, place) && decreases_to!(revision => run.run)
            },
    decreases revision, 0nat, 0nat,
{
    match crate::revision::enclosed_runs(revision.content) {
        Some(runs) => {
            let markup = view is Markup;
            assert forall|i: int| 0 <= i < runs.len() implies decreases_to!(revision => #[trigger] runs[i]) by {
                match revision.content {
                    crate::document::RevisionContent::Runs(list) => {
                        assert(decreases_to!(revision => list@[i]));
                    },
                    _ => {},
                }
            }
            lemma_prefix_placed(
                revision,
                revision.nested@,
                runs,
                view,
                place,
                underline || (markup && crate::revision::adds_text(revision.kind)),
                strike || (markup && crate::revision::removes_text(revision.kind)),
                (runs.len() + 1) as nat,
            );
        },
        None => {},
    }
}

proof fn lemma_prefix_placed(
    root: Revision,
    nested: Seq<(usize, Revision)>,
    runs: Seq<Run>,
    view: RevisionView,
    place: RevisionPlace,
    underline: bool,
    strike: bool,
    count: nat,
)
    requires
        nested == root.nested@,
        forall|i: int| 0 <= i < runs.len() ==> decreases_to!(root => #[trigger] runs[i]),
    ensures
        forall|k: int|
            0 <= k < crate::revision::revision_prefix(
                nested,
                runs,
                view,
                place,
                underline,
                strike,
                count,
            ).len() ==> {
                let run = #[trigger] crate::revision::revision_prefix(
                    nested,
                    runs,
                    view,
                    place,
                    underline,
                    strike,
                    count,
                )[k];
                stands_at(run, place) && decreases_to!(root => run.run)
            },
    decreases nested, 1nat, count,
{
    if count > 0 {
        let boundary = (count - 1) as nat;
        lemma_prefix_placed(root, nested, runs, view, place, underline, strike, boundary);
        lemma_nested_placed(
            root,
            nested,
            boundary,
            view,
            place,
            underline,
            strike,
            nested.len(),
        );
    }
}

proof fn lemma_nested_placed(
    root: Revision,
    nested: Seq<(usize, Revision)>,
    boundary: nat,
    view: RevisionView,
    place: RevisionPlace,
    underline: bool,
    strike: bool,
    count: nat,
)
    requires
        nested == root.nested@,
    ensures
        forall|k: int|
            0 <= k < crate::revision::nested_at(
                nested,
                boundary,
                view,
                place,
                underline,
                strike,
                count,
            ).len() ==> {
                let run = #[trigger] crate::revision::nested_at(
                    nested,
                    boundary,
                    view,
                    place,
                    underline,
                    strike,
                    count,
                )[k];
                stands_at(run, place) && decreases_to!(root => run.run)
            },
    decreases nested, 0nat, count,
{
    if 0 < count <= nested.len() {
        lemma_nested_placed(
            root,
            nested,
            boundary,
            view,
            place,
            underline,
            strike,
            (count - 1) as nat,
        );
        lemma_revision_placed(nested[count - 1].1, view, place, underline, strike);
        assert(decreases_to!(root => nested[count - 1].1));
    }
}

proof fn lemma_revisions_placed(para: Paragraph, view: RevisionView, boundary: nat, count: nat)
    ensures
        forall|k: int|
            0 <= k < crate::revision::revisions_at(para, view, boundary, count).len() ==> {
                let run = #[trigger] crate::revision::revisions_at(para, view, boundary, count)[k];
                &&& run.boundary == boundary
                &&& run.ordinary_run_index is None
                &&& decreases_to!(para => run.run)
            },
    decreases count,
{
    if 0 < count <= para.revisions@.len() {
        lemma_revisions_placed(para, view, boundary, (count - 1) as nat);
        let placed = para.revisions@[count - 1];
        let place = RevisionPlace {
            boundary: placed.boundary,
            raw_order: crate::revision::slot_order(para, placed.boundary, placed.slot),
            hyperlink_index: crate::revision::slot_hyperlink(placed.slot),
        };
        lemma_revision_placed(placed.revision, view, place, false, false);
        assert(decreases_to!(para => para.revisions@[count - 1]));
        assert(decreases_to!(para => placed.revision));
    }
}

proof fn lemma_projection_placed(para: Paragraph, view: RevisionView, count: nat)
    requires
        count <= para.runs@.len() + 1,
    ensures
        forall|k: int|
            0 <= k < crate::revision::projection_prefix(para, view, count).len() ==> {
                let run = #[trigger] crate::revision::projection_prefix(para, view, count)[k];
                &&& run.boundary < count
                &&& decreases_to!(para => run.run)
                &&& run.ordinary_run_index matches Some(index) ==> index == run.boundary && index
                    < para.runs@.len() && run == crate::revision::ordinary_run(
                    para.runs@[index as int],
                    index,
                )
            },
        forall|j: int, k: int|
            0 <= j <= k < crate::revision::projection_prefix(para, view, count).len()
                ==> (#[trigger] crate::revision::projection_prefix(para, view, count)[j]).boundary
                <= (#[trigger] crate::revision::projection_prefix(para, view, count)[k]).boundary,
    decreases count,
{
    if count > 0 {
        let boundary = (count - 1) as nat;
        lemma_projection_placed(para, view, boundary);
        lemma_revisions_placed(para, view, boundary, para.revisions@.len());
        assert(para.runs.len() == para.runs@.len());
        let before = crate::revision::projection_prefix(para, view, boundary);
        let here = crate::revision::boundary_projection(para, view, boundary);
        assert forall|k: int| 0 <= k < here.len() implies {
            let run = #[trigger] here[k];
            &&& run.boundary == boundary
            &&& decreases_to!(para => run.run)
            &&& run.ordinary_run_index matches Some(index) ==> index == run.boundary && index
                < para.runs@.len() && run == crate::revision::ordinary_run(
                para.runs@[index as int],
                index,
            )
        } by {
            let changes = crate::revision::revisions_at(para, view, boundary, para.revisions@.len());
            if k < changes.len() {
                assert(here[k] == changes[k]);
            } else {
                assert(decreases_to!(para => para.runs@[boundary as int]));
            }
        }
        let all = crate::revision::projection_prefix(para, view, count);
        assert(all == before + here);
        assert forall|k: int| 0 <= k < all.len() implies #[trigger] all[k] == if k < before.len() {
            before[k]
        } else {
            here[k - before.len()]
        } by {}
    }
}

/// Every run that a view shows is a part of its paragraph.
pub proof fn lemma_projected_runs_are_parts(para: Paragraph, view: RevisionView)
    ensures
        forall|k: int|
            0 <= k < crate::revision::projection(para, view).len() ==> decreases_to!(para =>
                (#[trigger] crate::revision::projection(para, view)[k]).run),
{
    lemma_projection_placed(para, view, (para.runs@.len() + 1) as nat);
}

/// A view shows runs in the order of the boundaries that they stand at, none of
/// them past the last one.
pub proof fn law_projection_is_in_boundary_order(para: Paragraph, view: RevisionView)
    ensures
        forall|j: int, k: int|
            0 <= j <= k < crate::revision::projection(para, view).len()
                ==> (#[trigger] crate::revision::projection(para, view)[j]).boundary <= (
            #[trigger] crate::revision::projection(para, view)[k]).boundary <= para.runs@.len(),
{
    lemma_projection_placed(para, view, (para.runs@.len() + 1) as nat);
}

/// The runs of a list that no tracked change encloses.
pub open spec fn ordinary_only(runs: Seq<ProjectedRunView>) -> Seq<ProjectedRunView> {
    runs.filter(|run: ProjectedRunView| run.ordinary_run_index is Some)
}

proof fn lemma_ordinary_none(runs: Seq<ProjectedRunView>)
    requires
        forall|k: int| 0 <= k < runs.len() ==> (#[trigger] runs[k]).ordinary_run_index is None,
    ensures
        ordinary_only(runs) == Seq::<ProjectedRunView>::empty(),
    decreases runs.len(),
{
    reveal_with_fuel(Seq::filter, 1);
    if runs.len() > 0 {
        lemma_ordinary_none(runs.drop_last());
    }
}

proof fn lemma_ordinary_push(runs: Seq<ProjectedRunView>, run: ProjectedRunView)
    requires
        run.ordinary_run_index is Some,
    ensures
        ordinary_only(runs.push(run)) == ordinary_only(runs).push(run),
{
    reveal_with_fuel(Seq::filter, 1);
    assert(runs.push(run).drop_last() =~= runs);
}

proof fn lemma_ordinary_prefix(para: Paragraph, view: RevisionView, count: nat)
    requires
        count <= para.runs@.len() + 1,
    ensures
        ordinary_only(crate::revision::projection_prefix(para, view, count)) == Seq::new(
            if count <= para.runs@.len() { count } else { para.runs@.len() },
            |i: int| crate::revision::ordinary_run(para.runs@[i], i as usize),
        ),
    decreases count,
{
    let keep = |run: ProjectedRunView| run.ordinary_run_index is Some;
    if count == 0 {
        lemma_ordinary_none(Seq::empty());
        assert(ordinary_only(crate::revision::projection_prefix(para, view, 0)) =~= Seq::new(
            0,
            |i: int| crate::revision::ordinary_run(para.runs@[i], i as usize),
        ));
    } else {
        let boundary = (count - 1) as nat;
        lemma_ordinary_prefix(para, view, boundary);
        lemma_revisions_placed(para, view, boundary, para.revisions@.len());
        let before = crate::revision::projection_prefix(para, view, boundary);
        let changes = crate::revision::revisions_at(para, view, boundary, para.revisions@.len());
        lemma_ordinary_none(changes);
        Seq::filter_distributes_over_add(before, changes, keep);
        assert(ordinary_only(before + changes) =~= ordinary_only(before));
        if boundary < para.runs@.len() {
            let run = crate::revision::ordinary_run(
                para.runs@[boundary as int],
                boundary as usize,
            );
            assert(crate::revision::projection_prefix(para, view, count) =~= (before
                + changes).push(run));
            lemma_ordinary_push(before + changes, run);
        } else {
            assert(crate::revision::projection_prefix(para, view, count) =~= before + changes);
        }
        assert(ordinary_only(crate::revision::projection_prefix(para, view, count)) =~= Seq::new(
            if count <= para.runs@.len() { count } else { para.runs@.len() },
            |i: int| crate::revision::ordinary_run(para.runs@[i], i as usize),
        ));
    }
}

/// Every run outside a tracked change is shown once in either view, in order
/// and without marks.
pub proof fn law_ordinary_runs_are_always_shown(para: Paragraph, view: RevisionView)
    ensures
        ordinary_only(crate::revision::projection(para, view)) == Seq::new(
            para.runs@.len(),
            |i: int| crate::revision::ordinary_run(para.runs@[i], i as usize),
        ),
{
    lemma_ordinary_prefix(para, view, (para.runs@.len() + 1) as nat);
}

/// Whether no run carries a mark.
pub open spec fn are_bare(runs: Seq<ProjectedRunView>) -> bool {
    forall|k: int|
        0 <= k < runs.len() ==> !(#[trigger] runs[k]).force_underline && !runs[k].force_strike
}

proof fn lemma_bare_add(a: Seq<ProjectedRunView>, b: Seq<ProjectedRunView>)
    requires
        are_bare(a),
        are_bare(b),
    ensures
        are_bare(a + b),
{
    let all = a + b;
    assert forall|k: int| 0 <= k < all.len() implies !(#[trigger] all[k]).force_underline
        && !all[k].force_strike by {
        if k < a.len() {
            assert(all[k] == a[k]);
        } else {
            assert(all[k] == b[k - a.len()]);
        }
    }
}

proof fn lemma_accepted_revision_bare(revision: Revision, place: RevisionPlace)
    ensures
        are_bare(
            crate::revision::revision_projection(
                revision,
                RevisionView::Accepted,
                place,
                false,
                false,
            ),
        ),
    decreases revision, 0nat, 0nat,
{
    if let Some(runs) = crate::revision::enclosed_runs(revision.content) {
        lemma_accepted_prefix_bare(revision.nested@, runs, place, (runs.len() + 1) as nat);
    }
}

proof fn lemma_accepted_prefix_bare(
    nested: Seq<(usize, Revision)>,
    runs: Seq<Run>,
    place: RevisionPlace,
    count: nat,
)
    ensures
        are_bare(
            crate::revision::revision_prefix(
                nested,
                runs,
                RevisionView::Accepted,
                place,
                false,
                false,
                count,
            ),
        ),
    decreases nested, 1nat, count,
{
    if count > 0 {
        let view = RevisionView::Accepted;
        let boundary = (count - 1) as nat;
        lemma_accepted_prefix_bare(nested, runs, place, boundary);
        lemma_accepted_nested_bare(nested, boundary, place, nested.len());
        let before = crate::revision::revision_prefix(
            nested,
            runs,
            view,
            place,
            false,
            false,
            boundary,
        );
        let inner = crate::revision::nested_at(
            nested,
            boundary,
            view,
            place,
            false,
            false,
            nested.len(),
        );
        lemma_bare_add(before, inner);
        if boundary < runs.len() {
            lemma_bare_add(
                before + inner,
                seq![crate::revision::revised_run(runs[boundary as int], place, false, false)],
            );
        } else {
            lemma_bare_add(before + inner, Seq::empty());
        }
    }
}

proof fn lemma_accepted_nested_bare(
    nested: Seq<(usize, Revision)>,
    boundary: nat,
    place: RevisionPlace,
    count: nat,
)
    ensures
        are_bare(
            crate::revision::nested_at(
                nested,
                boundary,
                RevisionView::Accepted,
                place,
                false,
                false,
                count,
            ),
        ),
    decreases nested, 0nat, count,
{
    if count > 0 && count <= nested.len() {
        let view = RevisionView::Accepted;
        lemma_accepted_nested_bare(nested, boundary, place, (count - 1) as nat);
        let before = crate::revision::nested_at(
            nested,
            boundary,
            view,
            place,
            false,
            false,
            (count - 1) as nat,
        );
        if nested[count - 1].0 == boundary {
            lemma_accepted_revision_bare(nested[count - 1].1, place);
            lemma_bare_add(
                before,
                crate::revision::revision_projection(
                    nested[count - 1].1,
                    view,
                    place,
                    false,
                    false,
                ),
            );
        } else {
            lemma_bare_add(before, Seq::empty());
        }
    }
}

proof fn lemma_accepted_revisions_bare(para: Paragraph, boundary: nat, count: nat)
    ensures
        are_bare(crate::revision::revisions_at(para, RevisionView::Accepted, boundary, count)),
    decreases count,
{
    if count > 0 && count <= para.revisions@.len() {
        let view = RevisionView::Accepted;
        lemma_accepted_revisions_bare(para, boundary, (count - 1) as nat);
        let before = crate::revision::revisions_at(para, view, boundary, (count - 1) as nat);
        let placed = para.revisions@[count - 1];
        let place = RevisionPlace {
            boundary: placed.boundary,
            raw_order: crate::revision::slot_order(para, placed.boundary, placed.slot),
            hyperlink_index: crate::revision::slot_hyperlink(placed.slot),
        };
        if placed.boundary == boundary {
            lemma_accepted_revision_bare(placed.revision, place);
            lemma_bare_add(
                before,
                crate::revision::revision_projection(placed.revision, view, place, false, false),
            );
        } else {
            lemma_bare_add(before, Seq::empty());
        }
    }
}

proof fn lemma_accepted_bare(para: Paragraph, count: nat)
    ensures
        are_bare(crate::revision::projection_prefix(para, RevisionView::Accepted, count)),
    decreases count,
{
    if count > 0 {
        let view = RevisionView::Accepted;
        let boundary = (count - 1) as nat;
        lemma_accepted_bare(para, boundary);
        lemma_accepted_revisions_bare(para, boundary, para.revisions@.len());
        let changes = crate::revision::revisions_at(para, view, boundary, para.revisions@.len());
        let own = if boundary < para.runs@.len() {
            seq![crate::revision::ordinary_run(para.runs@[boundary as int], boundary as usize)]
        } else {
            Seq::empty()
        };
        lemma_bare_add(changes, own);
        lemma_bare_add(
            crate::revision::projection_prefix(para, view, boundary),
            changes + own,
        );
    }
}

/// No run is marked where every change is accepted.
pub proof fn law_accepted_runs_carry_no_marks(para: Paragraph)
    ensures
        are_bare(crate::revision::projection(para, RevisionView::Accepted)),
{
    lemma_accepted_bare(para, (para.runs@.len() + 1) as nat);
}

proof fn lemma_run_closes_its_boundary(para: Paragraph, view: RevisionView, count: nat)
    requires
        count <= para.runs@.len() + 1,
    ensures
        forall|j: int, k: int|
            0 <= j < k < crate::revision::projection_prefix(para, view, count).len() && (
            #[trigger] crate::revision::projection_prefix(
                para,
                view,
                count,
            )[j]).ordinary_run_index is Some ==> crate::revision::projection_prefix(
                para,
                view,
                count,
            )[j].boundary < (#[trigger] crate::revision::projection_prefix(
                para,
                view,
                count,
            )[k]).boundary,
    decreases count,
{
    if count > 0 {
        let boundary = (count - 1) as nat;
        lemma_run_closes_its_boundary(para, view, boundary);
        lemma_projection_placed(para, view, boundary);
        lemma_projection_placed(para, view, count);
        lemma_revisions_placed(para, view, boundary, para.revisions@.len());
        assert(para.runs.len() == para.runs@.len());
        let before = crate::revision::projection_prefix(para, view, boundary);
        let changes = crate::revision::revisions_at(para, view, boundary, para.revisions@.len());
        let here = crate::revision::boundary_projection(para, view, boundary);
        let all = crate::revision::projection_prefix(para, view, count);
        assert(all == before + here);
        assert forall|j: int, k: int|
            0 <= j < k < all.len() && (
            #[trigger] all[j]).ordinary_run_index is Some implies all[j].boundary < (
        #[trigger] all[k]).boundary by {
            if k < before.len() {
                assert(all[j] == before[j] && all[k] == before[k]);
            } else {
                assert(all[k] == here[k - before.len()]);
                if k - before.len() < changes.len() {
                    assert(here[k - before.len()] == changes[k - before.len()]);
                }
                if j < before.len() {
                    assert(all[j] == before[j]);
                } else {
                    assert(all[j] == here[j - before.len()]);
                    assert(j - before.len() < changes.len());
                    assert(here[j - before.len()] == changes[j - before.len()]);
                }
            }
        }
    }
}

/// The changes at a run boundary come before the run there: whatever follows an
/// ordinary run stands at a later boundary.
pub proof fn law_changes_come_before_their_run(para: Paragraph, view: RevisionView)
    ensures
        forall|j: int, k: int|
            0 <= j < k < crate::revision::projection(para, view).len() && (
            #[trigger] crate::revision::projection(para, view)[j]).ordinary_run_index is Some
                ==> crate::revision::projection(para, view)[j].boundary < (
            #[trigger] crate::revision::projection(para, view)[k]).boundary,
{
    lemma_run_closes_its_boundary(para, view, (para.runs@.len() + 1) as nat);
}

/// Whether the items of `part` are those of `whole` at some places, which rise
/// from one to the next.
pub open spec fn picks(
    part: Seq<ProjectedRunView>,
    whole: Seq<ProjectedRunView>,
    places: Seq<int>,
) -> bool {
    &&& places.len() == part.len()
    &&& forall|i: int|
        0 <= i < part.len() ==> 0 <= #[trigger] places[i] < whole.len() && part[i]
            == whole[places[i]]
    &&& forall|i: int, j: int| 0 <= i < j < places.len() ==> places[i] < places[j]
}

/// Whether some runs are among others, in the same order.
pub open spec fn is_subsequence(part: Seq<ProjectedRunView>, whole: Seq<ProjectedRunView>) -> bool {
    exists|places: Seq<int>| picks(part, whole, places)
}

/// Shown runs without their marks.
pub open spec fn without_marks(runs: Seq<ProjectedRunView>) -> Seq<ProjectedRunView> {
    runs.map_values(
        |run: ProjectedRunView|
            ProjectedRunView { force_underline: false, force_strike: false, ..run },
    )
}

proof fn lemma_nothing_is_subsequence(whole: Seq<ProjectedRunView>)
    ensures
        is_subsequence(Seq::empty(), whole),
{
    assert(picks(Seq::empty(), whole, Seq::empty()));
}

proof fn lemma_subsequence_add(
    a: Seq<ProjectedRunView>,
    whole_a: Seq<ProjectedRunView>,
    b: Seq<ProjectedRunView>,
    whole_b: Seq<ProjectedRunView>,
)
    requires
        is_subsequence(a, without_marks(whole_a)),
        is_subsequence(b, without_marks(whole_b)),
    ensures
        is_subsequence(a + b, without_marks(whole_a + whole_b)),
{
    let left = choose|places: Seq<int>| picks(a, without_marks(whole_a), places);
    let right = choose|places: Seq<int>| picks(b, without_marks(whole_b), places);
    let shift = whole_a.len() as int;
    let both = left + right.map_values(|place: int| place + shift);
    let all = without_marks(whole_a + whole_b);
    assert(all =~= without_marks(whole_a) + without_marks(whole_b));
    let part = a + b;
    assert forall|i: int| 0 <= i < part.len() implies 0 <= #[trigger] both[i] < all.len()
        && part[i] == all[both[i]] by {
        if i < a.len() {
            assert(both[i] == left[i]);
        } else {
            assert(both[i] == right[i - a.len()] + shift);
            assert(0 <= right[i - a.len()] < whole_b.len());
        }
    }
    assert forall|i: int, j: int| 0 <= i < j < both.len() implies both[i] < both[j] by {
        if j < a.len() {
            assert(both[i] == left[i] && both[j] == left[j]);
        } else if i < a.len() {
            assert(both[i] == left[i] && both[j] == right[j - a.len()] + shift);
            assert(0 <= left[i] < shift);
            assert(0 <= right[j - a.len()]);
        } else {
            assert(both[i] == right[i - a.len()] + shift && both[j] == right[j - a.len()] + shift);
        }
    }
    assert(picks(part, all, both));
}

/// One run, whatever its marks, is among itself.
proof fn lemma_one_run_picked(bare: ProjectedRunView, marked: ProjectedRunView)
    requires
        bare == (ProjectedRunView { force_underline: false, force_strike: false, ..marked }),
    ensures
        is_subsequence(seq![bare], without_marks(seq![marked])),
{
    assert(without_marks(seq![marked])[0] == bare);
    assert(picks(seq![bare], without_marks(seq![marked]), seq![0int]));
}

proof fn lemma_revision_subsequence(
    revision: Revision,
    place: RevisionPlace,
    underline: bool,
    strike: bool,
)
    ensures
        is_subsequence(
            crate::revision::revision_projection(
                revision,
                RevisionView::Accepted,
                place,
                false,
                false,
            ),
            without_marks(
                crate::revision::revision_projection(
                    revision,
                    RevisionView::Markup,
                    place,
                    underline,
                    strike,
                ),
            ),
        ),
    decreases revision, 0nat, 0nat,
{
    let markup = crate::revision::revision_projection(
        revision,
        RevisionView::Markup,
        place,
        underline,
        strike,
    );
    if !crate::revision::adds_text(revision.kind) {
        lemma_nothing_is_subsequence(without_marks(markup));
    } else {
        match crate::revision::enclosed_runs(revision.content) {
            Some(runs) => lemma_prefix_subsequence(
                revision.nested@,
                runs,
                place,
                true,
                strike || crate::revision::removes_text(revision.kind),
                (runs.len() + 1) as nat,
            ),
            None => lemma_nothing_is_subsequence(without_marks(markup)),
        }
    }
}

proof fn lemma_prefix_subsequence(
    nested: Seq<(usize, Revision)>,
    runs: Seq<Run>,
    place: RevisionPlace,
    underline: bool,
    strike: bool,
    count: nat,
)
    ensures
        is_subsequence(
            crate::revision::revision_prefix(
                nested,
                runs,
                RevisionView::Accepted,
                place,
                false,
                false,
                count,
            ),
            without_marks(
                crate::revision::revision_prefix(
                    nested,
                    runs,
                    RevisionView::Markup,
                    place,
                    underline,
                    strike,
                    count,
                ),
            ),
        ),
    decreases nested, 1nat, count,
{
    let accepted = RevisionView::Accepted;
    let markup = RevisionView::Markup;
    if count == 0 {
        lemma_nothing_is_subsequence(without_marks(Seq::empty()));
    } else {
        let boundary = (count - 1) as nat;
        lemma_prefix_subsequence(nested, runs, place, underline, strike, boundary);
        lemma_nested_subsequence(nested, boundary, place, underline, strike, nested.len());
        let a = crate::revision::revision_prefix(
            nested,
            runs,
            accepted,
            place,
            false,
            false,
            boundary,
        );
        let whole_a = crate::revision::revision_prefix(
            nested,
            runs,
            markup,
            place,
            underline,
            strike,
            boundary,
        );
        let b = crate::revision::nested_at(
            nested,
            boundary,
            accepted,
            place,
            false,
            false,
            nested.len(),
        );
        let whole_b = crate::revision::nested_at(
            nested,
            boundary,
            markup,
            place,
            underline,
            strike,
            nested.len(),
        );
        lemma_subsequence_add(a, whole_a, b, whole_b);
        if boundary < runs.len() {
            let bare = crate::revision::revised_run(runs[boundary as int], place, false, false);
            let marked = crate::revision::revised_run(
                runs[boundary as int],
                place,
                underline,
                strike,
            );
            lemma_one_run_picked(bare, marked);
            lemma_subsequence_add(a + b, whole_a + whole_b, seq![bare], seq![marked]);
        } else {
            lemma_nothing_is_subsequence(without_marks(Seq::empty()));
            lemma_subsequence_add(a + b, whole_a + whole_b, Seq::empty(), Seq::empty());
        }
    }
}

proof fn lemma_nested_subsequence(
    nested: Seq<(usize, Revision)>,
    boundary: nat,
    place: RevisionPlace,
    underline: bool,
    strike: bool,
    count: nat,
)
    ensures
        is_subsequence(
            crate::revision::nested_at(
                nested,
                boundary,
                RevisionView::Accepted,
                place,
                false,
                false,
                count,
            ),
            without_marks(
                crate::revision::nested_at(
                    nested,
                    boundary,
                    RevisionView::Markup,
                    place,
                    underline,
                    strike,
                    count,
                ),
            ),
        ),
    decreases nested, 0nat, count,
{
    let accepted = RevisionView::Accepted;
    let markup = RevisionView::Markup;
    if count == 0 || count > nested.len() {
        lemma_nothing_is_subsequence(without_marks(Seq::empty()));
    } else {
        let m = (count - 1) as nat;
        lemma_nested_subsequence(nested, boundary, place, underline, strike, m);
        let a = crate::revision::nested_at(nested, boundary, accepted, place, false, false, m);
        let whole_a = crate::revision::nested_at(
            nested,
            boundary,
            markup,
            place,
            underline,
            strike,
            m,
        );
        if nested[m as int].0 == boundary {
            let inner = nested[m as int].1;
            lemma_revision_subsequence(inner, place, underline, strike);
            lemma_subsequence_add(
                a,
                whole_a,
                crate::revision::revision_projection(inner, accepted, place, false, false),
                crate::revision::revision_projection(inner, markup, place, underline, strike),
            );
        } else {
            lemma_nothing_is_subsequence(without_marks(Seq::empty()));
            lemma_subsequence_add(a, whole_a, Seq::empty(), Seq::empty());
        }
    }
}

proof fn lemma_revisions_subsequence(para: Paragraph, boundary: nat, count: nat)
    ensures
        is_subsequence(
            crate::revision::revisions_at(para, RevisionView::Accepted, boundary, count),
            without_marks(
                crate::revision::revisions_at(para, RevisionView::Markup, boundary, count),
            ),
        ),
    decreases count,
{
    let accepted = RevisionView::Accepted;
    let markup = RevisionView::Markup;
    if count == 0 || count > para.revisions@.len() {
        lemma_nothing_is_subsequence(without_marks(Seq::empty()));
    } else {
        let m = (count - 1) as nat;
        lemma_revisions_subsequence(para, boundary, m);
        let a = crate::revision::revisions_at(para, accepted, boundary, m);
        let whole_a = crate::revision::revisions_at(para, markup, boundary, m);
        let placed = para.revisions@[m as int];
        let place = RevisionPlace {
            boundary: placed.boundary,
            raw_order: crate::revision::slot_order(para, placed.boundary, placed.slot),
            hyperlink_index: crate::revision::slot_hyperlink(placed.slot),
        };
        if placed.boundary == boundary {
            lemma_revision_subsequence(placed.revision, place, false, false);
            lemma_subsequence_add(
                a,
                whole_a,
                crate::revision::revision_projection(
                    placed.revision,
                    accepted,
                    place,
                    false,
                    false,
                ),
                crate::revision::revision_projection(placed.revision, markup, place, false, false),
            );
        } else {
            lemma_nothing_is_subsequence(without_marks(Seq::empty()));
            lemma_subsequence_add(a, whole_a, Seq::empty(), Seq::empty());
        }
    }
}

proof fn lemma_projection_subsequence(para: Paragraph, count: nat)
    ensures
        is_subsequence(
            crate::revision::projection_prefix(para, RevisionView::Accepted, count),
            without_marks(
                crate::revision::projection_prefix(para, RevisionView::Markup, count),
            ),
        ),
    decreases count,
{
    let accepted = RevisionView::Accepted;
    let markup = RevisionView::Markup;
    if count == 0 {
        lemma_nothing_is_subsequence(without_marks(Seq::empty()));
    } else {
        let boundary = (count - 1) as nat;
        lemma_projection_subsequence(para, boundary);
        lemma_revisions_subsequence(para, boundary, para.revisions@.len());
        let a = crate::revision::projection_prefix(para, accepted, boundary);
        let whole_a = crate::revision::projection_prefix(para, markup, boundary);
        let b = crate::revision::revisions_at(para, accepted, boundary, para.revisions@.len());
        let whole_b = crate::revision::revisions_at(
            para,
            markup,
            boundary,
            para.revisions@.len(),
        );
        if boundary < para.runs@.len() {
            let run = crate::revision::ordinary_run(
                para.runs@[boundary as int],
                boundary as usize,
            );
            lemma_one_run_picked(run, run);
            lemma_subsequence_add(b, whole_b, seq![run], seq![run]);
            lemma_subsequence_add(a, whole_a, b + seq![run], whole_b + seq![run]);
        } else {
            lemma_nothing_is_subsequence(without_marks(Seq::empty()));
            lemma_subsequence_add(b, whole_b, Seq::empty(), Seq::empty());
            lemma_subsequence_add(a, whole_a, b + Seq::empty(), whole_b + Seq::empty());
        }
    }
}

/// Whatever the accepted view shows, the markup view shows too, in the same order
/// and at the same place, with or without marks.
pub proof fn law_accepted_runs_are_among_the_markup_runs(para: Paragraph)
    ensures
        is_subsequence(
            crate::revision::projection(para, RevisionView::Accepted),
            without_marks(crate::revision::projection(para, RevisionView::Markup)),
        ),
{
    lemma_projection_subsequence(para, (para.runs@.len() + 1) as nat);
}

} // verus!
