//! What holds of the text of runs and of tracked changes, in terms of what a
//! paragraph holds.

use vstd::prelude::*;

use crate::document::{
    LayoutInput, Paragraph, ParagraphProperties, PlacedRevision, Revision, RevisionContent,
    RevisionKind, RevisionSlot, RevisionView, Run, RunContent, RunProperties,
};
use crate::revision::{ProjectedRunView, RawOrder, RevisionPlace};
use crate::units::Emu;

verus! {

/// Where the part at an index begins in the text that parts make up.
spec fn part_start(parts: Seq<Seq<char>>, k: int) -> int {
    crate::text::concat(parts.take(k)).len() as int
}

/// A part stands in the text that parts make up, right after those before it.
proof fn lemma_part_in_text(parts: Seq<Seq<char>>, k: int)
    requires
        0 <= k < parts.len(),
    ensures
        0 <= part_start(parts, k) <= part_start(parts, k + 1) <= crate::text::concat(parts).len(),
        crate::text::concat(parts).subrange(part_start(parts, k), part_start(parts, k + 1))
            == parts[k],
{
    let text = crate::text::concat(parts);
    crate::text::lemma_concat_push(parts.take(k), parts[k]);
    assert(parts.take(k).push(parts[k]) =~= parts.take(k + 1));
    crate::text::lemma_concat_add(parts.take(k + 1), parts.skip(k + 1));
    assert(parts.take(k + 1) + parts.skip(k + 1) =~= parts);
    assert(text.subrange(part_start(parts, k), part_start(parts, k + 1)) =~= parts[k]);
}

/// Whether a text is what a piece of a run says.
pub open spec fn says(content: RunContent, part: Seq<char>) -> bool {
    match content {
        RunContent::Text(text) => part == text@,
        RunContent::DeletedText(text) => part == text@,
        RunContent::Tab => part.len() == 1 && part[0] == '\t',
        RunContent::Break(_) => part.len() == 1 && part[0] == '\n',
        RunContent::Field(field) => match field.projected_text {
            Some(text) => part == text@,
            None => part.len() == 0,
        },
        _ => part.len() == 0,
    }
}

/// Whether places divide a text into as many parts, one after the other from its
/// start to its end.
pub open spec fn divide(places: Seq<int>, text: Seq<char>, count: nat) -> bool {
    &&& places.len() == count + 1
    &&& places[0] == 0
    &&& places[count as int] == text.len()
    &&& forall|k: int|
        0 <= k < count ==> 0 <= #[trigger] places[k] <= places[k + 1] <= text.len()
}

proof fn lemma_divide(parts: Seq<Seq<char>>) -> (places: Seq<int>)
    ensures
        divide(places, crate::text::concat(parts), parts.len()),
        forall|k: int|
            0 <= k < parts.len() ==> crate::text::concat(parts).subrange(
                places[k],
                places[k + 1],
            ) == #[trigger] parts[k],
{
    let text = crate::text::concat(parts);
    let places = Seq::new((parts.len() + 1) as nat, |k: int| part_start(parts, k));
    assert(parts.take(0) =~= Seq::empty());
    assert(parts.take(parts.len() as int) =~= parts);
    assert forall|k: int| 0 <= k < parts.len() implies 0 <= #[trigger] places[k] <= places[k + 1]
        <= text.len() by {
        lemma_part_in_text(parts, k);
    }
    assert forall|k: int| 0 <= k < parts.len() implies text.subrange(places[k], places[k + 1])
        == #[trigger] parts[k] by {
        lemma_part_in_text(parts, k);
    }
    places
}

/// The text of a run is what its pieces say, one after the other: their texts, a
/// tab for a tab, and a new line for a break.
pub proof fn law_a_run_says_what_its_pieces_say(run: Run) -> (places: Seq<int>)
    ensures
        divide(places, crate::revision::run_text(run), run.content@.len()),
        forall|k: int|
            0 <= k < run.content@.len() ==> says(
                #[trigger] run.content@[k],
                crate::revision::run_text(run).subrange(places[k], places[k + 1]),
            ),
{
    let parts = Seq::new(
        run.content@.len(),
        |i: int| crate::revision::content_text(run.content@[i]),
    );
    let places = lemma_divide(parts);
    let text = crate::revision::run_text(run);
    assert forall|k: int| 0 <= k < run.content@.len() implies says(
        #[trigger] run.content@[k],
        text.subrange(places[k], places[k + 1]),
    ) by {
        assert(parts[k] == text.subrange(places[k], places[k + 1]));
    }
    places
}

/// The text of a paragraph in a view is that of the runs that the view shows, one
/// after the other.
pub proof fn law_a_paragraph_says_what_its_runs_say(
    para: Paragraph,
    view: RevisionView,
) -> (places: Seq<int>)
    ensures
        ({
            let runs = crate::revision::projection(para, view);
            let text = crate::revision::projected_text(runs);
            &&& divide(places, text, runs.len())
            &&& forall|k: int|
                0 <= k < runs.len() ==> text.subrange(places[k], places[k + 1])
                    == crate::revision::run_text((#[trigger] runs[k]).run)
        }),
{
    let runs = crate::revision::projection(para, view);
    let text = crate::revision::projected_text(runs);
    let parts = Seq::new(runs.len(), |i: int| crate::revision::run_text(runs[i].run));
    let places = lemma_divide(parts);
    assert forall|k: int| 0 <= k < runs.len() implies text.subrange(places[k], places[k + 1])
        == crate::revision::run_text((#[trigger] runs[k]).run) by {
        assert(parts[k] == text.subrange(places[k], places[k + 1]));
    }
    places
}

/// Whether a change of this kind brings text in.
pub open spec fn brings(kind: RevisionKind) -> bool {
    kind is Insertion || kind is MoveTo
}

/// Whether a change of this kind takes text out.
pub open spec fn takes(kind: RevisionKind) -> bool {
    kind is Deletion || kind is MoveFrom
}

/// Whether a view shows a run of a change at a place, with these marks.
pub open spec fn shows_changed(
    shown: ProjectedRunView,
    run: Run,
    para: Paragraph,
    placed: PlacedRevision,
    underline: bool,
    strike: bool,
) -> bool {
    &&& shown.run == run
    &&& shown.boundary == placed.boundary
    &&& shown.ordinary_run_index is None
    &&& shown.force_underline == underline
    &&& shown.force_strike == strike
    &&& match placed.slot {
        RevisionSlot::Raw(count) => shown.hyperlink_index is None && shown.raw_order
            == RawOrder::Raw(count),
        RevisionSlot::Hyperlink(index) => shown.hyperlink_index == Some(index) && (index
            < para.hyperlinks@.len() && para.hyperlinks@[index as int].preserved_raw_before is Some
            ==> shown.raw_order == RawOrder::Raw(
            para.hyperlinks@[index as int].preserved_raw_before->Some_0,
        )) && (index < para.hyperlinks@.len()
            && para.hyperlinks@[index as int].preserved_raw_before is None
            && para.hyperlinks@[index as int].run_end == placed.boundary ==> shown.raw_order
            == RawOrder::BeforeRaw) && (index < para.hyperlinks@.len()
            && para.hyperlinks@[index as int].preserved_raw_before is None
            && para.hyperlinks@[index as int].run_end != placed.boundary ==> shown.raw_order
            == RawOrder::AfterRaw),
    }
}

proof fn lemma_in_sum(a: Seq<ProjectedRunView>, b: Seq<ProjectedRunView>, x: ProjectedRunView)
    requires
        a.contains(x) || b.contains(x),
    ensures
        (a + b).contains(x),
{
    if a.contains(x) {
        let i = choose|i: int| 0 <= i < a.len() && a[i] == x;
        assert((a + b)[i] == x);
    } else {
        let i = choose|i: int| 0 <= i < b.len() && b[i] == x;
        assert((a + b)[a.len() + i] == x);
    }
}

/// The runs of a change, and what its nested changes show, are in what it shows.
proof fn lemma_in_change(
    nested: Seq<(usize, Revision)>,
    runs: Seq<Run>,
    view: RevisionView,
    place: RevisionPlace,
    underline: bool,
    strike: bool,
    at: nat,
    count: nat,
    x: ProjectedRunView,
)
    requires
        at < count,
        (at < runs.len() && x == crate::revision::revised_run(
            runs[at as int],
            place,
            underline,
            strike,
        )) || crate::revision::nested_at(
            nested,
            at,
            view,
            place,
            underline,
            strike,
            nested.len(),
        ).contains(x),
    ensures
        crate::revision::revision_prefix(
            nested,
            runs,
            view,
            place,
            underline,
            strike,
            count,
        ).contains(x),
    decreases count,
{
    let last = (count - 1) as nat;
    let before = crate::revision::revision_prefix(
        nested,
        runs,
        view,
        place,
        underline,
        strike,
        last,
    );
    let inner = crate::revision::nested_at(
        nested,
        last,
        view,
        place,
        underline,
        strike,
        nested.len(),
    );
    let own = if last < runs.len() {
        seq![crate::revision::revised_run(runs[last as int], place, underline, strike)]
    } else {
        Seq::empty()
    };
    if at < last {
        lemma_in_change(nested, runs, view, place, underline, strike, at, last, x);
        lemma_in_sum(before, inner, x);
    } else if inner.contains(x) {
        lemma_in_sum(before, inner, x);
    } else {
        assert(own[0] == x);
        assert(own.contains(x));
    }
    lemma_in_sum(before + inner, own, x);
}

proof fn lemma_in_nested(
    nested: Seq<(usize, Revision)>,
    at: nat,
    view: RevisionView,
    place: RevisionPlace,
    underline: bool,
    strike: bool,
    m: int,
    count: nat,
    x: ProjectedRunView,
)
    requires
        0 <= m < count <= nested.len(),
        nested[m].0 == at,
        crate::revision::revision_projection(
            nested[m].1,
            view,
            place,
            underline,
            strike,
        ).contains(x),
    ensures
        crate::revision::nested_at(
            nested,
            at,
            view,
            place,
            underline,
            strike,
            count,
        ).contains(x),
    decreases count,
{
    let last = count - 1;
    let before = crate::revision::nested_at(
        nested,
        at,
        view,
        place,
        underline,
        strike,
        last as nat,
    );
    let here = if nested[last].0 == at {
        crate::revision::revision_projection(nested[last].1, view, place, underline, strike)
    } else {
        Seq::empty()
    };
    if m < last {
        lemma_in_nested(nested, at, view, place, underline, strike, m, last as nat, x);
    }
    lemma_in_sum(before, here, x);
}

/// Where a change of a paragraph stands.
spec fn place_of(para: Paragraph, placed: PlacedRevision) -> RevisionPlace {
    RevisionPlace {
        boundary: placed.boundary,
        raw_order: crate::revision::slot_order(para, placed.boundary, placed.slot),
        hyperlink_index: crate::revision::slot_hyperlink(placed.slot),
    }
}

proof fn lemma_in_revisions(
    para: Paragraph,
    view: RevisionView,
    j: int,
    count: nat,
    x: ProjectedRunView,
)
    requires
        0 <= j < count <= para.revisions@.len(),
        crate::revision::revision_projection(
            para.revisions@[j].revision,
            view,
            place_of(para, para.revisions@[j]),
            false,
            false,
        ).contains(x),
    ensures
        crate::revision::revisions_at(
            para,
            view,
            para.revisions@[j].boundary as nat,
            count,
        ).contains(x),
    decreases count,
{
    let at = para.revisions@[j].boundary as nat;
    let last = para.revisions@[count - 1];
    let before = crate::revision::revisions_at(para, view, at, (count - 1) as nat);
    let here = if last.boundary == at {
        crate::revision::revision_projection(
            last.revision,
            view,
            place_of(para, last),
            false,
            false,
        )
    } else {
        Seq::empty()
    };
    if j < count - 1 {
        lemma_in_revisions(para, view, j, (count - 1) as nat, x);
    }
    lemma_in_sum(before, here, x);
    assert(crate::revision::revisions_at(para, view, at, count) =~= before + here);
}

proof fn lemma_in_projection(
    para: Paragraph,
    view: RevisionView,
    at: nat,
    count: nat,
    x: ProjectedRunView,
)
    requires
        at < count,
        crate::revision::revisions_at(para, view, at, para.revisions@.len()).contains(x),
    ensures
        crate::revision::projection_prefix(para, view, count).contains(x),
    decreases count,
{
    let last = (count - 1) as nat;
    let before = crate::revision::projection_prefix(para, view, last);
    let changes = crate::revision::revisions_at(para, view, last, para.revisions@.len());
    let here = crate::revision::boundary_projection(para, view, last);
    if at < last {
        lemma_in_projection(para, view, at, last, x);
    } else {
        let own = if last < para.runs@.len() {
            seq![crate::revision::ordinary_run(para.runs@[last as int], last as usize)]
        } else {
            Seq::empty()
        };
        lemma_in_sum(changes, own, x);
    }
    lemma_in_sum(before, here, x);
}

/// Whether any of the runs that a view shows is a given run of a change, with these
/// marks.
pub open spec fn any_shows_changed(
    shown: Seq<ProjectedRunView>,
    run: Run,
    para: Paragraph,
    placed: PlacedRevision,
    underline: bool,
    strike: bool,
) -> bool {
    exists|k: int|
        0 <= k < shown.len() && shows_changed(
            #[trigger] shown[k],
            run,
            para,
            placed,
            underline,
            strike,
        )
}

/// Every run inside a tracked change: where changes are shown, it is underlined if
/// the change brings it in and struck out if the change takes it out; where
/// changes are accepted, it is shown without marks if the change brings it in.
pub proof fn law_changed_runs_are_shown_as_changed(
    para: Paragraph,
    view: RevisionView,
    j: int,
    runs: Vec<Run>,
    i: int,
)
    requires
        0 <= j < para.revisions@.len(),
        para.revisions@[j].boundary <= para.runs@.len(),
        para.revisions@[j].revision.content == RevisionContent::Runs(runs),
        0 <= i < runs@.len(),
    ensures
        ({
            let placed = para.revisions@[j];
            let kind = placed.revision.kind;
            let shown = crate::revision::projection(para, view);
            &&& view is Markup && brings(kind) ==> any_shows_changed(
                shown,
                runs@[i],
                para,
                placed,
                true,
                false,
            )
            &&& view is Markup && takes(kind) ==> any_shows_changed(
                shown,
                runs@[i],
                para,
                placed,
                false,
                true,
            )
            &&& view is Markup && !brings(kind) && !takes(kind) ==> any_shows_changed(
                shown,
                runs@[i],
                para,
                placed,
                false,
                false,
            )
            &&& view is Accepted && brings(kind) ==> any_shows_changed(
                shown,
                runs@[i],
                para,
                placed,
                false,
                false,
            )
        }),
{
    let placed = para.revisions@[j];
    let kind = placed.revision.kind;
    let place = place_of(para, placed);
    let shown = crate::revision::projection(para, view);
    let underline = view is Markup && brings(kind);
    let strike = view is Markup && takes(kind);
    let x = crate::revision::revised_run(runs@[i], place, underline, strike);
    if view is Markup || brings(kind) {
        lemma_in_change(
            placed.revision.nested@,
            runs@,
            view,
            place,
            underline,
            strike,
            i as nat,
            (runs@.len() + 1) as nat,
            x,
        );
        lemma_in_revisions(para, view, j, para.revisions@.len(), x);
        lemma_in_projection(
            para,
            view,
            placed.boundary as nat,
            (para.runs@.len() + 1) as nat,
            x,
        );
        let k = choose|k: int| 0 <= k < shown.len() && shown[k] == x;
        assert(shows_changed(shown[k], runs@[i], para, placed, underline, strike));
    }
}

/// The marks of changes add up: where changes are shown, a run that one change
/// brings in and a change inside it takes out again is underlined and struck out,
/// and so on for every pair of changes; where changes are accepted, it is shown
/// only if both bring it in.
pub proof fn law_marks_of_nested_changes_add_up(
    para: Paragraph,
    view: RevisionView,
    j: int,
    runs: Vec<Run>,
    m: int,
    inner: Vec<Run>,
    i: int,
)
    requires
        0 <= j < para.revisions@.len(),
        para.revisions@[j].boundary <= para.runs@.len(),
        para.revisions@[j].revision.content == RevisionContent::Runs(runs),
        0 <= m < para.revisions@[j].revision.nested@.len(),
        para.revisions@[j].revision.nested@[m].0 <= runs@.len(),
        para.revisions@[j].revision.nested@[m].1.content == RevisionContent::Runs(inner),
        0 <= i < inner@.len(),
    ensures
        ({
            let placed = para.revisions@[j];
            let outside = placed.revision.kind;
            let inside = placed.revision.nested@[m].1.kind;
            let shown = crate::revision::projection(para, view);
            &&& view is Markup ==> any_shows_changed(
                shown,
                inner@[i],
                para,
                placed,
                brings(outside) || brings(inside),
                takes(outside) || takes(inside),
            )
            &&& view is Accepted && brings(outside) && brings(inside) ==> any_shows_changed(
                shown,
                inner@[i],
                para,
                placed,
                false,
                false,
            )
        }),
{
    let placed = para.revisions@[j];
    let nested = placed.revision.nested@;
    let outside = placed.revision.kind;
    let change = nested[m].1;
    let place = place_of(para, placed);
    let shown = crate::revision::projection(para, view);
    let underline = view is Markup && brings(outside);
    let strike = view is Markup && takes(outside);
    let both_underline = underline || (view is Markup && brings(change.kind));
    let both_strike = strike || (view is Markup && takes(change.kind));
    let x = crate::revision::revised_run(inner@[i], place, both_underline, both_strike);
    if view is Markup || (brings(outside) && brings(change.kind)) {
        lemma_in_change(
            change.nested@,
            inner@,
            view,
            place,
            both_underline,
            both_strike,
            i as nat,
            (inner@.len() + 1) as nat,
            x,
        );
        lemma_in_nested(
            nested,
            nested[m].0 as nat,
            view,
            place,
            underline,
            strike,
            m,
            nested.len(),
            x,
        );
        lemma_in_change(
            nested,
            runs@,
            view,
            place,
            underline,
            strike,
            nested[m].0 as nat,
            (runs@.len() + 1) as nat,
            x,
        );
        lemma_in_revisions(para, view, j, para.revisions@.len(), x);
        lemma_in_projection(
            para,
            view,
            placed.boundary as nat,
            (para.runs@.len() + 1) as nat,
            x,
        );
        let k = choose|k: int| 0 <= k < shown.len() && shown[k] == x;
        assert(shows_changed(shown[k], inner@[i], para, placed, both_underline, both_strike));
    }
}

/// What a change without nested changes shows: its runs, in their order.
proof fn lemma_flat_change(
    runs: Seq<Run>,
    view: RevisionView,
    place: RevisionPlace,
    underline: bool,
    strike: bool,
    count: nat,
)
    requires
        count <= runs.len() + 1,
    ensures
        ({
            let shown = crate::revision::revision_prefix(
                Seq::empty(),
                runs,
                view,
                place,
                underline,
                strike,
                count,
            );
            let n = if count <= runs.len() {
                count
            } else {
                runs.len()
            };
            &&& shown.len() == n
            &&& forall|i: int|
                0 <= i < n ==> #[trigger] shown[i] == crate::revision::revised_run(
                    runs[i],
                    place,
                    underline,
                    strike,
                )
        }),
    decreases count,
{
    if count > 0 {
        lemma_flat_change(runs, view, place, underline, strike, (count - 1) as nat);
        let nested = Seq::<(usize, Revision)>::empty();
        let last = (count - 1) as nat;
        assert(crate::revision::nested_at(
            nested,
            last,
            view,
            place,
            underline,
            strike,
            nested.len(),
        ) =~= Seq::empty());
    }
}

/// Whether a paragraph has one tracked change, of some runs and with no change
/// inside, before the run at an index.
pub open spec fn has_one_change(para: Paragraph, at: int, runs: Vec<Run>) -> bool {
    &&& para.revisions@.len() == 1
    &&& para.revisions@[0].boundary == at
    &&& at <= para.runs@.len()
    &&& para.revisions@[0].revision.content == RevisionContent::Runs(runs)
    &&& para.revisions@[0].revision.nested@.len() == 0
}

proof fn lemma_one_change(
    para: Paragraph,
    view: RevisionView,
    at: int,
    runs: Vec<Run>,
    count: nat,
)
    requires
        has_one_change(para, at, runs),
        count <= para.runs@.len() + 1,
    ensures
        ({
            let change = crate::revision::revision_projection(
                para.revisions@[0].revision,
                view,
                place_of(para, para.revisions@[0]),
                false,
                false,
            );
            let shown = crate::revision::projection_prefix(para, view, count);
            let n = if count <= para.runs@.len() {
                count as int
            } else {
                para.runs@.len() as int
            };
            let m = change.len() as int;
            &&& count <= at ==> shown.len() == n && forall|i: int|
                0 <= i < n ==> #[trigger] shown[i] == crate::revision::ordinary_run(
                    para.runs@[i],
                    i as usize,
                )
            &&& count > at ==> shown.len() == n + m && (forall|i: int|
                0 <= i < at ==> #[trigger] shown[i] == crate::revision::ordinary_run(
                    para.runs@[i],
                    i as usize,
                )) && (forall|i: int|
                at <= i < at + m ==> #[trigger] shown[i] == change[i - at]) && forall|i: int|
                at + m <= i < n + m ==> #[trigger] shown[i] == crate::revision::ordinary_run(
                    para.runs@[i - m],
                    (i - m) as usize,
                )
        }),
    decreases count,
{
    if count > 0 {
        let last = (count - 1) as nat;
        lemma_one_change(para, view, at, runs, last);
        reveal_with_fuel(crate::revision::revisions_at, 2);
        let change = crate::revision::revision_projection(
            para.revisions@[0].revision,
            view,
            place_of(para, para.revisions@[0]),
            false,
            false,
        );
        let here = crate::revision::revisions_at(para, view, last, 1);
        if last == at {
            assert(here =~= change);
        } else {
            assert(here =~= Seq::empty());
        }
    }
}

/// A single change stands right before the run at its place: a view shows the runs
/// before that place, then the runs of the change in their order, unless the change
/// takes them out and is accepted, and then the runs from that place on.
pub proof fn law_one_change_stands_among_the_runs(
    para: Paragraph,
    view: RevisionView,
    at: int,
    runs: Vec<Run>,
)
    requires
        has_one_change(para, at, runs),
    ensures
        ({
            let kind = para.revisions@[0].revision.kind;
            let shown = crate::revision::projection(para, view);
            let m = if view is Markup || brings(kind) {
                runs@.len() as int
            } else {
                0
            };
            let n = para.runs@.len() as int;
            &&& shown.len() == n + m
            &&& forall|i: int|
                0 <= i < at ==> (#[trigger] shown[i]).run == para.runs@[i]
                    && shown[i].ordinary_run_index == Some(i as usize)
            &&& forall|i: int|
                at <= i < at + m ==> (#[trigger] shown[i]).run == runs@[i - at]
                    && shown[i].ordinary_run_index is None
            &&& forall|i: int|
                at + m <= i < n + m ==> (#[trigger] shown[i]).run == para.runs@[i - m]
                    && shown[i].ordinary_run_index == Some((i - m) as usize)
        }),
{
    let placed = para.revisions@[0];
    let kind = placed.revision.kind;
    let place = place_of(para, placed);
    lemma_one_change(para, view, at, runs, (para.runs@.len() + 1) as nat);
    if view is Markup || brings(kind) {
        assert(placed.revision.nested@ =~= Seq::empty());
        lemma_flat_change(
            runs@,
            view,
            place,
            view is Markup && brings(kind),
            view is Markup && takes(kind),
            (runs@.len() + 1) as nat,
        );
    }
}

proof fn lemma_revisions_prefix(
    para: Paragraph,
    view: RevisionView,
    at: nat,
    from: nat,
    to: nat,
)
    requires
        from <= to <= para.revisions@.len(),
    ensures
        ({
            let early = crate::revision::revisions_at(para, view, at, from);
            let late = crate::revision::revisions_at(para, view, at, to);
            &&& early.len() <= late.len()
            &&& late.take(early.len() as int) == early
        }),
    decreases to,
{
    let early = crate::revision::revisions_at(para, view, at, from);
    let late = crate::revision::revisions_at(para, view, at, to);
    if from == to {
        assert(late.take(early.len() as int) =~= early);
    } else {
        let middle = crate::revision::revisions_at(para, view, at, (to - 1) as nat);
        lemma_revisions_prefix(para, view, at, from, (to - 1) as nat);
        assert(late.take(middle.len() as int) =~= middle);
        assert(late.take(early.len() as int) =~= middle.take(early.len() as int));
    }
}

/// Changes at one place are shown in their order: what the first of two changes
/// before the same run shows comes before what the second one shows.
pub proof fn law_changes_at_one_place_keep_their_order(
    para: Paragraph,
    view: RevisionView,
    j: int,
    l: int,
) -> (places: (int, int))
    requires
        0 <= j < l < para.revisions@.len(),
        para.revisions@[j].boundary == para.revisions@[l].boundary,
    ensures
        ({
            let at = para.revisions@[j].boundary as nat;
            let shown = crate::revision::revisions_at(para, view, at, para.revisions@.len());
            let first = crate::revision::revision_projection(
                para.revisions@[j].revision,
                view,
                RevisionPlace {
                    boundary: para.revisions@[j].boundary,
                    raw_order: crate::revision::slot_order(
                        para,
                        para.revisions@[j].boundary,
                        para.revisions@[j].slot,
                    ),
                    hyperlink_index: crate::revision::slot_hyperlink(para.revisions@[j].slot),
                },
                false,
                false,
            );
            let second = crate::revision::revision_projection(
                para.revisions@[l].revision,
                view,
                RevisionPlace {
                    boundary: para.revisions@[l].boundary,
                    raw_order: crate::revision::slot_order(
                        para,
                        para.revisions@[l].boundary,
                        para.revisions@[l].slot,
                    ),
                    hyperlink_index: crate::revision::slot_hyperlink(para.revisions@[l].slot),
                },
                false,
                false,
            );
            &&& 0 <= places.0
            &&& places.0 + first.len() <= places.1
            &&& places.1 + second.len() <= shown.len()
            &&& shown.subrange(places.0, places.0 + first.len()) == first
            &&& shown.subrange(places.1, places.1 + second.len()) == second
        }),
{
    let at = para.revisions@[j].boundary as nat;
    let count = para.revisions@.len();
    let shown = crate::revision::revisions_at(para, view, at, count);
    let a = crate::revision::revisions_at(para, view, at, j as nat);
    let b = crate::revision::revisions_at(para, view, at, (j + 1) as nat);
    let c = crate::revision::revisions_at(para, view, at, l as nat);
    let d = crate::revision::revisions_at(para, view, at, (l + 1) as nat);
    lemma_revisions_prefix(para, view, at, (j + 1) as nat, l as nat);
    lemma_revisions_prefix(para, view, at, (j + 1) as nat, count);
    lemma_revisions_prefix(para, view, at, (l + 1) as nat, count);
    let first = crate::revision::revision_projection(
        para.revisions@[j].revision,
        view,
        place_of(para, para.revisions@[j]),
        false,
        false,
    );
    let second = crate::revision::revision_projection(
        para.revisions@[l].revision,
        view,
        place_of(para, para.revisions@[l]),
        false,
        false,
    );
    assert(b == a + first);
    assert(d == c + second);
    let from = a.len() as int;
    let to = c.len() as int;
    assert forall|i: int| 0 <= i < first.len() implies shown[from + i] == #[trigger] first[i] by {
        assert(shown.take(b.len() as int)[from + i] == b[from + i]);
    }
    assert forall|i: int| 0 <= i < second.len() implies shown[to + i] == #[trigger] second[i] by {
        assert(shown.take(d.len() as int)[to + i] == d[to + i]);
    }
    assert(shown.subrange(from, from + first.len()) =~= first);
    assert(shown.subrange(to, to + second.len()) =~= second);
    (from, to)
}

/// Whether a change is recorded with run properties.
pub open spec fn records_change(properties: RunProperties) -> bool {
    properties.changed || properties.revision_markers >= 1
}

/// Whether a change is recorded with paragraph properties, with those of the
/// section that the paragraph ends, or with those of its mark.
pub open spec fn paragraph_records_change(properties: ParagraphProperties) -> bool {
    ||| properties.numbering_revision
    ||| properties.changed
    ||| properties.sect_pr is Some && properties.sect_pr->Some_0.changed
    ||| properties.rpr is Some && records_change(properties.rpr->Some_0)
}

/// Whether a piece of a run leaves something on the page.
pub open spec fn leaves_something(content: RunContent) -> bool {
    match content {
        RunContent::Text(text) => text@.len() >= 1,
        RunContent::DeletedText(text) => text@.len() >= 1,
        RunContent::CommentReference { .. } => false,
        _ => true,
    }
}

/// Whether some piece of a run leaves something on the page.
pub open spec fn run_leaves_something(run: Run) -> bool {
    exists|c: int|
        0 <= c < run.content@.len() && leaves_something(#[trigger] run.content@[c])
}

proof fn lemma_run_leaves(run: Run)
    ensures
        run_leaves_something(run) == crate::revision::run_shows(run),
{
    if run_leaves_something(run) {
        let c = choose|c: int|
            0 <= c < run.content@.len() && leaves_something(#[trigger] run.content@[c]);
        assert(crate::revision::content_shows(run.content@[c]));
    }
    if crate::revision::run_shows(run) {
        let c = choose|c: int|
            0 <= c < run.content@.len() && crate::revision::content_shows(
                #[trigger] run.content@[c],
            );
        assert(leaves_something(run.content@[c]));
    }
}

/// A paragraph is marked as changed where changes are shown and one is recorded
/// with its properties, with the properties of a run, or as a change of its text
/// that leaves something on the page, or as one of prior properties.
pub proof fn law_recorded_changes_are_marked(
    input: LayoutInput,
    paragraph: Paragraph,
    width: Emu,
    i: int,
    j: int,
    runs: Vec<Run>,
)
    requires
        input.revision_view is Markup,
    ensures
        ({
            let marked = crate::paragraph::laid_out(
                input,
                paragraph,
                width,
            ).0.format.has_visible_revision;
            let here = 0 <= j < paragraph.revisions@.len();
            let revision = paragraph.revisions@[j].revision;
            &&& paragraph.properties is Some && paragraph_records_change(
                paragraph.properties->Some_0,
            ) ==> marked
            &&& 0 <= i < paragraph.runs@.len() && paragraph.runs@[i].properties is Some
                && records_change(paragraph.runs@[i].properties->Some_0) ==> marked
            &&& here && revision.content == RevisionContent::Runs(runs) && 0 <= i < runs@.len()
                && run_leaves_something(runs@[i]) ==> marked
            &&& here && !(revision.content is Runs) && !(revision.content is Marker) ==> marked
        }),
{
    if 0 <= i < paragraph.runs@.len() && paragraph.runs@[i].properties is Some && records_change(
        paragraph.runs@[i].properties->Some_0,
    ) {
        assert(crate::revision::properties_revised(paragraph.runs@[i].properties->Some_0));
        assert(crate::revision::paragraph_revised(paragraph));
    }
    if 0 <= j < paragraph.revisions@.len() {
        let revision = paragraph.revisions@[j].revision;
        if revision.content == RevisionContent::Runs(runs) && 0 <= i < runs@.len()
            && run_leaves_something(runs@[i]) {
            lemma_run_leaves(runs@[i]);
            let enclosed = crate::revision::enclosed_runs(revision.content)->Some_0;
            assert(crate::revision::run_shows(enclosed[i]));
            assert(crate::revision::revision_shows(revision));
            assert(crate::revision::revision_shows(paragraph.revisions@[j].revision));
        }
        if !(revision.content is Runs) && !(revision.content is Marker) {
            assert(crate::revision::revision_shows(paragraph.revisions@[j].revision));
        }
    }
}

/// Whether a change of text leaves nothing on the page.
pub open spec fn leaves_nothing(revision: Revision) -> bool {
    &&& revision.nested@.len() == 0
    &&& match revision.content {
        RevisionContent::Runs(runs) => forall|i: int|
            0 <= i < runs@.len() ==> !run_leaves_something(#[trigger] runs@[i]),
        RevisionContent::Marker => true,
        _ => false,
    }
}

/// A paragraph is not marked where no change is recorded: neither with its
/// properties nor with those of its runs, and no change of its text leaves
/// anything on the page.
pub proof fn law_unchanged_paragraphs_are_not_marked(
    input: LayoutInput,
    paragraph: Paragraph,
    width: Emu,
)
    requires
        paragraph.properties is Some ==> !paragraph_records_change(paragraph.properties->Some_0),
        forall|i: int|
            0 <= i < paragraph.runs@.len() && (#[trigger] paragraph.runs@[i]).properties is Some
                ==> !records_change(paragraph.runs@[i].properties->Some_0),
        forall|j: int|
            0 <= j < paragraph.revisions@.len() ==> leaves_nothing(
                (#[trigger] paragraph.revisions@[j]).revision,
            ),
    ensures
        !crate::paragraph::laid_out(input, paragraph, width).0.format.has_visible_revision,
{
    if crate::revision::paragraph_revised(paragraph) {
        if exists|j: int|
            0 <= j < paragraph.revisions@.len() && crate::revision::revision_shows(
                (#[trigger] paragraph.revisions@[j]).revision,
            ) {
            let j = choose|j: int|
                0 <= j < paragraph.revisions@.len() && crate::revision::revision_shows(
                    (#[trigger] paragraph.revisions@[j]).revision,
                );
            let revision = paragraph.revisions@[j].revision;
            assert(leaves_nothing(revision));
            if let RevisionContent::Runs(runs) = revision.content {
                let i = choose|i: int|
                    0 <= i < runs@.len() && crate::revision::run_shows(#[trigger] runs@[i]);
                lemma_run_leaves(runs@[i]);
                assert(!run_leaves_something(runs@[i]));
            }
        } else {
            let i = choose|i: int|
                0 <= i < paragraph.runs@.len() && ((
                #[trigger] paragraph.runs@[i]).properties matches Some(properties)
                    && crate::revision::properties_revised(properties));
            assert(!records_change(paragraph.runs@[i].properties->Some_0));
        }
    }
}

} // verus!
