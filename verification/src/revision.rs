//! The runs of a paragraph with tracked changes, as a revision view shows them.

use vstd::prelude::*;
use vstd::string::StringExecFns;

use crate::document::{
    Paragraph, ParagraphProperties, Revision, RevisionContent, RevisionKind, RevisionSlot,
    RevisionView, Run, RunContent, RunProperties,
};

verus! {

/// A place among the unmodeled elements at a run boundary.
#[derive(Debug, Clone, Copy, PartialEq, Eq, Structural)]
pub enum RawOrder {
    BeforeRaw,
    Raw(usize),
    AfterRaw,
}

impl RawOrder {
    /// Whether this place comes strictly before another.
    pub open spec fn precedes(self, other: RawOrder) -> bool {
        match (self, other) {
            (RawOrder::BeforeRaw, RawOrder::BeforeRaw) => false,
            (RawOrder::BeforeRaw, _) => true,
            (RawOrder::Raw(a), RawOrder::Raw(b)) => a < b,
            (RawOrder::Raw(_), RawOrder::AfterRaw) => true,
            (_, _) => false,
        }
    }

    /// Tests whether this place comes strictly before another.
    pub fn comes_before(self, other: RawOrder) -> (earlier: bool)
        ensures
            earlier == self.precedes(other),
    {
        match (self, other) {
            (RawOrder::BeforeRaw, RawOrder::BeforeRaw) => false,
            (RawOrder::BeforeRaw, _) => true,
            (RawOrder::Raw(a), RawOrder::Raw(b)) => a < b,
            (RawOrder::Raw(_), RawOrder::AfterRaw) => true,
            (_, _) => false,
        }
    }
}

/// A run that a revision view shows, with its place and its change marks.
#[derive(Debug, Clone, Copy)]
pub struct ProjectedRun<'a> {
    pub run: &'a Run,
    /// The run boundary of the paragraph that the run stands at.
    pub boundary: usize,
    pub raw_order: RawOrder,
    /// The index of the run, unless a tracked change encloses it.
    pub ordinary_run_index: Option<usize>,
    /// The hyperlink that holds the enclosing change, if one does.
    pub hyperlink_index: Option<usize>,
    pub force_underline: bool,
    pub force_strike: bool,
}

/// What a [`ProjectedRun`] stands for.
pub struct ProjectedRunView {
    pub run: Run,
    pub boundary: usize,
    pub raw_order: RawOrder,
    pub ordinary_run_index: Option<usize>,
    pub hyperlink_index: Option<usize>,
    pub force_underline: bool,
    pub force_strike: bool,
}

impl<'a> View for ProjectedRun<'a> {
    type V = ProjectedRunView;

    open spec fn view(&self) -> ProjectedRunView {
        ProjectedRunView {
            run: *self.run,
            boundary: self.boundary,
            raw_order: self.raw_order,
            ordinary_run_index: self.ordinary_run_index,
            hyperlink_index: self.hyperlink_index,
            force_underline: self.force_underline,
            force_strike: self.force_strike,
        }
    }
}

/// What a list of projected runs stands for.
pub open spec fn projected_views(runs: Seq<ProjectedRun<'_>>) -> Seq<ProjectedRunView> {
    Seq::new(runs.len(), |i: int| runs[i]@)
}

/// Where the runs of one tracked change stand in their paragraph.
pub struct RevisionPlace {
    pub boundary: usize,
    pub raw_order: RawOrder,
    pub hyperlink_index: Option<usize>,
}

/// Whether a change of this kind adds text.
pub open spec fn adds_text(kind: RevisionKind) -> bool {
    kind is Insertion || kind is MoveTo
}

/// Whether a change of this kind takes text away.
pub open spec fn removes_text(kind: RevisionKind) -> bool {
    kind is Deletion || kind is MoveFrom
}

/// The runs that a change encloses directly, or `None` if it records prior
/// properties.
pub open spec fn enclosed_runs(content: RevisionContent) -> Option<Seq<Run>> {
    match content {
        RevisionContent::Runs(runs) => Some(runs@),
        RevisionContent::Marker => Some(Seq::empty()),
        _ => None,
    }
}

/// The runs that a tracked change contributes to a view.
///
/// The accepted view shows what was added and hides the rest. The markup view
/// shows everything; text inside an addition is underlined and text inside a
/// removal is struck out, however deep it is nested.
pub open spec fn revision_projection(
    revision: Revision,
    view: RevisionView,
    place: RevisionPlace,
    underline: bool,
    strike: bool,
) -> Seq<ProjectedRunView>
    decreases revision, 0nat, 0nat,
{
    if view is Accepted && !adds_text(revision.kind) {
        Seq::empty()
    } else {
        match enclosed_runs(revision.content) {
            Some(runs) => revision_prefix(
                revision.nested@,
                runs,
                view,
                place,
                underline || (view is Markup && adds_text(revision.kind)),
                strike || (view is Markup && removes_text(revision.kind)),
                (runs.len() + 1) as nat,
            ),
            None => Seq::empty(),
        }
    }
}

/// The part of a change before its run boundary `count`: at each boundary the
/// nested changes there, then the run there.
pub open spec fn revision_prefix(
    nested: Seq<(usize, Revision)>,
    runs: Seq<Run>,
    view: RevisionView,
    place: RevisionPlace,
    underline: bool,
    strike: bool,
    count: nat,
) -> Seq<ProjectedRunView>
    decreases nested, 1nat, count,
{
    if count == 0 {
        Seq::empty()
    } else {
        let boundary = (count - 1) as nat;
        revision_prefix(nested, runs, view, place, underline, strike, boundary) + nested_at(
            nested,
            boundary,
            view,
            place,
            underline,
            strike,
            nested.len(),
        ) + if boundary < runs.len() {
            seq![revised_run(runs[boundary as int], place, underline, strike)]
        } else {
            Seq::empty()
        }
    }
}

/// The contribution of those of the first `count` nested changes that stand at
/// a boundary.
pub open spec fn nested_at(
    nested: Seq<(usize, Revision)>,
    boundary: nat,
    view: RevisionView,
    place: RevisionPlace,
    underline: bool,
    strike: bool,
    count: nat,
) -> Seq<ProjectedRunView>
    decreases nested, 0nat, count,
{
    if count == 0 || count > nested.len() {
        Seq::empty()
    } else {
        nested_at(nested, boundary, view, place, underline, strike, (count - 1) as nat) + if nested[
        count - 1].0 == boundary {
            revision_projection(nested[count - 1].1, view, place, underline, strike)
        } else {
            Seq::empty()
        }
    }
}

/// A run inside a tracked change.
pub open spec fn revised_run(
    run: Run,
    place: RevisionPlace,
    underline: bool,
    strike: bool,
) -> ProjectedRunView {
    ProjectedRunView {
        run,
        boundary: place.boundary,
        raw_order: place.raw_order,
        ordinary_run_index: None,
        hyperlink_index: place.hyperlink_index,
        force_underline: underline,
        force_strike: strike,
    }
}

/// A run that no tracked change encloses.
pub open spec fn ordinary_run(run: Run, index: usize) -> ProjectedRunView {
    ProjectedRunView {
        run,
        boundary: index,
        raw_order: RawOrder::AfterRaw,
        ordinary_run_index: Some(index),
        hyperlink_index: None,
        force_underline: false,
        force_strike: false,
    }
}

/// Where a change in a paragraph stands among the unmodeled elements.
///
/// A change in a hyperlink stands where the link keeps its place; without such
/// a place it closes the boundary that ends the link, or opens another one.
pub open spec fn slot_order(para: Paragraph, boundary: usize, slot: RevisionSlot) -> RawOrder {
    match slot {
        RevisionSlot::Raw(count) => RawOrder::Raw(count),
        RevisionSlot::Hyperlink(index) => if index >= para.hyperlinks@.len() {
            RawOrder::AfterRaw
        } else {
            match para.hyperlinks@[index as int].preserved_raw_before {
                Some(count) => RawOrder::Raw(count),
                None => if boundary == para.hyperlinks@[index as int].run_end {
                    RawOrder::BeforeRaw
                } else {
                    RawOrder::AfterRaw
                },
            }
        },
    }
}

/// The hyperlink that a change stands in.
pub open spec fn slot_hyperlink(slot: RevisionSlot) -> Option<usize> {
    match slot {
        RevisionSlot::Raw(_) => None,
        RevisionSlot::Hyperlink(index) => Some(index),
    }
}

/// The contribution of those of the first `count` changes of a paragraph that
/// stand at a run boundary.
pub open spec fn revisions_at(
    para: Paragraph,
    view: RevisionView,
    boundary: nat,
    count: nat,
) -> Seq<ProjectedRunView>
    decreases count,
{
    if count == 0 || count > para.revisions@.len() {
        Seq::empty()
    } else {
        let placed = para.revisions@[count - 1];
        revisions_at(para, view, boundary, (count - 1) as nat) + if placed.boundary == boundary {
            revision_projection(
                placed.revision,
                view,
                RevisionPlace {
                    boundary: placed.boundary,
                    raw_order: slot_order(para, placed.boundary, placed.slot),
                    hyperlink_index: slot_hyperlink(placed.slot),
                },
                false,
                false,
            )
        } else {
            Seq::empty()
        }
    }
}

/// What a view shows at one run boundary: the changes there, then the run.
pub open spec fn boundary_projection(
    para: Paragraph,
    view: RevisionView,
    boundary: nat,
) -> Seq<ProjectedRunView> {
    revisions_at(para, view, boundary, para.revisions@.len()) + if boundary < para.runs@.len() {
        seq![ordinary_run(para.runs@[boundary as int], boundary as usize)]
    } else {
        Seq::empty()
    }
}

/// What a view shows before run boundary `count`.
pub open spec fn projection_prefix(
    para: Paragraph,
    view: RevisionView,
    count: nat,
) -> Seq<ProjectedRunView>
    decreases count,
{
    if count == 0 {
        Seq::empty()
    } else {
        projection_prefix(para, view, (count - 1) as nat) + boundary_projection(
            para,
            view,
            (count - 1) as nat,
        )
    }
}

/// The runs that a view of a paragraph shows, in document order.
pub open spec fn projection(para: Paragraph, view: RevisionView) -> Seq<ProjectedRunView> {
    projection_prefix(para, view, (para.runs@.len() + 1) as nat)
}

proof fn lemma_views_push<'a>(runs: Seq<ProjectedRun<'a>>, run: ProjectedRun<'a>)
    ensures
        projected_views(runs.push(run)) == projected_views(runs).push(run@),
{
    assert(projected_views(runs.push(run)) =~= projected_views(runs).push(run@));
}

/// The runs that a view of a paragraph shows, in document order.
pub fn project_paragraph_runs<'a>(para: &'a Paragraph, view: RevisionView) -> (projected: Vec<
    ProjectedRun<'a>,
>)
    ensures
        projected_views(projected@) == projection(*para, view),
{
    let mut projected: Vec<ProjectedRun<'a>> = Vec::new();
    let count = para.runs.len();
    let mut boundary: usize = 0;
    let mut done = false;
    proof {
        assert(projected_views(projected@) =~= projection_prefix(*para, view, 0));
    }
    while !done
        invariant
            count == para.runs@.len(),
            boundary <= count,
            !done ==> projected_views(projected@) == projection_prefix(*para, view, boundary as nat),
            done ==> projected_views(projected@) == projection_prefix(
                *para,
                view,
                (count + 1) as nat,
            ),
        decreases count - boundary, if done { 0int } else { 1int },
    {
        let ghost start = projected_views(projected@);
        let mut i: usize = 0;
        proof {
            assert(start + revisions_at(*para, view, boundary as nat, 0) =~= start);
        }
        while i < para.revisions.len()
            invariant
                i <= para.revisions@.len(),
                projected_views(projected@) == start + revisions_at(
                    *para,
                    view,
                    boundary as nat,
                    i as nat,
                ),
            decreases para.revisions@.len() - i,
        {
            let placed = &para.revisions[i];
            if placed.boundary == boundary {
                let hyperlink_index: Option<usize> = match placed.slot {
                    RevisionSlot::Hyperlink(index) => Some(index),
                    RevisionSlot::Raw(_) => None,
                };
                let raw_order = place_slot(para, boundary, placed.slot);
                let ghost before = projected_views(projected@);
                project_revision_runs(
                    &placed.revision,
                    view,
                    boundary,
                    raw_order,
                    hyperlink_index,
                    false,
                    false,
                    &mut projected,
                );
                proof {
                    assert(projected_views(projected@) =~= start + revisions_at(
                        *para,
                        view,
                        boundary as nat,
                        (i + 1) as nat,
                    ));
                }
            } else {
                proof {
                    assert(projected_views(projected@) =~= start + revisions_at(
                        *para,
                        view,
                        boundary as nat,
                        (i + 1) as nat,
                    ));
                }
            }
            i += 1;
        }
        if boundary < count {
            let run = ProjectedRun {
                run: &para.runs[boundary],
                boundary,
                raw_order: RawOrder::AfterRaw,
                ordinary_run_index: Some(boundary),
                hyperlink_index: None,
                force_underline: false,
                force_strike: false,
            };
            proof {
                lemma_views_push(projected@, run);
            }
            projected.push(run);
        }
        proof {
            assert(projected_views(projected@) =~= start + boundary_projection(
                *para,
                view,
                boundary as nat,
            ));
        }
        if boundary == count {
            done = true;
        } else {
            boundary += 1;
        }
    }
    projected
}

/// Where a change in a paragraph stands among the unmodeled elements.
fn place_slot(para: &Paragraph, boundary: usize, slot: RevisionSlot) -> (order: RawOrder)
    ensures
        order == slot_order(*para, boundary, slot),
{
    match slot {
        RevisionSlot::Raw(count) => RawOrder::Raw(count),
        RevisionSlot::Hyperlink(index) => {
            if index >= para.hyperlinks.len() {
                return RawOrder::AfterRaw;
            }
            match para.hyperlinks[index].preserved_raw_before {
                Some(count) => RawOrder::Raw(count),
                None => {
                    if boundary == para.hyperlinks[index].run_end {
                        RawOrder::BeforeRaw
                    } else {
                        RawOrder::AfterRaw
                    }
                },
            }
        },
    }
}

/// Adds the runs that a tracked change contributes to a view.
pub fn project_revision_runs<'a>(
    revision: &'a Revision,
    view: RevisionView,
    boundary: usize,
    raw_order: RawOrder,
    hyperlink_index: Option<usize>,
    inherited_underline: bool,
    inherited_strike: bool,
    projected: &mut Vec<ProjectedRun<'a>>,
)
    ensures
        projected_views(final(projected)@) == projected_views(old(projected)@)
            + revision_projection(
            *revision,
            view,
            RevisionPlace { boundary, raw_order, hyperlink_index },
            inherited_underline,
            inherited_strike,
        ),
    decreases *revision,
{
    let ghost place = RevisionPlace { boundary, raw_order, hyperlink_index };
    let ghost start = projected_views(projected@);
    let adds = match revision.kind {
        RevisionKind::Insertion | RevisionKind::MoveTo => true,
        _ => false,
    };
    let removes = match revision.kind {
        RevisionKind::Deletion | RevisionKind::MoveFrom => true,
        _ => false,
    };
    let markup = match view {
        RevisionView::Markup => true,
        RevisionView::Accepted => false,
    };
    if !markup && !adds {
        proof {
            assert(start + Seq::<ProjectedRunView>::empty() =~= start);
        }
        return;
    }
    let force_underline = inherited_underline || (markup && adds);
    let force_strike = inherited_strike || (markup && removes);
    let runs: Option<&'a Vec<Run>> = match &revision.content {
        RevisionContent::Runs(runs) => Some(runs),
        RevisionContent::Marker => None,
        _ => {
            proof {
                assert(start + Seq::<ProjectedRunView>::empty() =~= start);
            }
            return;
        },
    };
    let count: usize = match runs {
        Some(runs) => runs.len(),
        None => 0,
    };
    let ghost enclosed = enclosed_runs(revision.content).unwrap();
    let mut run_boundary: usize = 0;
    let mut done = false;
    proof {
        assert(start =~= start + revision_prefix(
            revision.nested@,
            enclosed,
            view,
            place,
            force_underline,
            force_strike,
            0,
        ));
    }
    while !done
        invariant
            enclosed_runs(revision.content) == Some(enclosed),
            runs matches Some(list) ==> list@ == enclosed,
            runs is None ==> enclosed.len() == 0,
            count == enclosed.len(),
            run_boundary <= count,
            place == (RevisionPlace { boundary, raw_order, hyperlink_index }),
            projected_views(projected@) == start + revision_prefix(
                revision.nested@,
                enclosed,
                view,
                place,
                force_underline,
                force_strike,
                if done { (count + 1) as nat } else { run_boundary as nat },
            ),
        decreases count - run_boundary, if done { 0int } else { 1int },
    {
        let ghost prefix = projected_views(projected@);
        let mut i: usize = 0;
        proof {
            assert(prefix =~= prefix + nested_at(
                revision.nested@,
                run_boundary as nat,
                view,
                place,
                force_underline,
                force_strike,
                0,
            ));
        }
        while i < revision.nested.len()
            invariant
                i <= revision.nested@.len(),
                place == (RevisionPlace { boundary, raw_order, hyperlink_index }),
                projected_views(projected@) == prefix + nested_at(
                    revision.nested@,
                    run_boundary as nat,
                    view,
                    place,
                    force_underline,
                    force_strike,
                    i as nat,
                ),
            decreases revision.nested@.len() - i,
        {
            let entry = &revision.nested[i];
            if entry.0 == run_boundary {
                proof {
                    assert(decreases_to!(*revision => revision.nested@[i as int].1));
                }
                project_revision_runs(
                    &entry.1,
                    view,
                    boundary,
                    raw_order,
                    hyperlink_index,
                    force_underline,
                    force_strike,
                    projected,
                );
            }
            proof {
                assert(projected_views(projected@) =~= prefix + nested_at(
                    revision.nested@,
                    run_boundary as nat,
                    view,
                    place,
                    force_underline,
                    force_strike,
                    (i + 1) as nat,
                ));
            }
            i += 1;
        }
        if run_boundary < count {
            if let Some(list) = runs {
                let run = ProjectedRun {
                    run: &list[run_boundary],
                    boundary,
                    raw_order,
                    ordinary_run_index: None,
                    hyperlink_index,
                    force_underline,
                    force_strike,
                };
                proof {
                    lemma_views_push(projected@, run);
                }
                projected.push(run);
            }
        }
        proof {
            assert(projected_views(projected@) =~= start + revision_prefix(
                revision.nested@,
                enclosed,
                view,
                place,
                force_underline,
                force_strike,
                (run_boundary + 1) as nat,
            ));
        }
        if run_boundary == count {
            done = true;
        } else {
            run_boundary += 1;
        }
    }
}

/// The plain text of a piece of a run.
pub open spec fn content_text(content: RunContent) -> Seq<char> {
    match content {
        RunContent::Text(text) => text@,
        RunContent::DeletedText(text) => text@,
        RunContent::Tab => seq!['\t'],
        RunContent::Break(_) => seq!['\n'],
        RunContent::Field(field) => match field.projected_text {
            Some(text) => text@,
            None => Seq::empty(),
        },
        _ => Seq::empty(),
    }
}

/// The plain text of a run.
pub open spec fn run_text(run: Run) -> Seq<char> {
    crate::text::concat(Seq::new(run.content@.len(), |i: int| content_text(run.content@[i])))
}

/// The plain text of a list of projected runs.
pub open spec fn projected_text(runs: Seq<ProjectedRunView>) -> Seq<char> {
    crate::text::concat(Seq::new(runs.len(), |i: int| run_text(runs[i].run)))
}

impl Run {
    /// The plain text of the run.
    pub fn text(&self) -> (text: String)
        ensures
            text@ == run_text(*self),
    {
        let mut text = String::new();
        let ghost parts = Seq::new(self.content@.len(), |i: int| content_text(self.content@[i]));
        let mut i: usize = 0;
        while i < self.content.len()
            invariant
                i <= self.content@.len(),
                parts == Seq::new(self.content@.len(), |i: int| content_text(self.content@[i])),
                text@ == crate::text::concat(parts.take(i as int)),
            decreases self.content@.len() - i,
        {
            proof {
                crate::text::lemma_concat_push(parts.take(i as int), parts[i as int]);
                assert(parts.take(i as int).push(parts[i as int]) =~= parts.take(i + 1));
            }
            match &self.content[i] {
                RunContent::Text(part) => text.append(part.as_str()),
                RunContent::DeletedText(part) => text.append(part.as_str()),
                RunContent::Tab => text.push('\t'),
                RunContent::Break(_) => text.push('\n'),
                RunContent::Field(field) => match &field.projected_text {
                    Some(part) => text.append(part.as_str()),
                    None => {},
                },
                _ => {},
            }
            proof {
                assert(text@ =~= crate::text::concat(parts.take(i + 1)));
            }
            i += 1;
        }
        proof {
            assert(parts.take(i as int) =~= parts);
        }
        text
    }
}

/// The plain text of a paragraph, as a revision view shows it.
pub fn projected_paragraph_text(para: &Paragraph, view: RevisionView) -> (text: String)
    ensures
        text@ == projected_text(projection(*para, view)),
{
    let projected = project_paragraph_runs(para, view);
    let mut text = String::new();
    let ghost runs = projection(*para, view);
    let ghost parts = Seq::new(runs.len(), |i: int| run_text(runs[i].run));
    let mut i: usize = 0;
    while i < projected.len()
        invariant
            i <= projected@.len(),
            projected_views(projected@) == runs,
            parts == Seq::new(runs.len(), |i: int| run_text(runs[i].run)),
            text@ == crate::text::concat(parts.take(i as int)),
        decreases projected@.len() - i,
    {
        proof {
            assert(runs[i as int] == projected@[i as int]@);
            crate::text::lemma_concat_push(parts.take(i as int), parts[i as int]);
            assert(parts.take(i as int).push(parts[i as int]) =~= parts.take(i + 1));
        }
        let part = projected[i].run.text();
        text.append(part.as_str());
        i += 1;
    }
    proof {
        assert(parts.take(i as int) =~= parts);
    }
    text
}

/// Whether a tracked change is recorded with the properties of a run.
pub open spec fn properties_revised(properties: RunProperties) -> bool {
    properties.changed || properties.revision_markers > 0
}

/// Whether a tracked change is recorded with the properties of a run.
pub fn run_properties_have_revision(properties: &RunProperties) -> (revised: bool)
    ensures
        revised == properties_revised(*properties),
{
    properties.changed || properties.revision_markers > 0
}

/// Whether a piece of a run shows anything on the page.
pub open spec fn content_shows(content: RunContent) -> bool {
    match content {
        RunContent::Text(text) => text@.len() > 0,
        RunContent::DeletedText(text) => text@.len() > 0,
        RunContent::CommentReference { .. } => false,
        _ => true,
    }
}

/// Whether a run shows anything on the page.
pub open spec fn run_shows(run: Run) -> bool {
    exists|i: int| 0 <= i < run.content@.len() && content_shows(#[trigger] run.content@[i])
}

/// Whether a tracked change has something to show: a run with visible content,
/// prior properties, or a nested change that has.
pub open spec fn revision_shows(revision: Revision) -> bool
    decreases revision,
{
    match enclosed_runs(revision.content) {
        Some(runs) => {
            ||| exists|i: int| 0 <= i < runs.len() && run_shows(#[trigger] runs[i])
            ||| exists|i: int|
                0 <= i < revision.nested@.len() && revision_shows((#[trigger] revision.nested@[i]).1)
        },
        None => true,
    }
}

fn content_is_visible(content: &RunContent) -> (visible: bool)
    ensures
        visible == content_shows(*content),
{
    match content {
        RunContent::Text(text) => !text.as_str().is_empty(),
        RunContent::DeletedText(text) => !text.as_str().is_empty(),
        RunContent::CommentReference { .. } => false,
        _ => true,
    }
}

fn runs_are_visible(runs: &Vec<Run>) -> (visible: bool)
    ensures
        visible == exists|i: int| 0 <= i < runs@.len() && run_shows(#[trigger] runs@[i]),
{
    let mut i: usize = 0;
    while i < runs.len()
        invariant
            i <= runs@.len(),
            forall|k: int| 0 <= k < i ==> !run_shows(#[trigger] runs@[k]),
        decreases runs@.len() - i,
    {
        let run = &runs[i];
        let mut j: usize = 0;
        while j < run.content.len()
            invariant
                i < runs@.len(),
                *run == runs@[i as int],
                j <= run.content@.len(),
                forall|k: int| 0 <= k < j ==> !content_shows(#[trigger] run.content@[k]),
            decreases run.content@.len() - j,
        {
            if content_is_visible(&run.content[j]) {
                assert(run_shows(runs@[i as int]));
                return true;
            }
            j += 1;
        }
        i += 1;
    }
    false
}

/// Whether a tracked change has something to show.
pub fn revision_is_visible(revision: &Revision) -> (visible: bool)
    ensures
        visible == revision_shows(*revision),
    decreases *revision,
{
    match &revision.content {
        RevisionContent::Runs(runs) => {
            if runs_are_visible(runs) {
                proof {
                    let enclosed = enclosed_runs(revision.content).unwrap();
                    let k = choose|k: int| 0 <= k < runs@.len() && run_shows(#[trigger] runs@[k]);
                    assert(0 <= k < enclosed.len() && run_shows(enclosed[k]));
                }
                return true;
            }
        },
        RevisionContent::Marker => {},
        _ => {
            return true;
        },
    }
    let mut i: usize = 0;
    while i < revision.nested.len()
        invariant
            i <= revision.nested@.len(),
            enclosed_runs(revision.content) is Some,
            forall|k: int|
                0 <= k < i ==> !revision_shows((#[trigger] revision.nested@[k]).1),
        decreases revision.nested@.len() - i,
    {
        proof {
            assert(decreases_to!(*revision => revision.nested@[i as int].1));
        }
        if revision_is_visible(&revision.nested[i].1) {
            return true;
        }
        i += 1;
    }
    false
}

/// Whether a tracked change is recorded with the properties of a paragraph.
pub open spec fn paragraph_properties_revised(properties: ParagraphProperties) -> bool {
    ||| properties.numbering_revision
    ||| properties.changed
    ||| (properties.sect_pr matches Some(section) && section.changed)
    ||| (properties.rpr matches Some(mark) && properties_revised(mark))
}

/// Whether a paragraph holds a tracked change that a reader should see: one of
/// its properties, of the properties of a run, or of its text.
pub open spec fn paragraph_revised(para: Paragraph) -> bool {
    ||| (para.properties matches Some(properties) && paragraph_properties_revised(properties))
    ||| exists|i: int|
        0 <= i < para.runs@.len() && ((#[trigger] para.runs@[i]).properties matches Some(properties)
            && properties_revised(properties))
    ||| exists|i: int|
        0 <= i < para.revisions@.len() && revision_shows((#[trigger] para.revisions@[i]).revision)
}

/// Whether a paragraph holds a tracked change that a reader should see.
pub fn paragraph_has_visible_revision(para: &Paragraph) -> (revised: bool)
    ensures
        revised == paragraph_revised(*para),
{
    if let Some(properties) = &para.properties {
        if properties.numbering_revision || properties.changed {
            return true;
        }
        if let Some(section) = &properties.sect_pr {
            if section.changed {
                return true;
            }
        }
        if let Some(mark) = &properties.rpr {
            if run_properties_have_revision(mark) {
                return true;
            }
        }
    }
    let mut i: usize = 0;
    while i < para.runs.len()
        invariant
            i <= para.runs@.len(),
            forall|k: int|
                0 <= k < i ==> !((#[trigger] para.runs@[k]).properties matches Some(properties)
                    && properties_revised(properties)),
        decreases para.runs@.len() - i,
    {
        if let Some(properties) = &para.runs[i].properties {
            if run_properties_have_revision(properties) {
                return true;
            }
        }
        i += 1;
    }
    let mut j: usize = 0;
    while j < para.revisions.len()
        invariant
            j <= para.revisions@.len(),
            forall|k: int|
                0 <= k < j ==> !revision_shows((#[trigger] para.revisions@[k]).revision),
        decreases para.revisions@.len() - j,
    {
        if revision_is_visible(&para.revisions[j].revision) {
            return true;
        }
        j += 1;
    }
    false
}

} // verus!
