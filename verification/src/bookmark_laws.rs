//! What holds of the text that bookmarks cover, in terms of the paragraphs and
//! runs of the body.

use vstd::prelude::*;

use crate::bookmark::{BodyPosition, PlacedMarkerView};
use crate::document::{BodyContent, BookmarkMarker, LayoutInput, Paragraph, RevisionView};
use crate::revision::{ProjectedRunView, RawOrder};

verus! {

/// The marker at index `k` of the paragraph at index `p` of a body.
pub open spec fn marker_at(body: Seq<BodyContent>, p: int, k: int) -> Option<BookmarkMarker> {
    if 0 <= p < body.len() {
        match body[p] {
            BodyContent::Paragraph(paragraph) => if 0 <= k < paragraph.bookmark_markers@.len() {
                Some(paragraph.bookmark_markers@[k])
            } else {
                None
            },
            _ => None,
        }
    } else {
        None
    }
}

/// Whether no marker with a number stands past the runs of its paragraph.
pub open spec fn all_in_place(body: Seq<BodyContent>) -> bool {
    forall|p: int, k: int|
        #![trigger marker_at(body, p, k)]
        match (body[p], marker_at(body, p, k)) {
            (BodyContent::Paragraph(paragraph), Some(marker)) => marker.id is Some
                ==> marker.run_index <= paragraph.runs@.len(),
            _ => true,
        }
}

/// Whether a marker starts a bookmark of a name.
pub open spec fn starts(marker: Option<BookmarkMarker>, name: Seq<char>) -> bool {
    match marker {
        Some(marker) => marker.is_start && marker.id is Some && match marker.name {
            Some(own) => own@ == name,
            None => false,
        },
        None => false,
    }
}

/// Whether marker `k` of the paragraph at `p` and marker `l` of the paragraph at `q`
/// are the start and the end of a bookmark of a name, with a number that no other
/// marker of the body has.
pub open spec fn is_complete(
    body: Seq<BodyContent>,
    name: Seq<char>,
    p: int,
    k: int,
    q: int,
    l: int,
) -> bool {
    &&& starts(marker_at(body, p, k), name)
    &&& marker_at(body, q, l) is Some
    &&& !marker_at(body, q, l)->Some_0.is_start
    &&& marker_at(body, q, l)->Some_0.id == marker_at(body, p, k)->Some_0.id
    &&& forall|p2: int, k2: int| #[trigger]
        marker_at(body, p2, k2) is Some && marker_at(body, p2, k2)->Some_0.id == marker_at(
            body,
            p,
            k,
        )->Some_0.id ==> (p2 == p && k2 == k) || (p2 == q && k2 == l)
}

/// Whether the bookmark of a name reaches from marker `k` of the paragraph at `p` to
/// marker `l` of the paragraph at `q`: it is complete, and no other bookmark of that
/// name is.
pub open spec fn reaches(
    body: Seq<BodyContent>,
    name: Seq<char>,
    p: int,
    k: int,
    q: int,
    l: int,
) -> bool {
    &&& is_complete(body, name, p, k, q, l)
    &&& forall|p2: int, k2: int, q2: int, l2: int| #[trigger]
        is_complete(body, name, p2, k2, q2, l2) ==> p2 == p && k2 == k
}

/// The text of the runs of a paragraph from index `from` up to index `to`, all of
/// them.
pub open spec fn text_of_runs(paragraph: Paragraph, from: int, to: int) -> Seq<char> {
    crate::text::concat(
        Seq::new(
            (to - from) as nat,
            |i: int| crate::revision::run_text(paragraph.runs@[from + i]),
        ),
    )
}

/// The texts of the paragraphs from index `p` of a body on, below index `n`: the
/// one at `p` from run `s` on, the one at `q` up to run `e`, and the others as a
/// whole.
pub open spec fn lines_between(
    body: Seq<BodyContent>,
    p: int,
    s: int,
    q: int,
    e: int,
    n: int,
) -> Seq<Seq<char>>
    decreases n - p,
{
    if n <= p {
        Seq::empty()
    } else {
        let before = lines_between(body, p, s, q, e, n - 1);
        match body[n - 1] {
            BodyContent::Paragraph(paragraph) => before.push(
                text_of_runs(
                    paragraph,
                    if n - 1 == p {
                        s
                    } else {
                        0
                    },
                    if n - 1 == q {
                        e
                    } else {
                        paragraph.runs@.len() as int
                    },
                ),
            ),
            _ => before,
        }
    }
}

/// Whether no paragraph of a body from index `p` up to and with index `q` holds
/// tracked changes.
pub open spec fn unchanged_between(body: Seq<BodyContent>, p: int, q: int) -> bool {
    forall|b: int|
        p <= b <= q ==> match #[trigger] body[b] {
            BodyContent::Paragraph(paragraph) => paragraph.revisions@.len() == 0,
            _ => true,
        }
}

/// Where the markers of a paragraph that have a number stand.
spec fn paragraph_places(paragraph: Paragraph, p: int, n: nat) -> Seq<(int, int)>
    decreases n,
{
    if n == 0 {
        Seq::empty()
    } else {
        let before = paragraph_places(paragraph, p, (n - 1) as nat);
        if paragraph.bookmark_markers@[n - 1].id is Some {
            before.push((p, n - 1))
        } else {
            before
        }
    }
}

/// Where the markers of the first `n` pieces of a body that have a number stand.
spec fn body_places(body: Seq<BodyContent>, n: nat) -> Seq<(int, int)>
    decreases n,
{
    if n == 0 {
        Seq::empty()
    } else {
        let before = body_places(body, (n - 1) as nat);
        match body[n - 1] {
            BodyContent::Paragraph(paragraph) => before + paragraph_places(
                paragraph,
                n - 1,
                paragraph.bookmark_markers@.len(),
            ),
            _ => before,
        }
    }
}

spec fn earlier(a: (int, int), b: (int, int)) -> bool {
    a.0 < b.0 || (a.0 == b.0 && a.1 < b.1)
}

proof fn lemma_paragraph_places(paragraph: Paragraph, p: usize, n: nat)
    requires
        n <= paragraph.bookmark_markers@.len(),
    ensures
        ({
            let places = paragraph_places(paragraph, p as int, n);
            let markers = crate::bookmark::paragraph_markers(paragraph, p, n);
            &&& places.len() == markers.len()
            &&& forall|j: int|
                0 <= j < places.len() ==> (#[trigger] places[j]).0 == p && 0 <= places[j].1 < n
                    && markers[j] == (PlacedMarkerView {
                    body_index: p,
                    marker: paragraph.bookmark_markers@[places[j].1],
                }) && paragraph.bookmark_markers@[places[j].1].id is Some
            &&& forall|i: int, j: int|
                0 <= i < j < places.len() ==> earlier(#[trigger] places[i], #[trigger] places[j])
            &&& forall|k: int|
                0 <= k < n && (#[trigger] paragraph.bookmark_markers@[k]).id is Some
                    ==> places.contains((p as int, k))
        }),
    decreases n,
{
    if n > 0 {
        lemma_paragraph_places(paragraph, p, (n - 1) as nat);
        let before = paragraph_places(paragraph, p as int, (n - 1) as nat);
        let places = paragraph_places(paragraph, p as int, n);
        assert forall|k: int|
            0 <= k < n && (
            #[trigger] paragraph.bookmark_markers@[k]).id is Some implies places.contains(
            (p as int, k),
        ) by {
            if k < n - 1 {
                assert(before.contains((p as int, k)));
                let j = choose|j: int| 0 <= j < before.len() && before[j] == (p as int, k);
                assert(places[j] == (p as int, k));
            } else {
                assert(places[places.len() - 1] == (p as int, k));
            }
        }
    }
}

proof fn lemma_body_places(body: Seq<BodyContent>, n: nat)
    requires
        n <= body.len() <= usize::MAX,
    ensures
        ({
            let places = body_places(body, n);
            let markers = crate::bookmark::body_markers(body, n);
            &&& places.len() == markers.len()
            &&& forall|j: int|
                0 <= j < places.len() ==> 0 <= (#[trigger] places[j]).0 < n && marker_at(
                    body,
                    places[j].0,
                    places[j].1,
                ) == Some(markers[j].marker) && markers[j].body_index == places[j].0
                    && markers[j].marker.id is Some
            &&& forall|i: int, j: int|
                0 <= i < j < places.len() ==> earlier(#[trigger] places[i], #[trigger] places[j])
            &&& forall|p: int, k: int|
                p < n && (#[trigger] marker_at(body, p, k)) is Some && marker_at(
                    body,
                    p,
                    k,
                )->Some_0.id is Some ==> places.contains((p, k))
        }),
    decreases n,
{
    if n > 0 {
        let m = (n - 1) as nat;
        lemma_body_places(body, m);
        let before = body_places(body, m);
        let markers_before = crate::bookmark::body_markers(body, m);
        let places = body_places(body, n);
        let markers = crate::bookmark::body_markers(body, n);
        if let BodyContent::Paragraph(paragraph) = body[m as int] {
            let count = paragraph.bookmark_markers@.len();
            lemma_paragraph_places(paragraph, m as usize, count);
            let here = paragraph_places(paragraph, m as int, count);
            let own = crate::bookmark::paragraph_markers(paragraph, m as usize, count);
            assert(places == before + here);
            assert(markers == markers_before + own);
            assert forall|j: int| 0 <= j < places.len() implies 0 <= (
            #[trigger] places[j]).0 < n && marker_at(body, places[j].0, places[j].1) == Some(
                markers[j].marker,
            ) && markers[j].body_index == places[j].0 && markers[j].marker.id is Some by {
                if j < before.len() {
                    assert(places[j] == before[j]);
                } else {
                    assert(places[j] == here[j - before.len()]);
                    assert(markers[j] == own[j - before.len()]);
                }
            }
            assert forall|i: int, j: int| 0 <= i < j < places.len() implies earlier(
                #[trigger] places[i],
                #[trigger] places[j],
            ) by {
                if j < before.len() {
                    assert(places[i] == before[i] && places[j] == before[j]);
                } else if i < before.len() {
                    assert(places[i] == before[i]);
                    assert(places[j] == here[j - before.len()]);
                } else {
                    assert(places[i] == here[i - before.len()]);
                    assert(places[j] == here[j - before.len()]);
                }
            }
            assert forall|p: int, k: int|
                p < n && (#[trigger] marker_at(body, p, k)) is Some && marker_at(
                    body,
                    p,
                    k,
                )->Some_0.id is Some implies places.contains((p, k)) by {
                if p < m {
                    assert(before.contains((p, k)));
                    let j = choose|j: int| 0 <= j < before.len() && before[j] == (p, k);
                    assert(places[j] == (p, k));
                } else {
                    assert(paragraph.bookmark_markers@[k].id is Some);
                    assert(here.contains((m as int, k)));
                    let j = choose|j: int| 0 <= j < here.len() && here[j] == (m as int, k);
                    assert(places[before.len() + j] == (p, k));
                }
            }
        }
    }
}

/// The place of a marker among those that have a number.
proof fn lemma_place_of(body: Seq<BodyContent>, p: int, k: int) -> (s: int)
    requires
        body.len() <= usize::MAX,
        marker_at(body, p, k) is Some,
        marker_at(body, p, k)->Some_0.id is Some,
    ensures
        ({
            let places = body_places(body, body.len());
            let markers = crate::bookmark::body_markers(body, body.len());
            &&& 0 <= s < markers.len()
            &&& places.len() == markers.len()
            &&& places[s] == (p, k)
            &&& markers[s].marker == marker_at(body, p, k)->Some_0
            &&& markers[s].body_index == p
            &&& forall|j: int| 0 <= j < places.len() && #[trigger] places[j] == (p, k) ==> j == s
        }),
{
    lemma_body_places(body, body.len());
    let places = body_places(body, body.len());
    assert(places.contains((p, k)));
    let s = choose|s: int| 0 <= s < places.len() && places[s] == (p, k);
    assert forall|j: int| 0 <= j < places.len() && #[trigger] places[j] == (p, k) implies j == s by {
        if j < s {
            assert(earlier(places[j], places[s]));
        } else if s < j {
            assert(earlier(places[s], places[j]));
        }
    }
    s
}

/// A complete bookmark is a pair of markers.
proof fn lemma_complete_is_pair(
    body: Seq<BodyContent>,
    name: Seq<char>,
    p: int,
    k: int,
    q: int,
    l: int,
) -> (pair: (int, int))
    requires
        body.len() <= usize::MAX,
        is_complete(body, name, p, k, q, l),
    ensures
        ({
            let places = body_places(body, body.len());
            let markers = crate::bookmark::body_markers(body, body.len());
            &&& crate::bookmark::is_pair(markers, name, pair.0, pair.1)
            &&& places[pair.0] == (p, k)
            &&& places[pair.1] == (q, l)
            &&& markers[pair.0].body_index == p
            &&& markers[pair.0].marker == marker_at(body, p, k)->Some_0
            &&& markers[pair.1].body_index == q
            &&& markers[pair.1].marker == marker_at(body, q, l)->Some_0
        }),
{
    lemma_body_places(body, body.len());
    let places = body_places(body, body.len());
    let markers = crate::bookmark::body_markers(body, body.len());
    let s = lemma_place_of(body, p, k);
    let e = lemma_place_of(body, q, l);
    assert forall|j: int|
        0 <= j < markers.len() && (#[trigger] markers[j]).marker.id
            == markers[s].marker.id implies j == s || j == e by {
        let place = places[j];
        assert(marker_at(body, place.0, place.1) == Some(markers[j].marker));
        assert(places[j] == (p, k) || places[j] == (q, l));
    }
    (s, e)
}

/// A pair of markers is a complete bookmark.
proof fn lemma_pair_is_complete(body: Seq<BodyContent>, name: Seq<char>, s: int, e: int)
    requires
        body.len() <= usize::MAX,
        crate::bookmark::is_pair(
            crate::bookmark::body_markers(body, body.len()),
            name,
            s,
            e,
        ),
    ensures
        ({
            let places = body_places(body, body.len());
            &&& 0 <= s < places.len()
            &&& 0 <= e < places.len()
            &&& is_complete(body, name, places[s].0, places[s].1, places[e].0, places[e].1)
        }),
{
    lemma_body_places(body, body.len());
    let places = body_places(body, body.len());
    let markers = crate::bookmark::body_markers(body, body.len());
    let (p, k) = places[s];
    let (q, l) = places[e];
    assert(marker_at(body, p, k) == Some(markers[s].marker));
    assert(marker_at(body, q, l) == Some(markers[e].marker));
    assert forall|p2: int, k2: int| #[trigger]
        marker_at(body, p2, k2) is Some && marker_at(body, p2, k2)->Some_0.id == marker_at(
            body,
            p,
            k,
        )->Some_0.id implies (p2 == p && k2 == k) || (p2 == q && k2 == l) by {
        let j = lemma_place_of(body, p2, k2);
        assert(markers[j].marker.id == markers[s].marker.id);
    }
}

/// The positions between which the bookmark of a name reaches.
proof fn lemma_range_of_bookmark(
    body: Seq<BodyContent>,
    name: Seq<char>,
    p: int,
    k: int,
    q: int,
    l: int,
)
    requires
        body.len() <= usize::MAX,
        reaches(body, name, p, k, q, l),
    ensures
        ({
            let start = marker_at(body, p, k)->Some_0;
            let end = marker_at(body, q, l)->Some_0;
            crate::bookmark::bookmark_range(
                crate::bookmark::body_markers(body, body.len()),
                name,
            ) == Some(
                (
                    BodyPosition {
                        body_index: p as usize,
                        boundary: start.run_index,
                        raw_order: RawOrder::Raw(start.raw_before),
                    },
                    BodyPosition {
                        body_index: q as usize,
                        boundary: end.run_index,
                        raw_order: RawOrder::Raw(end.raw_before),
                    },
                ),
            )
        }),
{
    let places = body_places(body, body.len());
    let markers = crate::bookmark::body_markers(body, body.len());
    let (s, e) = lemma_complete_is_pair(body, name, p, k, q, l);
    assert forall|s2: int, e2: int| #[trigger]
        crate::bookmark::is_pair(markers, name, s2, e2) implies s2 == s by {
        lemma_pair_is_complete(body, name, s2, e2);
        let own = lemma_place_of(body, p, k);
        assert(places[s2] == (p, k));
        assert(places[s] == (p, k));
    }
    assert(crate::bookmark::is_only_pair(markers, name, s, e));
    let (s2, e2) = choose|s2: int, e2: int|
        crate::bookmark::is_only_pair(markers, name, s2, e2);
    assert(crate::bookmark::is_pair(markers, name, s2, e2));
    assert(markers[e2].marker.id == markers[s].marker.id);
}

/// A paragraph without tracked changes shows its runs.
pub proof fn law_a_paragraph_without_changes_shows_its_runs(paragraph: Paragraph, view: RevisionView)
    requires
        paragraph.revisions@.len() == 0,
    ensures
        crate::revision::projection(paragraph, view).len() == paragraph.runs@.len(),
        forall|i: int|
            0 <= i < paragraph.runs@.len() ==> {
                let shown = #[trigger] crate::revision::projection(paragraph, view)[i];
                &&& shown.run == paragraph.runs@[i]
                &&& shown.boundary == i
                &&& shown.raw_order == RawOrder::AfterRaw
                &&& shown.ordinary_run_index == Some(i as usize)
                &&& !shown.force_underline
                &&& !shown.force_strike
            },
{
    assert(paragraph.runs.len() == paragraph.runs@.len());
    lemma_unchanged_prefix(paragraph, view, (paragraph.runs@.len() + 1) as nat);
}

proof fn lemma_unchanged_prefix(paragraph: Paragraph, view: RevisionView, count: nat)
    requires
        paragraph.revisions@.len() == 0,
        count <= paragraph.runs@.len() + 1,
    ensures
        crate::revision::projection_prefix(paragraph, view, count) == Seq::new(
            if count <= paragraph.runs@.len() {
                count
            } else {
                paragraph.runs@.len()
            },
            |i: int| crate::revision::ordinary_run(paragraph.runs@[i], i as usize),
        ),
    decreases count,
{
    if count > 0 {
        lemma_unchanged_prefix(paragraph, view, (count - 1) as nat);
    }
    assert(crate::revision::projection_prefix(paragraph, view, count) =~= Seq::new(
        if count <= paragraph.runs@.len() {
            count
        } else {
            paragraph.runs@.len()
        },
        |i: int| crate::revision::ordinary_run(paragraph.runs@[i], i as usize),
    ));
}

/// Keeping the items from one index up to another is taking that part.
proof fn lemma_kept_part(
    runs: Seq<ProjectedRunView>,
    keep: spec_fn(ProjectedRunView) -> bool,
    from: int,
    to: int,
    n: int,
)
    requires
        0 <= from <= to <= runs.len(),
        0 <= n <= runs.len(),
        forall|i: int| 0 <= i < runs.len() ==> (keep(#[trigger] runs[i]) <==> from <= i < to),
    ensures
        runs.take(n).filter(keep) == runs.subrange(
            if n < from {
                n
            } else {
                from
            },
            if n < from {
                n
            } else if n < to {
                n
            } else {
                to
            },
        ),
    decreases n,
{
    reveal(Seq::filter);
    if n > 0 {
        lemma_kept_part(runs, keep, from, to, n - 1);
        assert(runs.take(n).drop_last() =~= runs.take(n - 1));
        assert(runs.take(n).last() == runs[n - 1]);
        assert(keep(runs[n - 1]) <==> from <= n - 1 < to);
    }
    assert(runs.take(n).filter(keep) =~= runs.subrange(
        if n < from {
            n
        } else {
            from
        },
        if n < from {
            n
        } else if n < to {
            n
        } else {
            to
        },
    ));
}

/// Whether an ordinary run is covered is a matter of its index.
proof fn lemma_within(run: ProjectedRunView, b: usize, start: BodyPosition, end: BodyPosition)
    requires
        run.raw_order == RawOrder::AfterRaw,
        start.body_index <= b <= end.body_index,
        start.raw_order is Raw,
        end.raw_order is Raw,
    ensures
        crate::bookmark::within(b, start, end)(run) <==> (b == start.body_index
            ==> start.boundary <= run.boundary) && (b == end.body_index ==> run.boundary
            < end.boundary),
{
}

/// What a bookmark covers of a paragraph without tracked changes.
proof fn lemma_covered_runs(
    paragraph: Paragraph,
    view: RevisionView,
    b: usize,
    start: BodyPosition,
    end: BodyPosition,
    from: int,
    to: int,
)
    requires
        paragraph.revisions@.len() == 0,
        start.body_index <= b <= end.body_index,
        start.raw_order is Raw,
        end.raw_order is Raw,
        from == if b == start.body_index {
            start.boundary as int
        } else {
            0
        },
        to == if b == end.body_index {
            end.boundary as int
        } else {
            paragraph.runs@.len() as int
        },
        from <= to <= paragraph.runs@.len(),
    ensures
        crate::bookmark::covered_text(paragraph, view, b, start, end) == text_of_runs(
            paragraph,
            from,
            to,
        ),
{
    law_a_paragraph_without_changes_shows_its_runs(paragraph, view);
    let runs = crate::revision::projection(paragraph, view);
    let keep = crate::bookmark::within(b, start, end);
    assert forall|i: int| 0 <= i < runs.len() implies (keep(#[trigger] runs[i]) <==> from <= i
        < to) by {
        assert(runs[i].boundary == i && runs[i].raw_order == RawOrder::AfterRaw);
        lemma_within(runs[i], b, start, end);
    }
    lemma_kept_part(runs, keep, from, to, runs.len() as int);
    assert(runs.take(runs.len() as int) =~= runs);
    lemma_text_of_part(paragraph, runs, from, to);
}

/// The text of a part of the shown runs is the text of the runs there.
proof fn lemma_text_of_part(
    paragraph: Paragraph,
    runs: Seq<ProjectedRunView>,
    from: int,
    to: int,
)
    requires
        0 <= from <= to <= runs.len(),
        runs.len() == paragraph.runs@.len(),
        forall|i: int| 0 <= i < runs.len() ==> (#[trigger] runs[i]).run == paragraph.runs@[i],
    ensures
        crate::revision::projected_text(runs.subrange(from, to)) == text_of_runs(
            paragraph,
            from,
            to,
        ),
{
    let kept = runs.subrange(from, to);
    let texts = Seq::new(kept.len(), |i: int| crate::revision::run_text(kept[i].run));
    let own = Seq::new(
        (to - from) as nat,
        |i: int| crate::revision::run_text(paragraph.runs@[from + i]),
    );
    assert forall|i: int| 0 <= i < texts.len() implies texts[i] == own[i] by {
        assert(kept[i] == runs[from + i]);
    }
    assert(texts =~= own);
}

proof fn lemma_lines(
    body: Seq<BodyContent>,
    view: RevisionView,
    start: BodyPosition,
    end: BodyPosition,
    n: int,
)
    requires
        body.len() <= usize::MAX,
        start.body_index <= end.body_index < body.len(),
        start.raw_order is Raw,
        end.raw_order is Raw,
        start.body_index <= n <= end.body_index + 1,
        unchanged_between(body, start.body_index as int, end.body_index as int),
        body[start.body_index as int] matches BodyContent::Paragraph(first) && start.boundary
            <= first.runs@.len(),
        body[end.body_index as int] matches BodyContent::Paragraph(last) && end.boundary
            <= last.runs@.len(),
        start.body_index == end.body_index ==> start.boundary <= end.boundary,
    ensures
        crate::bookmark::covered_parts(body, view, start, end, n) == lines_between(
            body,
            start.body_index as int,
            start.boundary as int,
            end.body_index as int,
            end.boundary as int,
            n,
        ),
    decreases n,
{
    if n > start.body_index {
        lemma_lines(body, view, start, end, n - 1);
        if let BodyContent::Paragraph(paragraph) = body[n - 1] {
            lemma_covered_runs(
                paragraph,
                view,
                (n - 1) as usize,
                start,
                end,
                if n - 1 == start.body_index {
                    start.boundary as int
                } else {
                    0
                },
                if n - 1 == end.body_index {
                    end.boundary as int
                } else {
                    paragraph.runs@.len() as int
                },
            );
        }
    }
}

/// The text of a bookmark is that of all runs between its ends: one line for each
/// paragraph from the one where it starts to the one where it ends; the first line
/// begins with the run at the start, the last line ends before the run at the end,
/// and nothing in between is left out.
pub proof fn law_a_bookmark_covers_all_runs_between_its_ends(
    input: LayoutInput,
    name: Seq<char>,
    p: int,
    k: int,
    q: int,
    l: int,
)
    requires
        ({
            let body = input.document.body@;
            let start = marker_at(body, p, k)->Some_0;
            let end = marker_at(body, q, l)->Some_0;
            &&& reaches(body, name, p, k, q, l)
            &&& all_in_place(body)
            &&& unchanged_between(body, p, q)
            &&& p < q || (p == q && (start.run_index < end.run_index || (start.run_index
                == end.run_index && start.raw_before <= end.raw_before)))
        }),
    ensures
        ({
            let body = input.document.body@;
            let s = marker_at(body, p, k)->Some_0.run_index as int;
            let e = marker_at(body, q, l)->Some_0.run_index as int;
            crate::bookmark::bookmark_text_of(input, name) == Some(
                crate::text::joined(lines_between(body, p, s, q, e, q + 1), '\n'),
            )
        }),
{
    let body = input.document.body@;
    assert(input.document.body.len() == body.len());
    lemma_nothing_strays(body);
    lemma_range_of_bookmark(body, name, p, k, q, l);
    let start = marker_at(body, p, k)->Some_0;
    let end = marker_at(body, q, l)->Some_0;
    let from = BodyPosition {
        body_index: p as usize,
        boundary: start.run_index,
        raw_order: RawOrder::Raw(start.raw_before),
    };
    let to = BodyPosition {
        body_index: q as usize,
        boundary: end.run_index,
        raw_order: RawOrder::Raw(end.raw_before),
    };
    lemma_lines(body, input.revision_view, from, to, q + 1);
}

proof fn lemma_nothing_strays(body: Seq<BodyContent>)
    requires
        all_in_place(body),
    ensures
        !crate::bookmark::body_strays(body),
{
    if crate::bookmark::body_strays(body) {
        let p = choose|p: int|
            0 <= p < body.len() && crate::bookmark::content_strays(#[trigger] body[p]);
        if let BodyContent::Paragraph(paragraph) = body[p] {
            let k = choose|k: int|
                0 <= k < paragraph.bookmark_markers@.len() && crate::bookmark::is_stray(
                    paragraph,
                    #[trigger] paragraph.bookmark_markers@[k],
                );
            assert(marker_at(body, p, k) == Some(paragraph.bookmark_markers@[k]));
        }
    }
}

/// A bookmark inside one paragraph covers the runs from its start up to its end,
/// all of them.
pub proof fn law_a_bookmark_in_a_paragraph_covers_its_runs(
    input: LayoutInput,
    name: Seq<char>,
    paragraph: Paragraph,
    p: int,
    k: int,
    l: int,
    s: int,
    e: int,
)
    requires
        0 <= p < input.document.body@.len(),
        input.document.body@[p] == BodyContent::Paragraph(paragraph),
        paragraph.revisions@.len() == 0,
        all_in_place(input.document.body@),
        reaches(input.document.body@, name, p, k, p, l),
        s == paragraph.bookmark_markers@[k].run_index,
        e == paragraph.bookmark_markers@[l].run_index,
        s < e || (s == e && paragraph.bookmark_markers@[k].raw_before
            <= paragraph.bookmark_markers@[l].raw_before),
    ensures
        crate::bookmark::bookmark_text_of(input, name) == Some(
            crate::text::concat(
                Seq::new(
                    (e - s) as nat,
                    |i: int| crate::revision::run_text(paragraph.runs@[s + i]),
                ),
            ),
        ),
{
    let body = input.document.body@;
    law_a_bookmark_covers_all_runs_between_its_ends(input, name, p, k, p, l);
    reveal_with_fuel(lines_between, 2);
    let lines = lines_between(body, p, s, p, e, p + 1);
    assert(lines =~= seq![text_of_runs(paragraph, s, e)]);
}

/// A name that starts no bookmark has no text.
pub proof fn law_a_name_without_a_start_has_no_text(input: LayoutInput, name: Seq<char>)
    requires
        forall|p: int, k: int|
            !starts(#[trigger] marker_at(input.document.body@, p, k), name),
    ensures
        crate::bookmark::bookmark_text_of(input, name) is None,
{
    let body = input.document.body@;
    assert(input.document.body.len() == body.len());
    lemma_body_places(body, body.len());
    let places = body_places(body, body.len());
    let markers = crate::bookmark::body_markers(body, body.len());
    if exists|s: int, e: int| crate::bookmark::is_only_pair(markers, name, s, e) {
        let (s, e) = choose|s: int, e: int| crate::bookmark::is_only_pair(markers, name, s, e);
        assert(crate::bookmark::is_pair(markers, name, s, e));
        assert(starts(marker_at(body, places[s].0, places[s].1), name));
    }
}

/// A bookmark whose end comes before its start has no text, and where a marker of
/// the body stands past the runs of its paragraph, no bookmark has one.
pub proof fn law_misplaced_markers_leave_no_text(
    input: LayoutInput,
    name: Seq<char>,
    p: int,
    k: int,
    q: int,
    l: int,
)
    ensures
        ({
            let body = input.document.body@;
            let start = marker_at(body, p, k)->Some_0;
            let end = marker_at(body, q, l)->Some_0;
            reaches(body, name, p, k, q, l) && (q < p || (p == q && (end.run_index
                < start.run_index || (start.run_index == end.run_index && end.raw_before
                < start.raw_before)))) ==> crate::bookmark::bookmark_text_of(input, name) is None
        }),
        match (input.document.body@[p], marker_at(input.document.body@, p, k)) {
            (BodyContent::Paragraph(paragraph), Some(marker)) => marker.id is Some
                && marker.run_index > paragraph.runs@.len()
                ==> crate::bookmark::bookmark_text_of(input, name) is None,
            _ => true,
        },
{
    let body = input.document.body@;
    assert(input.document.body.len() == body.len());
    if reaches(body, name, p, k, q, l) {
        lemma_range_of_bookmark(body, name, p, k, q, l);
    }
    if let (BodyContent::Paragraph(paragraph), Some(marker)) = (body[p], marker_at(body, p, k)) {
        if marker.id is Some && marker.run_index > paragraph.runs@.len() {
            assert(crate::bookmark::is_stray(paragraph, paragraph.bookmark_markers@[k]));
            assert(crate::bookmark::content_strays(body[p]));
        }
    }
}

/// A name that no bookmark of the body completes has no text, and neither has one
/// that two bookmarks complete.
pub proof fn law_a_name_needs_exactly_one_bookmark(
    input: LayoutInput,
    name: Seq<char>,
    p: int,
    k: int,
    q: int,
    l: int,
    p2: int,
    k2: int,
    q2: int,
    l2: int,
)
    ensures
        ({
            let body = input.document.body@;
            let text = crate::bookmark::bookmark_text_of(input, name);
            &&& (forall|a: int, b: int, c: int, d: int| !is_complete(body, name, a, b, c, d))
                ==> text is None
            &&& is_complete(body, name, p, k, q, l) && is_complete(body, name, p2, k2, q2, l2)
                && (p != p2 || k != k2) ==> text is None
        }),
{
    let body = input.document.body@;
    assert(input.document.body.len() == body.len());
    let places = body_places(body, body.len());
    let markers = crate::bookmark::body_markers(body, body.len());
    if exists|s: int, e: int| crate::bookmark::is_only_pair(markers, name, s, e) {
        let (s, e) = choose|s: int, e: int| crate::bookmark::is_only_pair(markers, name, s, e);
        assert(crate::bookmark::is_pair(markers, name, s, e));
        lemma_pair_is_complete(body, name, s, e);
        if is_complete(body, name, p, k, q, l) && is_complete(body, name, p2, k2, q2, l2) {
            let first = lemma_complete_is_pair(body, name, p, k, q, l);
            let second = lemma_complete_is_pair(body, name, p2, k2, q2, l2);
            assert(crate::bookmark::is_pair(markers, name, first.0, first.1));
            assert(crate::bookmark::is_pair(markers, name, second.0, second.1));
            assert(first.0 == s && second.0 == s);
        }
    }
}

proof fn lemma_kept_run(
    runs: Seq<ProjectedRunView>,
    keep: spec_fn(ProjectedRunView) -> bool,
    n: int,
    i: int,
) -> (at: int)
    requires
        0 <= i < n <= runs.len(),
        keep(runs[i]),
    ensures
        ({
            let text = crate::revision::projected_text(runs.take(n).filter(keep));
            let own = crate::revision::run_text(runs[i].run);
            &&& 0 <= at
            &&& at + own.len() <= text.len()
            &&& text.subrange(at, at + own.len()) == own
        }),
    decreases n,
{
    reveal(Seq::filter);
    let before = runs.take(n - 1).filter(keep);
    let all = runs.take(n).filter(keep);
    let last = runs[n - 1];
    let text = crate::revision::projected_text(all);
    let early = crate::revision::projected_text(before);
    let own = crate::revision::run_text(runs[i].run);
    assert(runs.take(n).drop_last() =~= runs.take(n - 1));
    assert(runs.take(n).last() == last);
    if keep(last) {
        let parts = Seq::new(before.len(), |k: int| crate::revision::run_text(before[k].run));
        let more = Seq::new(all.len(), |k: int| crate::revision::run_text(all[k].run));
        assert(more =~= parts.push(crate::revision::run_text(last.run)));
        crate::text::lemma_concat_push(parts, crate::revision::run_text(last.run));
        assert(text == early + crate::revision::run_text(last.run));
    }
    if i < n - 1 {
        let at = lemma_kept_run(runs, keep, n - 1, i);
        assert(text.subrange(at, at + own.len()) =~= early.subrange(at, at + own.len()));
        at
    } else {
        let at = early.len() as int;
        assert(text.subrange(at, at + own.len()) =~= own);
        at
    }
}

/// A bookmark inside one paragraph covers changes too: the text of every run that
/// the view shows at a boundary after its start and before its end, inside a change
/// or outside, stands in its text, and so does that of a run at the boundary of its
/// start that comes after the start there, or at the boundary of its end and before
/// the end there.
pub proof fn law_a_bookmark_covers_the_changes_inside_it(
    input: LayoutInput,
    name: Seq<char>,
    paragraph: Paragraph,
    p: int,
    k: int,
    l: int,
    i: int,
) -> (at: int)
    requires
        0 <= p < input.document.body@.len(),
        input.document.body@[p] == BodyContent::Paragraph(paragraph),
        all_in_place(input.document.body@),
        reaches(input.document.body@, name, p, k, p, l),
        0 <= i < crate::revision::projection(paragraph, input.revision_view).len(),
        ({
            let start = paragraph.bookmark_markers@[k];
            let end = paragraph.bookmark_markers@[l];
            let run = crate::revision::projection(paragraph, input.revision_view)[i];
            let after = start.run_index < run.boundary || (start.run_index == run.boundary && (
            run.raw_order is AfterRaw || (run.raw_order is Raw && run.raw_order->Raw_0
                >= start.raw_before)));
            let before = run.boundary < end.run_index || (run.boundary == end.run_index && (
            run.raw_order is BeforeRaw || (run.raw_order is Raw && run.raw_order->Raw_0
                < end.raw_before)));
            &&& start.run_index < end.run_index || (start.run_index == end.run_index
                && start.raw_before <= end.raw_before)
            &&& after
            &&& before
        }),
    ensures
        ({
            let text = crate::bookmark::bookmark_text_of(input, name);
            let run = crate::revision::projection(paragraph, input.revision_view)[i];
            let own = crate::revision::run_text(run.run);
            &&& text is Some
            &&& 0 <= at
            &&& at + own.len() <= text->Some_0.len()
            &&& text->Some_0.subrange(at, at + own.len()) == own
        }),
{
    let body = input.document.body@;
    let view = input.revision_view;
    assert(input.document.body.len() == body.len());
    lemma_nothing_strays(body);
    lemma_range_of_bookmark(body, name, p, k, p, l);
    let start = marker_at(body, p, k)->Some_0;
    let end = marker_at(body, p, l)->Some_0;
    let from = BodyPosition {
        body_index: p as usize,
        boundary: start.run_index,
        raw_order: RawOrder::Raw(start.raw_before),
    };
    let to = BodyPosition {
        body_index: p as usize,
        boundary: end.run_index,
        raw_order: RawOrder::Raw(end.raw_before),
    };
    let runs = crate::revision::projection(paragraph, view);
    let keep = crate::bookmark::within(p as usize, from, to);
    reveal_with_fuel(crate::bookmark::covered_parts, 2);
    let covered = crate::bookmark::covered_text(paragraph, view, p as usize, from, to);
    let parts = crate::bookmark::covered_parts(body, view, from, to, p + 1);
    assert(parts =~= seq![covered]);
    assert(runs.take(runs.len() as int) =~= runs);
    assert(keep(runs[i]));
    lemma_kept_run(runs, keep, runs.len() as int, i)
}

proof fn lemma_first_use(items: Seq<Seq<char>>, n: int)
    requires
        0 <= n <= items.len(),
    ensures
        ({
            let early = crate::bookmark::distinct(items.take(n));
            let all = crate::bookmark::distinct(items);
            &&& early.len() <= all.len()
            &&& all.take(early.len() as int) == early
        }),
    decreases items.len() - n,
{
    let early = crate::bookmark::distinct(items.take(n));
    let all = crate::bookmark::distinct(items);
    if n == items.len() {
        assert(items.take(n) =~= items);
        assert(all.take(early.len() as int) =~= early);
    } else {
        lemma_first_use(items, n + 1);
        let next = crate::bookmark::distinct(items.take(n + 1));
        assert(items.take(n + 1).drop_last() =~= items.take(n));
        assert(next.take(early.len() as int) =~= early);
        assert(all.take(early.len() as int) =~= next.take(early.len() as int));
    }
}

/// Bookmarks whose pages are asked for are numbered in the order in which they are
/// first asked for: of two names, the one that is asked for before the other was has
/// the smaller number.
pub proof fn law_numbers_follow_the_first_use(
    input: LayoutInput,
    a: Seq<char>,
    b: Seq<char>,
    n: int,
)
    requires
        0 <= n < crate::bookmark::document_refs(input).len(),
        crate::bookmark::document_refs(input).take(n).contains(a),
        !crate::bookmark::document_refs(input).take(n).contains(b),
        crate::bookmark::document_refs(input).contains(b),
    ensures
        crate::bookmark::page_ref_place(input, a) is Some,
        crate::bookmark::page_ref_place(input, b) is Some,
        0 <= crate::bookmark::page_ref_place(input, a)->Some_0 < crate::bookmark::page_ref_place(
            input,
            b,
        )->Some_0,
{
    let refs = crate::bookmark::document_refs(input);
    let all = crate::bookmark::distinct(refs);
    let early = crate::bookmark::distinct(refs.take(n));
    lemma_first_use(refs, n);
    crate::bookmark::lemma_distinct(refs.take(n));
    crate::bookmark::lemma_distinct(refs);
    crate::bookmark::law_page_references_are_numbered_apart(input, a, b);
    crate::bookmark::law_page_references_are_numbered_apart(input, b, a);
    assert(early.contains(a));
    let i = choose|i: int| 0 <= i < early.len() && early[i] == a;
    assert(all.take(early.len() as int)[i] == all[i]);
    assert(crate::bookmark::page_ref_place(input, a) == Some(i));
    let j = crate::bookmark::page_ref_place(input, b)->Some_0;
    assert(all[j] == b);
    if j < early.len() {
        assert(all.take(early.len() as int)[j] == early[j]);
        assert(early.contains(b));
    }
}

/// Numbers are given without gaps from 0 on: the first name that is asked for has
/// the number 0, and there are no more numbers than names.
pub proof fn law_numbers_start_at_zero(input: LayoutInput, name: Seq<char>)
    requires
        crate::bookmark::document_refs(input).len() > 0,
    ensures
        crate::bookmark::page_ref_place(input, crate::bookmark::document_refs(input)[0]) == Some(
            0int,
        ),
        crate::bookmark::page_ref_place(input, name) is Some ==> 0
            <= crate::bookmark::page_ref_place(input, name)->Some_0
            < crate::bookmark::document_refs(input).len(),
{
    let refs = crate::bookmark::document_refs(input);
    let all = crate::bookmark::distinct(refs);
    lemma_first_use(refs, 1);
    crate::bookmark::lemma_distinct(refs);
    reveal_with_fuel(crate::bookmark::distinct, 2);
    assert(refs.take(1).drop_last() =~= Seq::empty());
    let early = crate::bookmark::distinct(refs.take(1));
    assert(early =~= seq![refs[0]]);
    assert(all.take(1)[0] == all[0]);
    crate::bookmark::law_page_references_are_numbered_apart(input, refs[0], name);
    crate::bookmark::law_page_references_are_numbered_apart(input, name, name);
    if let Some(j) = crate::bookmark::page_ref_place(input, name) {
        assert(all[j] == name);
    }
}

} // verus!
