//! Shaped text, cut where a line may be broken.

use vstd::prelude::*;
use vstd::utf8::{decode_utf8, encode_utf8, is_char_boundary, valid_utf8};

verus! {

/// The characters of a document node that a piece of text shows.
#[derive(Debug, Clone, Copy, PartialEq, Eq, Structural)]
pub struct SourceSpan {
    pub node: u64,
    pub char_start: usize,
    pub char_end: usize,
}

/// A piece of shaped text. `L` is the measure of an advance. What all pieces of
/// one run share is found in a table of the caller, at `style`.
#[derive(Debug, PartialEq)]
pub struct TextSegment<L> {
    pub text: String,
    pub source: Option<SourceSpan>,
    pub glyph_ids: Vec<u16>,
    pub advances: Vec<L>,
    pub style: u32,
}

/// A piece of shaped text, as sequences.
pub struct TextSegmentView<L> {
    pub text: Seq<char>,
    pub source: Option<SourceSpan>,
    pub glyph_ids: Seq<u16>,
    pub advances: Seq<L>,
    pub style: u32,
}

impl<L> View for TextSegment<L> {
    type V = TextSegmentView<L>;

    open spec fn view(&self) -> TextSegmentView<L> {
        TextSegmentView {
            text: self.text@,
            source: self.source,
            glyph_ids: self.glyph_ids@,
            advances: self.advances@,
            style: self.style,
        }
    }
}

/// The items from index `from` up to index `to`, as far as there are any.
pub open spec fn clamped<T>(items: Seq<T>, from: nat, to: nat) -> Seq<T> {
    let len = items.len();
    items.subrange(
        if from < len { from as int } else { len as int },
        if to < len { to as int } else { len as int },
    )
}

/// The characters that are encoded from byte `start` up to byte `end` of a text.
pub open spec fn slice_chars(text: Seq<char>, start: int, end: int) -> Seq<char> {
    decode_utf8(encode_utf8(text).subrange(start, end))
}

/// The part of a segment from byte `start` up to byte `end` of its text. One
/// glyph and one advance go with each character.
pub open spec fn segment_slice<L>(
    segment: TextSegmentView<L>,
    start: int,
    end: int,
) -> TextSegmentView<
    L,
> {
    let before = slice_chars(segment.text, 0, start).len();
    let text = slice_chars(segment.text, start, end);
    TextSegmentView {
        text,
        source: match segment.source {
            Some(span) => Some(
                (SourceSpan {
                    node: span.node,
                    char_start: (span.char_start + before) as usize,
                    char_end: (span.char_start + before + text.len()) as usize,
                }),
            ),
            None => None,
        },
        glyph_ids: clamped(segment.glyph_ids, before, before + text.len()),
        advances: clamped(segment.advances, before, before + text.len()),
        style: segment.style,
    }
}

/// Whether the characters that a segment shows can be counted on from its span.
pub open spec fn span_fits<L>(segment: TextSegmentView<L>) -> bool {
    match segment.source {
        Some(span) => span.char_start + segment.text.len() <= usize::MAX,
        None => true,
    }
}

/// Whether a byte offset stands between two characters of a text, or at an end.
pub open spec fn is_cut(text: Seq<char>, offset: int) -> bool {
    is_char_boundary(encode_utf8(text), offset)
}

/// Copies the items from index `from` up to index `to`, as far as there are any.
fn copy_clamped<T: Copy>(items: &Vec<T>, from: usize, to: usize) -> (copy: Vec<T>)
    requires
        from <= to,
    ensures
        copy@ == clamped(items@, from as nat, to as nat),
{
    let start = if from < items.len() { from } else { items.len() };
    let end = if to < items.len() { to } else { items.len() };
    let mut copy: Vec<T> = Vec::new();
    let mut i: usize = start;
    while i < end
        invariant
            start <= i <= end <= items@.len(),
            copy@ == items@.subrange(start as int, i as int),
        decreases end - i,
    {
        copy.push(items[i]);
        proof {
            assert(items@.subrange(start as int, i + 1) == items@.subrange(
                start as int,
                i as int,
            ).push(items@[i as int]));
        }
        i += 1;
    }
    copy
}

/// Two cuts of a text divide it into three parts.
pub proof fn lemma_slices(text: Seq<char>, start: int, end: int)
    requires
        is_cut(text, start),
        is_cut(text, end),
        0 <= start <= end <= encode_utf8(text).len(),
    ensures
        valid_utf8(encode_utf8(text)),
        valid_utf8(encode_utf8(text).subrange(0, end)),
        is_char_boundary(encode_utf8(text).subrange(0, end), start),
        valid_utf8(encode_utf8(text).subrange(start, end)),
        slice_chars(text, 0, end) == slice_chars(text, 0, start) + slice_chars(text, start, end),
        text == slice_chars(text, 0, end) + slice_chars(text, end, encode_utf8(text).len() as int),
{
    let bytes = encode_utf8(text);
    vstd::utf8::encode_utf8_valid_utf8(text);
    vstd::utf8::encode_utf8_decode_utf8(text);
    vstd::utf8::valid_utf8_split(bytes, end);
    vstd::utf8::decode_utf8_split(bytes, end);
    let head = bytes.subrange(0, end);
    if start == end {
        vstd::utf8::is_char_boundary_start_end_of_seq(head);
    } else {
        vstd::utf8::is_char_boundary_iff_not_is_continuation_byte(bytes, start);
        vstd::utf8::is_char_boundary_iff_not_is_continuation_byte(head, start);
        assert(head[start] == bytes[start]);
    }
    vstd::utf8::valid_utf8_split(head, start);
    vstd::utf8::decode_utf8_split(head, start);
    assert(head.subrange(start, head.len() as int) =~= bytes.subrange(start, end));
    assert(head.subrange(0, start) =~= bytes.subrange(0, start));
}

/// The part of a segment from byte `start` up to byte `end` of its text.
pub fn slice_text_segment<L: Copy>(
    segment: &TextSegment<L>,
    start: usize,
    end: usize,
) -> (slice: TextSegment<L>)
    requires
        start <= end <= encode_utf8(segment.text@).len(),
        is_cut(segment.text@, start as int),
        is_cut(segment.text@, end as int),
        span_fits(segment@),
    ensures
        slice@ == segment_slice(segment@, start as int, end as int),
{
    let whole = segment.text.as_str();
    proof {
        lemma_slices(whole@, start as int, end as int);
    }
    let (head, _rest) = whole.split_at(end);
    proof {
        lemma_text_of_bytes(head, encode_utf8(whole@).subrange(0, end as int));
        assert(segment.text@ == slice_chars(whole@, 0, end as int) + slice_chars(
            whole@,
            end as int,
            encode_utf8(whole@).len() as int,
        ));
    }
    let (before, piece) = head.split_at(start);
    proof {
        let bytes = encode_utf8(whole@);
        assert(bytes.subrange(0, end as int).subrange(0, start as int) =~= bytes.subrange(
            0,
            start as int,
        ));
        assert(bytes.subrange(0, end as int).subrange(start as int, end as int) =~= bytes.subrange(
            start as int,
            end as int,
        ));
        lemma_text_of_bytes(before, bytes.subrange(0, start as int));
        lemma_text_of_bytes(piece, bytes.subrange(start as int, end as int));
    }
    let skipped = before.unicode_len();
    let count = piece.unicode_len();
    let up_to = head.unicode_len();
    proof {
        assert(up_to == skipped + count);
    }
    let source = match segment.source {
        Some(span) => Some(
            SourceSpan {
                node: span.node,
                char_start: span.char_start + skipped,
                char_end: span.char_start + skipped + count,
            },
        ),
        None => None,
    };
    TextSegment {
        text: piece.to_owned(),
        source,
        glyph_ids: copy_clamped(&segment.glyph_ids, skipped, up_to),
        advances: copy_clamped(&segment.advances, skipped, up_to),
        style: segment.style,
    }
}

/// The characters of a string are those that its bytes encode.
proof fn lemma_text_of_bytes(text: &str, bytes: Seq<u8>)
    requires
        encode_utf8(text@) == bytes,
    ensures
        text@ == decode_utf8(bytes),
{
    vstd::utf8::encode_utf8_decode_utf8(text@);
}

/// Whether a character belongs to the Korean script, as far as line breaking by
/// words goes.
pub open spec fn hangul(c: char) -> bool {
    let code = c as u32;
    ||| 0x1100 <= code <= 0x11FF
    ||| 0x3130 <= code <= 0x318F
    ||| 0xA960 <= code <= 0xA97F
    ||| 0xAC00 <= code <= 0xD7FF
}

/// Whether a character belongs to the Korean script, as far as line breaking by
/// words goes.
pub fn is_hangul(c: char) -> (yes: bool)
    ensures
        yes == hangul(c),
{
    let code = c as u32;
    (0x1100 <= code && code <= 0x11FF) || (0x3130 <= code && code <= 0x318F) || (0xA960 <= code
        && code <= 0xA97F) || (0xAC00 <= code && code <= 0xD7FF)
}

/// The byte offsets at which the Unicode line breaking rules let a text break.
pub uninterp spec fn line_break_offsets(text: Seq<char>) -> Seq<usize>;

/// Whether offsets into a text rise from one to the next, stand between its
/// characters, and reach its end if there is any text.
pub open spec fn are_breaks(text: Seq<char>, breaks: Seq<usize>) -> bool {
    &&& forall|i: int|
        0 <= i < breaks.len() ==> breaks[i] <= encode_utf8(text).len() && #[trigger] is_cut(
            text,
            breaks[i] as int,
        )
    &&& forall|i: int, j: int| 0 <= i < j < breaks.len() ==> breaks[i] < breaks[j]
    &&& text.len() > 0 ==> breaks.len() > 0 && breaks.last() == encode_utf8(text).len()
}

/// `unicode_linebreak::linebreaks`, without the kind of each break: the offsets
/// are a function of the text. They are offsets of its characters or its
/// length, each greater than the one before, and a text that is not empty ends
/// with a break.
#[verifier::external_body]
fn line_breaks(text: &str) -> (breaks: Vec<usize>)
    ensures
        breaks@ == line_break_offsets(text@),
        are_breaks(text@, breaks@),
{
    unicode_linebreak::linebreaks(text).map(|opportunity| opportunity.0).collect()
}

/// Whether a break stands between two Korean characters.
pub open spec fn inside_hangul(text: Seq<char>, offset: int) -> bool {
    let before = slice_chars(text, 0, offset);
    let after = slice_chars(text, offset, encode_utf8(text).len() as int);
    before.len() > 0 && after.len() > 0 && hangul(before.last()) && hangul(after[0])
}

/// The byte ranges after the first `n` breaks, and where the next one starts.
/// With `by_word`, a break between two Korean characters ends no range: the text
/// before it joins the text after it, so that a word stays whole.
pub open spec fn ranges_after(text: Seq<char>, breaks: Seq<usize>, by_word: bool, n: nat) -> (
    Seq<(usize, usize)>,
    usize,
)
    decreases n,
{
    if n == 0 {
        (Seq::empty(), 0)
    } else {
        let (ranges, start) = ranges_after(text, breaks, by_word, (n - 1) as nat);
        let end = breaks[n - 1];
        if end <= start || (by_word && inside_hangul(text, end as int)) {
            (ranges, start)
        } else {
            (ranges.push((start, end)), end)
        }
    }
}

/// The byte ranges into which breaks divide a text.
pub open spec fn segment_ranges(text: Seq<char>, breaks: Seq<usize>, by_word: bool) -> Seq<
    (usize, usize),
> {
    let ranges = ranges_after(text, breaks, by_word, breaks.len()).0;
    if ranges.len() == 0 && text.len() > 0 {
        seq![(0usize, encode_utf8(text).len() as usize)]
    } else {
        ranges
    }
}

/// Whether a break stands between two Korean characters.
fn breaks_hangul(text: &str, offset: usize) -> (inside: bool)
    requires
        offset <= encode_utf8(text@).len(),
        is_cut(text@, offset as int),
    ensures
        inside == inside_hangul(text@, offset as int),
{
    proof {
        lemma_slices(text@, offset as int, offset as int);
    }
    let (before, after) = text.split_at(offset);
    proof {
        let bytes = encode_utf8(text@);
        lemma_text_of_bytes(before, bytes.subrange(0, offset as int));
        lemma_text_of_bytes(after, bytes.subrange(offset as int, bytes.len() as int));
    }
    let count = before.unicode_len();
    if count == 0 || after.unicode_len() == 0 {
        return false;
    }
    is_hangul(before.get_char(count - 1)) && is_hangul(after.get_char(0))
}

/// A text without bytes has no characters, and one without characters no bytes.
proof fn lemma_empty_text(text: Seq<char>)
    ensures
        (encode_utf8(text).len() == 0) == (text.len() == 0),
{
    vstd::utf8::encode_utf8_decode_utf8(text);
    if encode_utf8(text).len() == 0 {
        assert(encode_utf8(text) =~= Seq::<u8>::empty());
        assert(decode_utf8(Seq::<u8>::empty()).len() == 0);
    }
}

/// The byte ranges into which breaks divide a text.
pub fn break_ranges(text: &str, breaks: &Vec<usize>, by_word: bool) -> (ranges: Vec<(usize, usize)>)
    requires
        are_breaks(text@, breaks@),
    ensures
        ranges@ == segment_ranges(text@, breaks@, by_word),
{
    let mut ranges: Vec<(usize, usize)> = Vec::new();
    let mut start: usize = 0;
    let mut i: usize = 0;
    while i < breaks.len()
        invariant
            i <= breaks@.len(),
            are_breaks(text@, breaks@),
            (ranges@, start) == ranges_after(text@, breaks@, by_word, i as nat),
        decreases breaks@.len() - i,
    {
        let end = breaks[i];
        proof {
            assert(is_cut(text@, breaks@[i as int] as int));
        }
        if end > start && !(by_word && breaks_hangul(text, end)) {
            ranges.push((start, end));
            start = end;
        }
        i += 1;
    }
    if ranges.len() == 0 {
        let length = text.as_bytes().len();
        proof {
            lemma_empty_text(text@);
        }
        if length > 0 {
            ranges.push((0, length));
        }
    }
    proof {
        assert(ranges@ =~= segment_ranges(text@, breaks@, by_word));
    }
    ranges
}

/// After some breaks, the ranges follow one another from the start of the text
/// up to the last break that ends one, none is empty, and they begin and end
/// between characters.
proof fn lemma_ranges_after(text: Seq<char>, breaks: Seq<usize>, by_word: bool, n: nat)
    requires
        are_breaks(text, breaks),
        n <= breaks.len(),
    ensures
        chained(ranges_after(text, breaks, by_word, n).0),
        all_cuts(text, ranges_after(text, breaks, by_word, n).0),
        ({
            let (ranges, start) = ranges_after(text, breaks, by_word, n);
            &&& start == if ranges.len() == 0 { 0 } else { ranges.last().1 }
            &&& n > 0 ==> start <= breaks[n - 1]
            &&& n > 0 && ends_range(text, by_word)(breaks[n - 1]) ==> start == breaks[n - 1]
            &&& range_ends(ranges) == breaks.take(n as int).filter(ends_range(text, by_word))
        }),
    decreases n,
{
    vstd::utf8::encode_utf8_valid_utf8(text);
    vstd::utf8::is_char_boundary_start_end_of_seq(encode_utf8(text));
    reveal(Seq::filter);
    let ends = ends_range(text, by_word);
    if n == 0 {
        assert(range_ends(ranges_after(text, breaks, by_word, 0).0) =~= breaks.take(0).filter(
            ends,
        ));
    } else {
        lemma_ranges_after(text, breaks, by_word, (n - 1) as nat);
        let (before, start) = ranges_after(text, breaks, by_word, (n - 1) as nat);
        let (ranges, end) = ranges_after(text, breaks, by_word, n);
        assert(is_cut(text, breaks[n - 1] as int));
        if n > 1 {
            assert(breaks[n - 2] < breaks[n - 1]);
        }
        assert forall|i: int| 0 <= i < ranges.len() implies range_ok(text, #[trigger] ranges[i]) by {
            if i < before.len() {
                assert(range_ok(text, before[i]));
            }
            if i == ranges.len() - 1 && before.len() > 0 {
                assert(range_ok(text, before.last()));
            }
        }
        assert(breaks.take(n as int).drop_last() =~= breaks.take(n - 1));
        assert(breaks.take(n as int).last() == breaks[n - 1]);
        assert(ends(breaks[n - 1]) == (breaks[n - 1] > 0 && !(by_word && inside_hangul(
            text,
            breaks[n - 1] as int,
        ))));
        assert(breaks[n - 1] > 0 ==> breaks[n - 1] > start);
        if ends(breaks[n - 1]) {
            assert(range_ends(ranges) =~= range_ends(before).push(breaks[n - 1]));
        } else {
            assert(ranges == before);
        }
    }
}

/// Where ranges end.
pub open spec fn range_ends(ranges: Seq<(usize, usize)>) -> Seq<usize> {
    ranges.map_values(|range: (usize, usize)| range.1)
}

/// The condition that a break ends a range: it is not the start of the text, and
/// where words stay whole it is not between two Korean characters.
pub open spec fn ends_range(text: Seq<char>, by_word: bool) -> spec_fn(usize) -> bool {
    |end: usize| end > 0 && !(by_word && inside_hangul(text, end as int))
}

/// No break at the end of a text is between two Korean characters.
proof fn lemma_end_is_no_syllable_break(text: Seq<char>)
    ensures
        !inside_hangul(text, encode_utf8(text).len() as int),
{
    let length = encode_utf8(text).len() as int;
    assert(encode_utf8(text).subrange(length, length) =~= Seq::<u8>::empty());
    assert(decode_utf8(Seq::<u8>::empty()).len() == 0);
}

/// Whether a range begins and ends between characters of a text and holds one.
pub open spec fn range_ok(text: Seq<char>, range: (usize, usize)) -> bool {
    &&& range.0 < range.1 <= encode_utf8(text).len()
    &&& is_cut(text, range.0 as int)
    &&& is_cut(text, range.1 as int)
}

/// Whether every range begins and ends between characters of a text and holds
/// one.
pub open spec fn all_cuts(text: Seq<char>, ranges: Seq<(usize, usize)>) -> bool {
    forall|i: int| 0 <= i < ranges.len() ==> range_ok(text, #[trigger] ranges[i])
}

/// Whether ranges follow one another without a gap, from the start of a text.
pub open spec fn chained(ranges: Seq<(usize, usize)>) -> bool {
    &&& ranges.len() > 0 ==> ranges[0].0 == 0
    &&& forall|i: int| 0 < i < ranges.len() ==> (#[trigger] ranges[i]).0 == ranges[i - 1].1
}

/// The ranges into which breaks divide a text follow one another without a gap
/// from its start to its end; each begins and ends between characters and none
/// is empty.
pub proof fn law_ranges_divide_the_text(text: Seq<char>, breaks: Seq<usize>, by_word: bool)
    requires
        are_breaks(text, breaks),
    ensures
        ({
            let ranges = segment_ranges(text, breaks, by_word);
            &&& chained(ranges)
            &&& all_cuts(text, ranges)
            &&& text.len() > 0 ==> ranges.len() > 0 && ranges.last().1 == encode_utf8(text).len()
            &&& text.len() == 0 ==> ranges.len() == 0
        }),
{
    lemma_ranges_after(text, breaks, by_word, breaks.len());
    lemma_empty_text(text);
    lemma_end_is_no_syllable_break(text);
    if text.len() > 0 {
        assert(ends_range(text, by_word)(breaks[breaks.len() - 1]));
    }
    let ranges = ranges_after(text, breaks, by_word, breaks.len()).0;
    if text.len() == 0 && ranges.len() > 0 {
        assert(range_ok(text, ranges[0]));
    }
}

/// The texts of the ranges.
pub open spec fn range_texts(text: Seq<char>, ranges: Seq<(usize, usize)>) -> Seq<Seq<char>> {
    ranges.map_values(|range: (usize, usize)| slice_chars(text, range.0 as int, range.1 as int))
}

/// The texts of the first ranges make up the text before the last one's end.
proof fn lemma_texts_of_ranges(text: Seq<char>, ranges: Seq<(usize, usize)>)
    requires
        chained(ranges),
        all_cuts(text, ranges),
        ranges.len() > 0,
    ensures
        crate::text::concat(range_texts(text, ranges)) == slice_chars(
            text,
            0,
            ranges.last().1 as int,
        ),
    decreases ranges.len(),
{
    let rest = ranges.drop_last();
    let last = ranges.last();
    assert(range_ok(text, last));
    lemma_slices(text, last.0 as int, last.1 as int);
    assert(range_texts(text, ranges).drop_last() =~= range_texts(text, rest));
    if rest.len() > 0 {
        assert forall|i: int| 0 <= i < rest.len() implies range_ok(text, #[trigger] rest[i]) by {
            assert(range_ok(text, ranges[i]));
        }
        assert forall|i: int| 0 < i < rest.len() implies (#[trigger] rest[i]).0 == rest[i - 1].1 by {
            assert(ranges[i].0 == ranges[i - 1].1);
        }
        lemma_texts_of_ranges(text, rest);
        assert(last.0 == rest.last().1);
    } else {
        assert(rest =~= Seq::empty());
        assert(range_texts(text, rest) =~= Seq::empty());
        assert(encode_utf8(text).subrange(0, 0) =~= Seq::<u8>::empty());
        assert(slice_chars(text, 0, 0) =~= Seq::<char>::empty());
    }
    assert(range_texts(text, ranges).last() == slice_chars(text, last.0 as int, last.1 as int));
    assert(crate::text::concat(range_texts(text, rest)) =~= slice_chars(text, 0, last.0 as int));
}

/// Cutting a text at its breaks loses, repeats and moves nothing: the pieces,
/// one after the other, are the text.
pub proof fn law_segments_keep_the_text(text: Seq<char>, breaks: Seq<usize>, by_word: bool)
    requires
        are_breaks(text, breaks),
    ensures
        crate::text::concat(range_texts(text, segment_ranges(text, breaks, by_word))) == text,
{
    let ranges = segment_ranges(text, breaks, by_word);
    law_ranges_divide_the_text(text, breaks, by_word);
    if text.len() > 0 {
        lemma_texts_of_ranges(text, ranges);
        assert(encode_utf8(text).subrange(0, encode_utf8(text).len() as int) =~= encode_utf8(text));
        vstd::utf8::encode_utf8_decode_utf8(text);
    } else {
        assert(range_texts(text, ranges) =~= Seq::empty());
        assert(text =~= Seq::empty());
    }
}

/// The parts of a text end exactly at its breaks, but for one at its start, and,
/// where words stay whole, but for those between two Korean characters.
pub proof fn law_parts_end_at_breaks(text: Seq<char>, breaks: Seq<usize>, by_word: bool)
    requires
        are_breaks(text, breaks),
    ensures
        range_ends(segment_ranges(text, breaks, by_word)) == breaks.filter(
            ends_range(text, by_word),
        ),
{
    lemma_ranges_after(text, breaks, by_word, breaks.len());
    law_ranges_divide_the_text(text, breaks, by_word);
    assert(breaks.take(breaks.len() as int) =~= breaks);
    if text.len() > 0 {
        lemma_empty_text(text);
        lemma_end_is_no_syllable_break(text);
        assert(ends_range(text, by_word)(breaks[breaks.len() - 1]));
    }
}

/// Where words stay whole, no part ends between two Korean characters.
pub proof fn law_words_stay_whole(text: Seq<char>, breaks: Seq<usize>)
    requires
        are_breaks(text, breaks),
    ensures
        forall|i: int|
            0 <= i < segment_ranges(text, breaks, true).len() ==> !inside_hangul(
                text,
                (#[trigger] segment_ranges(text, breaks, true)[i]).1 as int,
            ),
{
    law_parts_end_at_breaks(text, breaks, true);
    let ranges = segment_ranges(text, breaks, true);
    let ends = ends_range(text, true);
    assert forall|i: int| 0 <= i < ranges.len() implies !inside_hangul(
        text,
        (#[trigger] ranges[i]).1 as int,
    ) by {
        assert(range_ends(ranges)[i] == ranges[i].1);
        breaks.lemma_filter_pred(ends, i);
        assert(ends(ranges[i].1));
    }
}

/// Whether no two characters that follow one another are both Korean.
pub open spec fn has_no_korean_pair(text: Seq<char>) -> bool {
    forall|i: int|
        0 <= i && i + 1 < text.len() ==> !(hangul(#[trigger] text[i]) && hangul(text[i + 1]))
}

/// Where no two Korean characters follow one another, no break is between two.
proof fn lemma_no_korean_pair(text: Seq<char>, offset: int)
    requires
        has_no_korean_pair(text),
        is_cut(text, offset),
        0 <= offset <= encode_utf8(text).len(),
    ensures
        !inside_hangul(text, offset),
{
    lemma_slices(text, offset, offset);
    let before = slice_chars(text, 0, offset);
    let after = slice_chars(text, offset, encode_utf8(text).len() as int);
    if before.len() > 0 && after.len() > 0 {
        assert(text[before.len() - 1] == before.last());
        assert(text[before.len() as int] == after[0]);
    }
}

proof fn lemma_same_ranges(text: Seq<char>, breaks: Seq<usize>, n: nat)
    requires
        are_breaks(text, breaks),
        has_no_korean_pair(text),
        n <= breaks.len(),
    ensures
        ranges_after(text, breaks, true, n) == ranges_after(text, breaks, false, n),
    decreases n,
{
    if n > 0 {
        lemma_same_ranges(text, breaks, (n - 1) as nat);
        assert(is_cut(text, breaks[n - 1] as int));
        lemma_no_korean_pair(text, breaks[n - 1] as int);
    }
}

/// Keeping words whole makes a difference only where two Korean characters
/// follow one another.
pub proof fn law_word_wrap_matters_only_in_korean(text: Seq<char>, breaks: Seq<usize>)
    requires
        are_breaks(text, breaks),
        has_no_korean_pair(text),
    ensures
        segment_ranges(text, breaks, true) == segment_ranges(text, breaks, false),
{
    lemma_same_ranges(text, breaks, breaks.len());
}

/// Whether parts show characters of one node that follow one another from
/// `start` up to `end`, as many as each part has.
pub open spec fn spans_follow<L>(
    parts: Seq<TextSegmentView<L>>,
    node: u64,
    start: usize,
    end: usize,
) -> bool {
    &&& forall|i: int| 0 <= i < parts.len() ==> spans_its_text(#[trigger] parts[i], node)
    &&& parts.len() > 0 ==> parts[0].source->Some_0.char_start == start
    &&& parts.len() > 0 ==> parts.last().source->Some_0.char_end == end
    &&& forall|i: int|
        0 < i < parts.len() ==> (#[trigger] parts[i]).source->Some_0.char_start == parts[i
            - 1].source->Some_0.char_end
}

/// Whether a part shows as many characters of a node as it has.
pub open spec fn spans_its_text<L>(part: TextSegmentView<L>, node: u64) -> bool {
    match part.source {
        Some(span) => span.node == node && span.char_end - span.char_start == part.text.len(),
        None => false,
    }
}

/// The spans of the parts follow one another and cover the span of the whole,
/// counted in characters.
pub proof fn law_spans_follow_one_another<L>(
    segment: TextSegmentView<L>,
    span: SourceSpan,
    breaks: Seq<usize>,
    by_word: bool,
)
    requires
        are_breaks(segment.text, breaks),
        segment.text.len() > 0,
        segment.source == Some(span),
        span.char_end - span.char_start == segment.text.len(),
    ensures
        slices(segment, segment_ranges(segment.text, breaks, by_word)).len() > 0,
        spans_follow(
            slices(segment, segment_ranges(segment.text, breaks, by_word)),
            span.node,
            span.char_start,
            span.char_end,
        ),
{
    let text = segment.text;
    let ranges = segment_ranges(text, breaks, by_word);
    let parts = slices(segment, ranges);
    law_ranges_divide_the_text(text, breaks, by_word);
    let length = encode_utf8(text).len() as int;
    assert forall|i: int| 0 <= i < parts.len() implies spans_its_text(
        #[trigger] parts[i],
        span.node,
    ) && parts[i].source->Some_0.char_start == span.char_start + slice_chars(
        text,
        0,
        ranges[i].0 as int,
    ).len() && parts[i].source->Some_0.char_end == span.char_start + slice_chars(
        text,
        0,
        ranges[i].1 as int,
    ).len() by {
        assert(range_ok(text, ranges[i]));
        lemma_slices(text, ranges[i].0 as int, ranges[i].1 as int);
    }
    assert(encode_utf8(text).subrange(0, 0) =~= Seq::<u8>::empty());
    assert(slice_chars(text, 0, 0).len() == 0);
    assert(encode_utf8(text).subrange(0, length) =~= encode_utf8(text));
    vstd::utf8::encode_utf8_decode_utf8(text);
    assert(parts[0].source->Some_0.char_start == span.char_start);
    let last = parts.len() - 1;
    assert(parts[last].source->Some_0.char_end == span.char_end);
    assert forall|i: int| 0 < i < parts.len() implies (
    #[trigger] parts[i]).source->Some_0.char_start == parts[i - 1].source->Some_0.char_end by {
        assert(ranges[i].0 == ranges[i - 1].1);
        assert(spans_its_text(parts[i - 1], span.node));
    }
}

/// The texts of parts.
pub open spec fn part_texts<L>(parts: Seq<TextSegmentView<L>>) -> Seq<Seq<char>> {
    parts.map_values(|part: TextSegmentView<L>| part.text)
}

/// Whether parts are the whole of a text, none of them empty.
pub open spec fn make_up<L>(parts: Seq<TextSegmentView<L>>, text: Seq<char>) -> bool {
    &&& crate::text::concat(part_texts(parts)) == text
    &&& forall|i: int| 0 <= i < parts.len() ==> (#[trigger] parts[i]).text.len() > 0
    &&& (parts.len() == 0) == (text.len() == 0)
}

/// The parts between the breaks of a segment are its whole text.
pub proof fn law_parts_make_up_the_text<L>(
    segment: TextSegmentView<L>,
    breaks: Seq<usize>,
    by_word: bool,
)
    requires
        are_breaks(segment.text, breaks),
    ensures
        make_up(
            slices(segment, segment_ranges(segment.text, breaks, by_word)),
            segment.text,
        ),
{
    let text = segment.text;
    let ranges = segment_ranges(text, breaks, by_word);
    let parts = slices(segment, ranges);
    law_segments_keep_the_text(text, breaks, by_word);
    law_ranges_divide_the_text(text, breaks, by_word);
    assert(part_texts(parts) =~= range_texts(text, ranges));
    assert forall|i: int| 0 <= i < parts.len() implies (#[trigger] parts[i]).text.len() > 0 by {
        let range = ranges[i];
        assert(range_ok(text, range));
        lemma_slices(text, range.0 as int, range.1 as int);
        let bytes = encode_utf8(text).subrange(range.0 as int, range.1 as int);
        assert(bytes.len() > 0);
        assert(decode_utf8(bytes).len() > 0);
    }
}

/// Pieces of shaped text, as sequences.
pub open spec fn segment_views<L>(segments: Seq<TextSegment<L>>) -> Seq<TextSegmentView<L>> {
    segments.map_values(|segment: TextSegment<L>| segment@)
}

/// The parts of a segment in some ranges of its text.
pub open spec fn slices<L>(segment: TextSegmentView<L>, ranges: Seq<(usize, usize)>) -> Seq<
    TextSegmentView<L>,
> {
    ranges.map_values(
        |range: (usize, usize)| segment_slice(segment, range.0 as int, range.1 as int),
    )
}

/// The parts of a segment between given breaks of its text.
pub fn split_segment<L: Copy>(
    segment: &TextSegment<L>,
    breaks: &Vec<usize>,
    by_word: bool,
) -> (parts: Vec<TextSegment<L>>)
    requires
        are_breaks(segment.text@, breaks@),
        span_fits(segment@),
    ensures
        segment_views(parts@) == slices(
            segment@,
            segment_ranges(segment.text@, breaks@, by_word),
        ),
{
    let length = segment.text.as_str().as_bytes().len();
    let ranges = break_ranges(segment.text.as_str(), breaks, by_word);
    proof {
        law_ranges_divide_the_text(segment.text@, breaks@, by_word);
    }
    let mut parts: Vec<TextSegment<L>> = Vec::new();
    let mut i: usize = 0;
    proof {
        assert(segment_views(parts@) =~= slices(segment@, ranges@.subrange(0, 0)));
    }
    while i < ranges.len()
        invariant
            i <= ranges@.len(),
            all_cuts(segment.text@, ranges@),
            span_fits(segment@),
            segment_views(parts@) == slices(segment@, ranges@.subrange(0, i as int)),
        decreases ranges@.len() - i,
    {
        let range = ranges[i];
        proof {
            assert(range_ok(segment.text@, ranges@[i as int]));
        }
        let part = slice_text_segment(segment, range.0, range.1);
        proof {
            let done = slices(segment@, ranges@.subrange(0, i as int));
            assert(slices(segment@, ranges@.subrange(0, i + 1)) =~= done.push(part@));
            assert(segment_views(parts@.push(part)) =~= segment_views(parts@).push(part@));
        }
        parts.push(part);
        i += 1;
    }
    proof {
        assert(ranges@.subrange(0, i as int) =~= ranges@);
    }
    parts
}

/// The parts of a segment between which a line may be broken. With
/// `hangul_word_wrap`, Korean text breaks between words and not between
/// syllables.
pub fn text_segments<L: Copy>(segment: TextSegment<L>, hangul_word_wrap: bool) -> (parts: Vec<
    TextSegment<L>,
>)
    requires
        span_fits(segment@),
    ensures
        segment_views(parts@) == slices(
            segment@,
            segment_ranges(segment.text@, line_break_offsets(segment.text@), hangul_word_wrap),
        ),
        are_breaks(segment.text@, line_break_offsets(segment.text@)),
        make_up(segment_views(parts@), segment.text@),
{
    let breaks = line_breaks(segment.text.as_str());
    proof {
        law_parts_make_up_the_text(segment@, breaks@, hangul_word_wrap);
    }
    split_segment(&segment, &breaks, hangul_word_wrap)
}

} // verus!
