use std::rc::Rc;

use rdocx_layout::convert::{
    alignment, alignment_for_direction, line_break_params, line_height, line_spacing, tab_stops,
    underline, Align, LineHeight, LineSpacing, TabAlign, TextDirection, Underline,
};
use rdocx_layout::document::{
    Justification, ParagraphFormat, TabDefinition, TabFill, TabKind, UnderlineKind,
};
use rdocx_layout::segments::{
    break_ranges, is_hangul, slice_text_segment, split_segment, text_segments, SourceSpan,
    TextSegment,
};
use rdocx_layout::units::{Emu, HalfPoint, TextUnit, Twips};

#[test]
fn every_word_alignment_maps_to_the_shared_alignment() {
    let cases = [
        (Justification::Start, Align::Start),
        (Justification::Left, Align::Start),
        (Justification::Center, Align::Center),
        (Justification::End, Align::End),
        (Justification::Right, Align::End),
        (Justification::Both, Align::Justify),
        (Justification::Distribute, Align::Distribute),
    ];
    for (word, shared) in cases {
        assert_eq!(alignment(Some(word)), Some(shared));
    }
    assert_eq!(alignment(None), None);
}

#[test]
fn logical_alignment_uses_the_paragraph_base_direction() {
    assert_eq!(
        alignment_for_direction(Some(Justification::Start), TextDirection::RightToLeft),
        Some(Align::End)
    );
    assert_eq!(
        alignment_for_direction(Some(Justification::End), TextDirection::RightToLeft),
        Some(Align::Start)
    );
    assert_eq!(
        alignment_for_direction(Some(Justification::Left), TextDirection::RightToLeft),
        Some(Align::Start)
    );
    assert_eq!(
        alignment_for_direction(Some(Justification::Right), TextDirection::LeftToRight),
        Some(Align::End)
    );
}

#[test]
fn every_word_tab_and_leader_maps_without_rounding_its_position() {
    let cases = [
        (TabKind::Left, TabAlign::Left),
        (TabKind::Center, TabAlign::Center),
        (TabKind::Right, TabAlign::Right),
        (TabKind::Decimal, TabAlign::Decimal),
        (TabKind::Bar, TabAlign::Bar),
        (TabKind::Num, TabAlign::Decimal),
    ];
    let leaders = [
        TabFill::Blank,
        TabFill::Dot,
        TabFill::Hyphen,
        TabFill::Underscore,
        TabFill::Heavy,
        TabFill::MiddleDot,
    ];

    for ((word_align, shared_align), leader) in cases.into_iter().zip(leaders) {
        let converted = tab_stops(&vec![TabDefinition {
            val: word_align,
            pos: Twips(1),
            leader: Some(leader),
        }]);
        assert_eq!(converted.len(), 1);
        assert_eq!(converted[0].align, shared_align);
        assert_eq!(converted[0].leader, Some(leader));
        assert!((f64::from(converted[0].pos.0) / 20.0 - 0.05).abs() < f64::EPSILON);
    }

    assert!(tab_stops(&vec![TabDefinition {
        val: TabKind::Clear,
        pos: Twips(720),
        leader: None,
    }])
    .is_empty());
}

#[test]
fn every_rendered_word_underline_maps_to_the_shared_style() {
    let cases = [
        (UnderlineKind::Single, Underline::Single),
        (UnderlineKind::Words, Underline::Words),
        (UnderlineKind::Double, Underline::Double),
        (UnderlineKind::Thick, Underline::Thick),
        (UnderlineKind::Dotted, Underline::Dotted),
        (UnderlineKind::Dash, Underline::Dash),
        (UnderlineKind::DotDash, Underline::DotDash),
        (UnderlineKind::DotDotDash, Underline::DotDotDash),
        (UnderlineKind::Wave, Underline::Wave),
    ];
    for (word, shared) in cases {
        assert_eq!(underline(Some(word)), Some(shared));
    }
    assert_eq!(underline(Some(UnderlineKind::NoUnderline)), None);
    assert_eq!(underline(None), None);
}

fn spaced(line_spacing: Option<Twips>, rule: Option<&str>) -> ParagraphFormat {
    ParagraphFormat {
        line_spacing,
        line_rule: rule.map(str::to_owned),
        ..Default::default()
    }
}

#[test]
fn every_word_line_spacing_rule_maps_exactly() {
    // 1 twip is 0.05 points, 480 are 24; 360/240 is 1.5 and 240/240 is 1.
    let cases = [
        (Some(Twips(1)), Some("exact"), LineSpacing::Exact(Twips(1))),
        (Some(Twips(480)), Some("atLeast"), LineSpacing::AtLeast(Twips(480))),
        (Some(Twips(360)), Some("auto"), LineSpacing::Multiple(360)),
        (Some(Twips(240)), None, LineSpacing::Multiple(240)),
        (None, None, LineSpacing::Single),
    ];
    for (spacing, rule, expected) in cases {
        assert_eq!(line_spacing(&spaced(spacing, rule)), expected);
    }
    assert_eq!(line_spacing(&spaced(Some(Twips(480)), Some("font-natural"))), LineSpacing::Single);
}

#[test]
fn every_line_height_rule_follows_the_spacing() {
    assert_eq!(line_height(&spaced(Some(Twips(480)), Some("auto"))), LineHeight::Multiple(480));
    assert_eq!(line_height(&spaced(Some(Twips(300)), Some("exact"))), LineHeight::Exact(Twips(300)));
    assert_eq!(
        line_height(&spaced(Some(Twips(300)), Some("atLeast"))),
        LineHeight::AtLeast(Twips(300))
    );
    assert_eq!(line_height(&spaced(None, Some("exact"))), LineHeight::Glyphs);
    assert_eq!(line_height(&spaced(None, None)), LineHeight::Glyphs);
    assert_eq!(
        line_height(&spaced(Some(Twips(300)), Some("font-natural"))),
        LineHeight::Untouched
    );
}

#[test]
fn word_auto_spacing_uses_glyph_height_not_point_size() {
    // The glyphs of the line reach 10 points up and 3 down; its own height is 12.
    let (ascent, descent) = (10.0, 3.0);
    match line_height(&spaced(Some(Twips(480)), Some("auto"))) {
        LineHeight::Multiple(spacing) => {
            let height: f64 = (ascent + descent) * f64::from(spacing) / 240.0;
            assert_eq!(height, 26.0);
        }
        other => panic!("expected a multiple without a line gap, not {other:?}"),
    }
}

#[test]
fn word_line_parameters_keep_wrap_enabled() {
    // 321 points.
    let params = line_break_params(&ParagraphFormat::default(), Emu(321 * 12_700));
    assert_eq!(params.available_width, Emu(321 * 12_700));
    assert!(params.wrap);
}

#[test]
fn line_parameters_hold_what_the_paragraph_states() {
    let format = ParagraphFormat {
        ind_left: Some(Twips(100)),
        ind_right: Some(Twips(200)),
        ind_first_line: Some(Twips(300)),
        ind_hanging: Some(Twips(400)),
        jc: Some(Justification::Both),
        line_rule: Some("font-natural".to_owned()),
        tabs: Some(Rc::new(vec![
            TabDefinition { val: TabKind::Clear, pos: Twips(10), leader: None },
            TabDefinition { val: TabKind::Num, pos: Twips(20), leader: None },
        ])),
        ..Default::default()
    };
    let params = line_break_params(&format, Emu(7));
    assert_eq!(params.ind_left, Twips(100));
    assert_eq!(params.ind_right, Twips(200));
    assert_eq!(params.ind_first_line, Twips(300));
    assert_eq!(params.ind_hanging, Twips(400));
    assert_eq!(params.jc, Some(Align::Justify));
    assert_eq!(params.tab_stops.len(), 1);
    assert_eq!(params.tab_stops[0].pos, Twips(20));
    assert_eq!(params.default_tab_interval, Twips(720));
    assert!(params.hangul_word_wrap);
    assert_eq!(params.line_spacing, LineSpacing::Single);
    assert!(!line_break_params(&ParagraphFormat::default(), Emu(7)).hangul_word_wrap);
}

#[test]
fn word_text_preserves_pre_cutover_glyph_slices_at_wrap_boundaries() {
    let segment = TextSegment {
        text: "one two".to_string(),
        source: Some(SourceSpan { node: 3, char_start: 20, char_end: 27 }),
        glyph_ids: (1..=7).collect(),
        advances: vec![1.0, 2.0, 3.0, 4.0, 5.0, 6.0, 7.0],
        style: 1,
    };
    let items = text_segments(segment, false);
    assert_eq!(items.len(), 2);
    let first = &items[0];
    assert_eq!(first.text, "one ");
    assert_eq!(first.glyph_ids, vec![1, 2, 3, 4]);
    assert_eq!(first.advances.iter().sum::<f64>(), 10.0);
    assert_eq!(first.source, Some(SourceSpan { node: 3, char_start: 20, char_end: 24 }));
    let second = &items[1];
    assert_eq!(second.source.expect("second source").char_start, 24);
    assert_eq!(second.source.expect("second source").char_end, 27);
    assert_eq!(second.text, "two");
    assert_eq!(second.style, 1);
}

#[test]
fn word_unicode_split_counts_scalars_instead_of_utf8_bytes() {
    let segment = TextSegment {
        text: "A🚀界Z".to_owned(),
        source: Some(SourceSpan { node: 9, char_start: 100, char_end: 104 }),
        glyph_ids: vec![1, 2, 3, 4],
        advances: vec![1.0; 4],
        style: 1,
    };

    let middle = slice_text_segment(&segment, 1, 8);
    assert_eq!(middle.text, "🚀界");
    assert_eq!(middle.source, Some(SourceSpan { node: 9, char_start: 101, char_end: 103 }));
    assert_eq!(middle.glyph_ids, vec![2, 3]);
}

fn plain_segment(text: &str) -> TextSegment<u32> {
    let count = text.chars().count();
    TextSegment {
        text: text.to_owned(),
        source: None,
        glyph_ids: (0..count as u16).collect(),
        advances: vec![5; count],
        style: 4,
    }
}

fn texts(parts: &[TextSegment<u32>]) -> Vec<String> {
    parts.iter().map(|part| part.text.clone()).collect()
}

#[test]
fn korean_words_stay_whole_only_where_asked() {
    let text = "가나 다라";
    assert_eq!(texts(&text_segments(plain_segment(text), false)), ["가", "나 ", "다", "라"]);
    assert_eq!(texts(&text_segments(plain_segment(text), true)), ["가나 ", "다라"]);
    let text = "한국어 문서";
    assert_eq!(
        texts(&text_segments(plain_segment(text), false)),
        ["한", "국", "어 ", "문", "서"]
    );
    let parts = text_segments(plain_segment(text), true);
    assert_eq!(texts(&parts), ["한국어 ", "문서"]);
    assert_eq!(parts[0].glyph_ids, vec![0, 1, 2, 3]);
    assert_eq!(parts[1].advances, vec![5, 5]);
}

#[test]
fn keeping_words_whole_matters_only_in_korean() {
    for text in ["two words", "a 가 b", "界界 界", "가-나"] {
        assert_eq!(
            texts(&text_segments(plain_segment(text), true)),
            texts(&text_segments(plain_segment(text), false)),
            "{text}"
        );
    }
}

#[test]
fn spans_of_parts_follow_one_another() {
    for by_word in [false, true] {
        let text = "한국어 A🚀 문서";
        let mut segment = plain_segment(text);
        segment.source = Some(SourceSpan { node: 2, char_start: 7, char_end: 16 });
        let parts = text_segments(segment, by_word);
        let mut next = 7;
        for part in &parts {
            let span = part.source.expect("span");
            assert_eq!(span.node, 2);
            assert_eq!(span.char_start, next);
            assert_eq!(span.char_end - span.char_start, part.text.chars().count());
            next = span.char_end;
        }
        assert_eq!(next, 16);
    }
}

#[test]
fn given_breaks_are_joined_inside_korean_words() {
    // "a " + "가" + "나", with a break after each.
    let breaks: Vec<usize> = vec![2, 5, 8];
    assert_eq!(break_ranges("a 가나", &breaks, false), vec![(0, 2), (2, 5), (5, 8)]);
    assert_eq!(break_ranges("a 가나", &breaks, true), vec![(0, 2), (2, 8)]);
    let parts = split_segment(&plain_segment("a 가나"), &breaks, true);
    assert_eq!(texts(&parts), ["a ", "가나"]);
    assert_eq!(parts[0].glyph_ids, vec![0, 1]);
    assert_eq!(parts[1].glyph_ids, vec![2, 3]);
}

#[test]
fn a_break_inside_a_korean_word_ends_no_range() {
    let breaks: Vec<usize> = vec![3, 6, 9];
    assert_eq!(break_ranges("가나다", &breaks, false), vec![(0, 3), (3, 6), (6, 9)]);
    assert_eq!(break_ranges("가나다", &breaks, true), vec![(0, 9)]);
    assert_eq!(break_ranges("", &Vec::new(), true), vec![]);
}

#[test]
fn segments_keep_the_whole_text() {
    for text in ["", "word", "two words\nand more", "A🚀界Z 가나다 - x"] {
        for by_word in [false, true] {
            let parts = text_segments(plain_segment(text), by_word);
            assert_eq!(texts(&parts).concat(), text);
            assert_eq!(parts.is_empty(), text.is_empty());
        }
    }
}

#[test]
fn missing_glyphs_are_not_made_up() {
    let mut segment = plain_segment("one two");
    segment.glyph_ids = vec![7, 8, 9, 10, 11];
    segment.advances = vec![1, 2];
    let parts = text_segments(segment, false);
    assert_eq!(parts[0].glyph_ids, vec![7, 8, 9, 10]);
    assert_eq!(parts[0].advances, vec![1, 2]);
    assert_eq!(parts[1].glyph_ids, vec![11]);
    assert!(parts[1].advances.is_empty());
}

#[test]
fn hangul_is_told_from_other_scripts() {
    for c in ['\u{1100}', '\u{11ff}', '\u{3130}', '\u{318f}', '\u{a960}', '\u{a97f}', '가', '\u{d7ff}'] {
        assert!(is_hangul(c), "{c:?}");
    }
    for c in ['\u{10ff}', '\u{1200}', '\u{312f}', '\u{3190}', '\u{a95f}', '\u{a980}', '\u{abff}', '\u{e000}', 'A', '界'] {
        assert!(!is_hangul(c), "{c:?}");
    }
}

#[test]
fn units_convert_exactly() {
    assert_eq!(HalfPoint(22).text_units(), TextUnit(220_000));
}
