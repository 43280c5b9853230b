//! What holds of numbers, joined texts, headings and colors as they are written.

use vstd::prelude::*;

use crate::color::{Channels, Color};
use crate::document::{LayoutInput, Paragraph, StyleName};

verus! {

/// The number that decimal digits are read as, from the first to the last.
pub open spec fn read_number(digits: Seq<char>) -> int
    decreases digits.len(),
{
    if digits.len() == 0 {
        0
    } else {
        10 * read_number(digits.drop_last()) + (digits.last() as int - 48)
    }
}

/// A number in decimal notation consists of digits, without a zero before it, and
/// can be read back. A negative number has a minus sign before it.
pub proof fn law_numbers_can_be_read_back(value: nat)
    ensures
        ({
            let digits = crate::text::decimal(value);
            &&& digits.len() > 0
            &&& forall|i: int| 0 <= i < digits.len() ==> '0' <= #[trigger] digits[i] <= '9'
            &&& digits.len() > 1 ==> digits[0] != '0'
            &&& read_number(digits) == value
            &&& crate::text::signed_decimal(value as int) == digits
            &&& value > 0 ==> crate::text::signed_decimal(-(value as int)) == seq!['-'] + digits
        }),
    decreases value,
{
    reveal_with_fuel(read_number, 2);
    let digits = crate::text::decimal(value);
    if value < 10 {
        assert(digits.drop_last() =~= Seq::empty());
    } else {
        law_numbers_can_be_read_back(value / 10);
        let fewer = crate::text::decimal(value / 10);
        assert(digits.drop_last() =~= fewer);
        if fewer.len() == 1 && fewer[0] == '0' {
            assert(fewer.drop_last() =~= Seq::empty());
            assert(read_number(fewer) == 0);
        }
    }
}

/// Joining puts one separator between two parts and none before the first or after
/// the last: one part stays as it is, and the joined parts of two lists are joined
/// by one separator.
pub proof fn law_one_separator_between_two_parts(
    a: Seq<Seq<char>>,
    b: Seq<Seq<char>>,
    separator: char,
)
    ensures
        a.len() == 0 ==> crate::text::joined(a, separator).len() == 0,
        a.len() == 1 ==> crate::text::joined(a, separator) == a[0],
        a.len() > 0 && b.len() > 0 ==> crate::text::joined(a + b, separator)
            == crate::text::joined(a, separator) + seq![separator] + crate::text::joined(
            b,
            separator,
        ),
    decreases b.len(),
{
    if a.len() > 0 && b.len() > 0 {
        let all = a + b;
        assert(all.last() == b.last());
        assert(all.drop_last() =~= a + b.drop_last());
        let whole = crate::text::joined(a, separator) + seq![separator] + crate::text::joined(
            b,
            separator,
        );
        if b.len() == 1 {
            assert(a + b.drop_last() =~= a);
            assert(crate::text::joined(all, separator) =~= whole);
        } else {
            law_one_separator_between_two_parts(a, b.drop_last(), separator);
            assert(crate::text::joined(all, separator) =~= whole);
        }
    }
}

/// Whether a pattern stands at a place of a text.
pub open spec fn stands_at(text: Seq<char>, pattern: Seq<char>, i: int) -> bool {
    &&& 0 <= i
    &&& i + pattern.len() <= text.len()
    &&& forall|k: int| 0 <= k < pattern.len() ==> text[i + k] == #[trigger] pattern[k]
}

/// A pattern is found at the first place from some place on at which it stands, and
/// not found if it stands nowhere.
pub proof fn law_patterns_are_found_where_they_stand(
    text: Seq<char>,
    pattern: Seq<char>,
    from: int,
)
    requires
        0 <= from,
    ensures
        match crate::text::find_from(text, pattern, from) {
            Some(i) => from <= i && stands_at(text, pattern, i) && forall|j: int|
                from <= j < i ==> !#[trigger] stands_at(text, pattern, j),
            None => forall|j: int| from <= j ==> !#[trigger] stands_at(text, pattern, j),
        },
    decreases text.len() + 1 - from,
{
    if from + pattern.len() <= text.len() {
        let here = text.subrange(from, from + pattern.len());
        if here == pattern {
            assert forall|k: int| 0 <= k < pattern.len() implies text[from + k]
                == #[trigger] pattern[k] by {
                assert(here[k] == pattern[k]);
            }
        } else {
            assert(!stands_at(text, pattern, from)) by {
                if stands_at(text, pattern, from) {
                    assert(here =~= pattern);
                }
            }
            law_patterns_are_found_where_they_stand(text, pattern, from + 1);
        }
    }
}

/// Whether a background element is written with a color after a name: the name, an
/// equals sign and a quotation mark stand there first at `i`, and then come the
/// color and the next quotation mark.
pub open spec fn writes_color(
    xml: Seq<char>,
    pattern: Seq<char>,
    i: int,
    hex: Seq<char>,
) -> bool {
    &&& stands_at(xml, pattern, i)
    &&& forall|j: int| 0 <= j < i ==> !#[trigger] stands_at(xml, pattern, j)
    &&& stands_at(xml, hex.push('"'), i + pattern.len())
    &&& forall|k: int| 0 <= k < hex.len() ==> #[trigger] hex[k] != '"'
}

proof fn lemma_color_after(xml: Seq<char>, pattern: Seq<char>, i: int, hex: Seq<char>)
    ensures
        writes_color(xml, pattern, i, hex) ==> crate::color::quoted_after(xml, pattern) == Some(
            hex,
        ),
        (forall|j: int| 0 <= j ==> !#[trigger] stands_at(xml, pattern, j))
            ==> crate::color::quoted_after(xml, pattern) is None,
{
    law_patterns_are_found_where_they_stand(xml, pattern, 0);
    if writes_color(xml, pattern, i, hex) {
        let from = i + pattern.len();
        let quote = seq!['"'];
        let found = crate::text::find_from(xml, pattern, 0)->Some_0;
        assert(found == i) by {
            if found < i {
                assert(!stands_at(xml, pattern, found));
            }
        }
        law_patterns_are_found_where_they_stand(xml, quote, from);
        let tail = hex.push('"');
        assert forall|j: int| from <= j < from + hex.len() implies !#[trigger] stands_at(
            xml,
            quote,
            j,
        ) by {
            assert(xml[from + (j - from)] == tail[j - from]);
            assert(hex[j - from] != '"');
            if stands_at(xml, quote, j) {
                assert(xml[j + 0] == quote[0]);
            }
        }
        assert(stands_at(xml, quote, from + hex.len())) by {
            assert(xml[from + hex.len()] == tail[hex.len() as int]);
        }
        let end = crate::text::find_from(xml, quote, from)->Some_0;
        assert(end == from + hex.len()) by {
            if end < from + hex.len() {
                assert(!stands_at(xml, quote, end));
            } else if end > from + hex.len() {
                assert(!stands_at(xml, quote, from + hex.len()));
            }
        }
        assert forall|k: int| 0 <= k < hex.len() implies xml[from + k] == #[trigger] hex[k] by {
            assert(xml[from + k] == tail[k]);
        }
        assert(xml.subrange(from, end) =~= hex);
    }
}

/// The color of a background element: the six bytes in quotation marks after its
/// first `w:color`; or, if there are none, those after its first `color`; and no
/// color if it names neither.
pub proof fn law_backgrounds_have_the_color_that_is_written(
    xml: Seq<char>,
    i: int,
    hex: Seq<char>,
)
    ensures
        ({
            let six = vstd::utf8::encode_utf8(hex).len() == 6;
            let first = "w:color=\""@;
            let second = "color=\""@;
            let no_first = forall|j: int| 0 <= j ==> !#[trigger] stands_at(xml, first, j);
            let no_second = forall|j: int| 0 <= j ==> !#[trigger] stands_at(xml, second, j);
            &&& writes_color(xml, first, i, hex) && six ==> crate::color::background_hex(xml)
                == Some(hex)
            &&& no_first && writes_color(xml, second, i, hex) && six
                ==> crate::color::background_hex(xml) == Some(hex)
            &&& no_first && writes_color(xml, second, i, hex) && !six
                ==> crate::color::background_hex(xml) is None
            &&& no_first && no_second ==> crate::color::background_hex(xml) is None
        }),
{
    lemma_color_after(xml, "w:color=\""@, i, hex);
    lemma_color_after(xml, "color=\""@, i, hex);
}

/// A hexadecimal digit, in capital or in small letters.
pub open spec fn hex_char(value: int, capital: bool) -> u8 {
    if value < 10 {
        (48 + value) as u8
    } else if capital {
        (55 + value) as u8
    } else {
        (87 + value) as u8
    }
}

/// The bytes of a color: its channels, each as two hexadecimal digits.
pub open spec fn written_color(red: u8, green: u8, blue: u8, capital: bool) -> Seq<u8> {
    seq![
        hex_char(red as int / 16, capital),
        hex_char(red as int % 16, capital),
        hex_char(green as int / 16, capital),
        hex_char(green as int % 16, capital),
        hex_char(blue as int / 16, capital),
        hex_char(blue as int % 16, capital),
    ]
}

proof fn lemma_hex_pair(value: u8, capital: bool)
    ensures
        crate::color::hex_pair(
            hex_char(value as int / 16, capital),
            hex_char(value as int % 16, capital),
        ) == value,
{
    let high = value as int / 16;
    let low = value as int % 16;
    assert(0 <= high < 16 && 0 <= low < 16);
    assert(crate::color::hex_digit(hex_char(high, capital)) == Some(high as u32));
    assert(crate::color::hex_digit(hex_char(low, capital)) == Some(low as u32));
}

/// A color that is written in six hexadecimal digits is read back: red first, then
/// green, then blue, in capital or small letters, with or without number signs
/// before it, and whatever follows. Fewer than six digits are black.
pub proof fn law_written_colors_are_read_back(
    hex: String,
    red: u8,
    green: u8,
    blue: u8,
    capital: bool,
    hashes: nat,
    rest: Seq<u8>,
)
    ensures
        ({
            let bytes = vstd::utf8::encode_utf8(hex@);
            let signs = Seq::new(hashes, |i: int| 0x23u8);
            let channels = Color::Hex(hex).spec_channels();
            &&& bytes == signs + written_color(red, green, blue, capital) + rest ==> channels
                == (Channels {
                red: (1000 * red) as u32,
                green: (1000 * green) as u32,
                blue: (1000 * blue) as u32,
            })
            &&& bytes.len() < 6 ==> channels == (Channels { red: 0, green: 0, blue: 0 })
        }),
{
    let bytes = vstd::utf8::encode_utf8(hex@);
    let signs = Seq::new(hashes, |i: int| 0x23u8);
    let digits = written_color(red, green, blue, capital) + rest;
    lemma_hex_pair(red, capital);
    lemma_hex_pair(green, capital);
    lemma_hex_pair(blue, capital);
    lemma_after_hashes(hashes, digits);
    lemma_hashes_shorten(bytes);
    if bytes == signs + written_color(red, green, blue, capital) + rest {
        assert(bytes =~= signs + digits);
    }
}

proof fn lemma_after_hashes(hashes: nat, digits: Seq<u8>)
    requires
        digits.len() > 0,
        digits[0] != 0x23,
    ensures
        crate::color::after_hashes(Seq::new(hashes, |i: int| 0x23u8) + digits) == digits,
    decreases hashes,
{
    let all = Seq::new(hashes, |i: int| 0x23u8) + digits;
    if hashes > 0 {
        let fewer = (hashes - 1) as nat;
        lemma_after_hashes(fewer, digits);
        assert(all[0] == 0x23);
        assert(all.drop_first() =~= Seq::new(fewer, |i: int| 0x23u8) + digits);
    } else {
        assert(all =~= digits);
    }
}

proof fn lemma_hashes_shorten(bytes: Seq<u8>)
    ensures
        crate::color::after_hashes(bytes).len() <= bytes.len(),
    decreases bytes.len(),
{
    if bytes.len() > 0 && bytes[0] == 0x23 {
        lemma_hashes_shorten(bytes.drop_first());
    }
}

/// The digits of a level are all digits, and their value is that which is read.
proof fn lemma_value(digits: Seq<char>)
    requires
        forall|i: int| 0 <= i < digits.len() ==> '0' <= #[trigger] digits[i] <= '9',
    ensures
        crate::heading::digits_value(digits) == read_number(digits),
        read_number(digits) >= 0,
    decreases digits.len(),
{
    if digits.len() > 0 {
        lemma_value(digits.drop_last());
        assert('0' <= digits[digits.len() - 1] <= '9');
    }
}

/// Whether a text is a number: digits, and at least one, after an optional plus
/// sign.
pub open spec fn is_number(text: Seq<char>) -> bool {
    let from: int = if text.len() > 0 && text[0] == '+' {
        1
    } else {
        0
    };
    &&& text.len() > from
    &&& forall|i: int| from <= i < text.len() ==> '0' <= #[trigger] text[i] <= '9'
}

/// The number that a text is.
pub open spec fn number_of(text: Seq<char>) -> int {
    if text.len() > 0 && text[0] == '+' {
        read_number(text.skip(1))
    } else {
        read_number(text)
    }
}

/// A text states a heading level exactly if it is a number from 1 to 9, and then it
/// states that number.
pub proof fn law_levels_are_numbers_from_one_to_nine(text: Seq<char>)
    ensures
        is_number(text) && 1 <= number_of(text) <= 9 ==> crate::heading::stated_level(text)
            is Some && crate::heading::stated_level(text)->Some_0 == number_of(text),
        !(is_number(text) && 1 <= number_of(text) <= 9) ==> crate::heading::stated_level(
            text,
        ) is None,
{
    let digits = crate::heading::unsigned(text);
    let from: int = if text.len() > 0 && text[0] == '+' {
        1
    } else {
        0
    };
    assert(digits =~= text.skip(from));
    assert(text.skip(0) =~= text);
    if is_number(text) {
        assert forall|i: int| 0 <= i < digits.len() implies '0' <= #[trigger] digits[i] <= '9' by {
            assert(digits[i] == text[from + i]);
        }
        lemma_value(digits);
        assert(crate::heading::all_digits(digits)) by {
            assert forall|i: int| 0 <= i < digits.len() implies crate::heading::is_digit(
                #[trigger] digits[i],
            ) by {}
        }
    } else if digits.len() > 0 && crate::heading::all_digits(digits) {
        assert forall|i: int| from <= i < text.len() implies '0' <= #[trigger] text[i] <= '9' by {
            assert(crate::heading::is_digit(digits[i - from]));
        }
    }
}

/// Whether the style at an index is the one with an id, the first that has it.
pub open spec fn is_style(styles: Seq<StyleName>, id: Seq<char>, s: int) -> bool {
    &&& 0 <= s < styles.len()
    &&& styles[s].id@ == id
    &&& forall|m: int| 0 <= m < s ==> (#[trigger] styles[m]).id@ != id
}

/// A paragraph whose style has an id `Heading` with a number after it is a heading
/// of that level, and no heading if something else follows; with any other id, the
/// name of the style decides: `heading`, a space and the number. A paragraph
/// without a style is no heading.
pub proof fn law_headings_are_named_so(
    styles: Seq<StyleName>,
    paragraph: Paragraph,
    id: Seq<char>,
    rest: Seq<char>,
    s: int,
)
    ensures
        ({
            let level = crate::heading::heading_level(styles, paragraph);
            let named = paragraph.properties is Some && paragraph.properties->Some_0.style_id
                is Some && paragraph.properties->Some_0.style_id->Some_0@ == id;
            let unnamed = paragraph.properties is None
                || paragraph.properties->Some_0.style_id is None;
            let other = !stands_at(id, "Heading"@, 0);
            let name = styles[s].name;
            &&& named && id == "Heading"@ + rest ==> level == crate::heading::stated_level(rest)
            &&& named && other && is_style(styles, id, s) && name is Some && name->Some_0@
                == "heading "@ + rest ==> level == crate::heading::stated_level(rest)
            &&& named && other && is_style(styles, id, s) && name is None ==> level is None
            &&& named && other && is_style(styles, id, s) && name is Some && !stands_at(
                name->Some_0@,
                "heading "@,
                0,
            ) ==> level is None
            &&& named && other && (forall|m: int|
                0 <= m < styles.len() ==> (#[trigger] styles[m]).id@ != id) ==> level is None
            &&& unnamed ==> level is None
        }),
{
    let holds = crate::heading::has_id(id);
    crate::text::lemma_first_from(styles, holds, 0);
    lemma_after_prefix(id, "Heading"@, rest);
    if 0 <= s < styles.len() {
        if let Some(name) = styles[s].name {
            lemma_after_prefix(name@, "heading "@, rest);
        }
    }
    match crate::text::first_where(styles, holds) {
        Some(i) => {
            assert(holds(styles[i]));
            if is_style(styles, id, s) {
                if i < s {
                    assert(styles[i].id@ != id);
                } else if s < i {
                    assert(!holds(styles[s]));
                }
            }
        },
        None => {
            if is_style(styles, id, s) {
                assert(!holds(styles[s]));
            }
        },
    }
}

proof fn lemma_after_prefix(text: Seq<char>, prefix: Seq<char>, rest: Seq<char>)
    ensures
        text == prefix + rest ==> crate::heading::after_prefix(text, prefix) == Some(rest),
        !stands_at(text, prefix, 0) ==> crate::heading::after_prefix(text, prefix) is None,
{
    if text == prefix + rest {
        assert(text.take(prefix.len() as int) =~= prefix);
        assert(text.skip(prefix.len() as int) =~= rest);
    }
    if crate::heading::after_prefix(text, prefix) is Some {
        let start = text.take(prefix.len() as int);
        assert forall|k: int| 0 <= k < prefix.len() implies text[0 + k] == #[trigger] prefix[k] by {
            assert(start[k] == prefix[k]);
        }
    }
}

/// A heading stands in the outline with its level and the text that the view shows
/// of its paragraph, and nothing else does.
pub proof fn law_headings_show_their_text(input: LayoutInput, paragraph: Paragraph)
    ensures
        ({
            let heading = crate::engine::heading_of(input, paragraph);
            let level = crate::heading::heading_level(input.styles@, paragraph);
            &&& heading is Some <==> level is Some
            &&& heading is Some ==> heading->Some_0.level == level->Some_0
            &&& heading is Some ==> heading->Some_0.text == crate::revision::projected_text(
                crate::revision::projection(paragraph, input.revision_view),
            )
        }),
{
}

} // verus!
