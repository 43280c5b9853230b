//! Headings, for the outline of a document.

use vstd::prelude::*;

use crate::document::{Paragraph, StyleName};
use crate::text::{chars_of, str_eq};

verus! {

/// Whether a character is a decimal digit.
pub open spec fn is_digit(c: char) -> bool {
    '0' <= c && c <= '9'
}

/// Whether every character is a decimal digit.
pub open spec fn all_digits(digits: Seq<char>) -> bool {
    forall|i: int| 0 <= i < digits.len() ==> is_digit(#[trigger] digits[i])
}

/// A text without the plus sign that it may begin with.
pub open spec fn unsigned(text: Seq<char>) -> Seq<char> {
    if text.len() > 0 && text[0] == '+' {
        text.drop_first()
    } else {
        text
    }
}

/// The value of decimal digits.
pub open spec fn digits_value(digits: Seq<char>) -> nat
    decreases digits.len(),
{
    if digits.len() == 0 {
        0
    } else {
        digits_value(digits.drop_last()) * 10 + (digits.last() as nat - '0' as nat) as nat
    }
}

/// The level that a text states: a decimal number from 1 to 9, with an optional
/// plus sign and any number of zeros before it.
pub open spec fn stated_level(text: Seq<char>) -> Option<u32> {
    let digits = unsigned(text);
    if digits.len() > 0 && all_digits(digits) && 1 <= digits_value(digits) <= 9 {
        Some(digits_value(digits) as u32)
    } else {
        None
    }
}

/// The text after a prefix.
pub open spec fn after_prefix(text: Seq<char>, prefix: Seq<char>) -> Option<Seq<char>> {
    if prefix.len() <= text.len() && text.take(prefix.len() as int) == prefix {
        Some(text.skip(prefix.len() as int))
    } else {
        None
    }
}

/// The condition that a style has an id.
pub open spec fn has_id(id: Seq<char>) -> spec_fn(StyleName) -> bool {
    |style: StyleName| style.id@ == id
}

/// The name of a style.
pub open spec fn style_name(styles: Seq<StyleName>, id: Seq<char>) -> Option<Seq<char>> {
    match crate::text::first_where(styles, has_id(id)) {
        Some(i) => crate::text::opt_view(styles[i].name),
        None => None,
    }
}

/// The level of a heading style. An id that begins with `Heading` decides alone;
/// otherwise the name of the style does.
pub open spec fn style_level(styles: Seq<StyleName>, id: Seq<char>) -> Option<u32> {
    match after_prefix(id, "Heading"@) {
        Some(rest) => stated_level(rest),
        None => match style_name(styles, id) {
            Some(name) => match after_prefix(name, "heading "@) {
                Some(rest) => stated_level(rest),
                None => None,
            },
            None => None,
        },
    }
}

/// The heading level of a paragraph.
pub open spec fn heading_level(styles: Seq<StyleName>, paragraph: Paragraph) -> Option<u32> {
    match paragraph.properties {
        Some(properties) => match properties.style_id {
            Some(id) => style_level(styles, id@),
            None => None,
        },
        None => None,
    }
}

/// More digits never make a smaller number.
proof fn lemma_value_grows(digits: Seq<char>, i: int)
    requires
        0 <= i <= digits.len(),
        all_digits(digits),
    ensures
        digits_value(digits.take(i)) <= digits_value(digits),
    decreases digits.len() - i,
{
    if i < digits.len() {
        lemma_value_grows(digits, i + 1);
        assert(digits.take(i + 1).drop_last() =~= digits.take(i));
    } else {
        assert(digits.take(i) =~= digits);
    }
}

/// The level that the characters from `from` on state.
fn parse_level(chars: &Vec<char>, from: usize) -> (level: Option<u32>)
    requires
        from <= chars@.len(),
    ensures
        level == stated_level(chars@.skip(from as int)),
{
    let ghost text = chars@.skip(from as int);
    let start = if from < chars.len() && chars[from] == '+' {
        from + 1
    } else {
        from
    };
    let ghost digits = chars@.skip(start as int);
    proof {
        if start > from {
            assert(text.drop_first() =~= digits);
            assert(text[0] == '+');
        } else {
            assert(text == digits);
            assert(text.len() > 0 ==> text[0] == chars@[from as int]);
        }
        assert(digits == unsigned(text));
    }
    if start == chars.len() {
        return None;
    }
    let mut value: u32 = 0;
    let mut i: usize = start;
    proof {
        assert(digits.take(0) =~= Seq::empty());
    }
    while i < chars.len()
        invariant
            start <= i <= chars@.len(),
            digits == chars@.skip(start as int),
            digits == unsigned(chars@.skip(from as int)),
            value <= 9,
            value == digits_value(digits.take(i - start)),
            forall|k: int| 0 <= k < i - start ==> is_digit(#[trigger] digits[k]),
        decreases chars@.len() - i,
    {
        let c = chars[i];
        let ghost at = i - start;
        proof {
            assert(digits[at] == c);
        }
        if c < '0' || c > '9' {
            proof {
                assert(!is_digit(digits[at]));
            }
            return None;
        }
        let next: u32 = value * 10 + (c as u32 - 48);
        proof {
            assert(digits.take(at + 1).drop_last() =~= digits.take(at));
            assert(next == digits_value(digits.take(at + 1)));
        }
        if next > 9 {
            proof {
                if all_digits(digits) {
                    lemma_value_grows(digits, at + 1);
                }
            }
            return None;
        }
        value = next;
        i += 1;
    }
    proof {
        assert(digits.take(i - start) =~= digits);
    }
    if value == 0 {
        None
    } else {
        Some(value)
    }
}

/// The level that a text states after a prefix: `None` without the prefix, and
/// `Some(None)` if no level follows it.
fn level_after(text: &str, prefix: &str) -> (level: Option<Option<u32>>)
    ensures
        level == match after_prefix(text@, prefix@) {
            Some(rest) => Some(stated_level(rest)),
            None => None,
        },
{
    let chars = chars_of(text);
    let start = chars_of(prefix);
    if start.len() > chars.len() {
        return None;
    }
    let mut i: usize = 0;
    while i < start.len()
        invariant
            i <= start@.len() <= chars@.len(),
            chars@ == text@,
            start@ == prefix@,
            chars@.take(i as int) == start@.take(i as int),
        decreases start@.len() - i,
    {
        if chars[i] != start[i] {
            proof {
                assert(text@.take(prefix@.len() as int)[i as int] != prefix@[i as int]);
            }
            return None;
        }
        proof {
            assert(chars@.take(i + 1) =~= chars@.take(i as int).push(chars@[i as int]));
            assert(start@.take(i + 1) =~= start@.take(i as int).push(start@[i as int]));
        }
        i += 1;
    }
    proof {
        assert(start@.take(i as int) =~= start@);
    }
    Some(parse_level(&chars, start.len()))
}

/// The level that the name of a style states.
fn named_level(styles: &Vec<StyleName>, id: &str) -> (level: Option<u32>)
    ensures
        level == match style_name(styles@, id@) {
            Some(name) => match after_prefix(name, "heading "@) {
                Some(rest) => stated_level(rest),
                None => None,
            },
            None => None,
        },
{
    let mut i: usize = 0;
    while i < styles.len()
        invariant
            i <= styles@.len(),
            crate::text::first_where(styles@, has_id(id@)) == crate::text::first_from(
                styles@,
                has_id(id@),
                i as int,
            ),
        decreases styles@.len() - i,
    {
        let style = &styles[i];
        if str_eq(style.id.as_str(), id) {
            proof {
                assert(has_id(id@)(styles@[i as int]));
            }
            return match &style.name {
                Some(name) => match level_after(name.as_str(), "heading ") {
                    Some(level) => level,
                    None => None,
                },
                None => None,
            };
        }
        i += 1;
    }
    None
}

/// Detects whether a paragraph has a heading style, and which level it is.
pub fn detect_heading_level(paragraph: &Paragraph, styles: &Vec<StyleName>) -> (level: Option<u32>)
    ensures
        level == heading_level(styles@, *paragraph),
{
    let id = match &paragraph.properties {
        Some(properties) => match &properties.style_id {
            Some(id) => id.as_str(),
            None => {
                return None;
            },
        },
        None => {
            return None;
        },
    };
    match level_after(id, "Heading") {
        Some(level) => level,
        None => named_level(styles, id),
    }
}

/// A heading level lies between 1 and 9.
pub proof fn law_heading_levels_are_one_to_nine(styles: Seq<StyleName>, paragraph: Paragraph)
    ensures
        match heading_level(styles, paragraph) {
            Some(level) => 1 <= level <= 9,
            None => true,
        },
{
}

} // verus!
