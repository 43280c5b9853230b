//! Strings as sequences of characters, and the few operations on them that the
//! layout needs.

use vstd::prelude::*;
use vstd::string::StringExecFns;
use vstd::utf8::encode_utf8;

verus! {

/// `String::push`: the character is added at the end of the string.
pub assume_specification[ String::push ](string: &mut String, ch: char)
    ensures
        final(string)@ == old(string)@.push(ch),
;

/// The text of a string that may be missing.
pub open spec fn opt_view(value: Option<String>) -> Option<Seq<char>> {
    match value {
        Some(string) => Some(string@),
        None => None,
    }
}

/// Whether two strings hold the same characters.
pub fn str_eq(a: &str, b: &str) -> (equal: bool)
    ensures
        equal == (a@ == b@),
{
    let left = a.as_bytes();
    let right = b.as_bytes();
    proof {
        vstd::utf8::encode_utf8_decode_utf8(a@);
        vstd::utf8::encode_utf8_decode_utf8(b@);
    }
    if left.len() != right.len() {
        return false;
    }
    let mut i: usize = 0;
    while i < left.len()
        invariant
            i <= left@.len(),
            left@.len() == right@.len(),
            left@.subrange(0, i as int) == right@.subrange(0, i as int),
            left@ == encode_utf8(a@),
            right@ == encode_utf8(b@),
        decreases left.len() - i,
    {
        if left[i] != right[i] {
            return false;
        }
        proof {
            assert(left@.subrange(0, i + 1) == left@.subrange(0, i as int).push(left@[i as int]));
            assert(right@.subrange(0, i + 1) == right@.subrange(0, i as int).push(right@[i as int]));
        }
        i += 1;
    }
    proof {
        assert(left@ == left@.subrange(0, i as int));
        assert(right@ == right@.subrange(0, i as int));
    }
    true
}

/// The characters of a string.
pub fn chars_of(s: &str) -> (chars: Vec<char>)
    ensures
        chars@ == s@,
{
    let mut chars: Vec<char> = Vec::new();
    for c in it: s.chars()
        invariant
            chars@ == it.seq().subrange(0, it.index()),
            it.seq() == s@,
    {
        chars.push(c);
    }
    chars
}

/// The string of the characters from `from` up to `to`.
pub fn string_of(chars: &Vec<char>, from: usize, to: usize) -> (string: String)
    requires
        from <= to <= chars@.len(),
    ensures
        string@ == chars@.subrange(from as int, to as int),
{
    let mut string = String::new();
    let mut i: usize = from;
    while i < to
        invariant
            from <= i <= to <= chars@.len(),
            string@ == chars@.subrange(from as int, i as int),
        decreases to - i,
    {
        string.push(chars[i]);
        i += 1;
    }
    string
}

/// The parts of a text, one after the other.
pub open spec fn concat(parts: Seq<Seq<char>>) -> Seq<char>
    decreases parts.len(),
{
    if parts.len() == 0 {
        Seq::empty()
    } else {
        concat(parts.drop_last()) + parts.last()
    }
}

/// Adding a part adds its text at the end.
pub proof fn lemma_concat_push(parts: Seq<Seq<char>>, part: Seq<char>)
    ensures
        concat(parts.push(part)) == concat(parts) + part,
{
    assert(parts.push(part).drop_last() =~= parts);
}

/// Adding parts adds their text at the end.
pub proof fn lemma_concat_add(parts: Seq<Seq<char>>, more: Seq<Seq<char>>)
    ensures
        concat(parts + more) == concat(parts) + concat(more),
    decreases more.len(),
{
    if more.len() == 0 {
        assert(parts + more =~= parts);
        assert(concat(parts) + concat(more) =~= concat(parts));
    } else {
        lemma_concat_add(parts, more.drop_last());
        assert((parts + more).drop_last() =~= parts + more.drop_last());
        assert(concat(parts + more) =~= concat(parts) + concat(more));
    }
}

/// The parts of a text, one after the other, with a separator between them.
pub open spec fn joined(parts: Seq<Seq<char>>, separator: char) -> Seq<char>
    decreases parts.len(),
{
    if parts.len() == 0 {
        Seq::empty()
    } else if parts.len() == 1 {
        parts[0]
    } else {
        joined(parts.drop_last(), separator).push(separator) + parts.last()
    }
}

/// The first index from `from` on whose item satisfies a condition.
pub open spec fn first_from<T>(items: Seq<T>, holds: spec_fn(T) -> bool, from: int) -> Option<int>
    decreases items.len() - from,
{
    if from >= items.len() {
        None
    } else if holds(items[from]) {
        Some(from)
    } else {
        first_from(items, holds, from + 1)
    }
}

/// The first index whose item satisfies a condition.
pub open spec fn first_where<T>(items: Seq<T>, holds: spec_fn(T) -> bool) -> Option<int> {
    first_from(items, holds, 0)
}

/// A first index is an index, its item satisfies the condition, and no earlier
/// one does.
pub proof fn lemma_first_from<T>(items: Seq<T>, holds: spec_fn(T) -> bool, from: int)
    requires
        0 <= from,
    ensures
        match first_from(items, holds, from) {
            Some(i) => from <= i < items.len() && holds(items[i]) && forall|j: int|
                from <= j < i ==> !holds(#[trigger] items[j]),
            None => forall|j: int| from <= j < items.len() ==> !holds(#[trigger] items[j]),
        },
    decreases items.len() - from,
{
    if from < items.len() && !holds(items[from]) {
        lemma_first_from(items, holds, from + 1);
    }
}

/// The first place from `from` on where a pattern occurs in a text.
pub open spec fn find_from(text: Seq<char>, pattern: Seq<char>, from: int) -> Option<int>
    decreases text.len() + 1 - from,
{
    if from + pattern.len() > text.len() {
        None
    } else if text.subrange(from, from + pattern.len()) == pattern {
        Some(from)
    } else {
        find_from(text, pattern, from + 1)
    }
}

/// The first place from `from` on where a pattern occurs in a text.
pub fn find_pattern(text: &Vec<char>, pattern: &Vec<char>, from: usize) -> (place: Option<usize>)
    requires
        from <= text@.len(),
    ensures
        match place {
            Some(i) => find_from(text@, pattern@, from as int) == Some(i as int) && from <= i && i
                + pattern@.len() <= text.len(),
            None => find_from(text@, pattern@, from as int) is None,
        },
{
    let mut i: usize = from;
    while pattern.len() <= text.len() - i
        invariant
            from <= i <= text@.len(),
            find_from(text@, pattern@, from as int) == find_from(text@, pattern@, i as int),
        decreases text@.len() - i,
    {
        let mut j: usize = 0;
        while j < pattern.len() && text[i + j] == pattern[j]
            invariant
                j <= pattern@.len(),
                i + pattern@.len() <= text.len(),
                forall|k: int| 0 <= k < j ==> text@[i + k] == #[trigger] pattern@[k],
            decreases pattern@.len() - j,
        {
            j += 1;
        }
        proof {
            let window = text@.subrange(i as int, i + pattern@.len());
            if j == pattern@.len() {
                assert(window =~= pattern@);
            } else {
                assert(window[j as int] != pattern@[j as int]);
            }
        }
        if j == pattern.len() {
            return Some(i);
        }
        i += 1;
    }
    None
}

/// The digit with the value `value`.
pub open spec fn digit(value: nat) -> char {
    (48 + value) as char
}

/// A number in decimal notation.
pub open spec fn decimal(value: nat) -> Seq<char>
    decreases value,
{
    if value < 10 {
        seq![digit(value)]
    } else {
        decimal(value / 10).push(digit(value % 10))
    }
}

/// A signed number in decimal notation.
pub open spec fn signed_decimal(value: int) -> Seq<char> {
    if value < 0 {
        seq!['-'] + decimal((-value) as nat)
    } else {
        decimal(value as nat)
    }
}

/// Writes a number in decimal notation.
pub fn decimal_string(value: u64) -> (string: String)
    ensures
        string@ == decimal(value as nat),
    decreases value,
{
    if value < 10 {
        let mut string = String::new();
        string.push((48u8 + value as u8) as char);
        proof {
            assert(string@ == seq![digit(value as nat)]);
        }
        string
    } else {
        let mut string = decimal_string(value / 10);
        string.push((48u8 + (value % 10) as u8) as char);
        string
    }
}

/// Writes a signed number in decimal notation.
pub fn signed_decimal_string(value: i32) -> (string: String)
    ensures
        string@ == signed_decimal(value as int),
{
    if value < 0 {
        let mut string = String::new();
        string.push('-');
        let magnitude = decimal_string((-(value as i64)) as u64);
        string.append(magnitude.as_str());
        proof {
            assert(string@ == signed_decimal(value as int));
        }
        string
    } else {
        decimal_string(value as u64)
    }
}

} // verus!
