//! What holds of fingerprints: everything that goes into one makes a difference.

use vstd::prelude::*;

use crate::document::{FontFile, RevisionView};
use crate::units::Emu;

verus! {

/// Multiplying with the prime of the hash can be undone.
proof fn lemma_product_can_be_undone(a: u64)
    ensures
        (a.wrapping_mul(crate::fingerprint::FNV_PRIME) as int * 14886173955864302971)
            % 0x1_0000_0000_0000_0000 == a,
{
    let prime: int = 0x0000_0100_0000_01b3;
    let inverse: int = 14886173955864302971;
    let range: int = 0x1_0000_0000_0000_0000;
    let x = a as int;
    vstd::arithmetic::div_mod::lemma_mul_mod_noop_left(x * prime, inverse, range);
    assert(x * prime * inverse == range * (x * 887285111055) + x) by (nonlinear_arith)
        requires
            prime == 0x0000_0100_0000_01b3,
            inverse == 14886173955864302971,
            range == 0x1_0000_0000_0000_0000,
    ;
    vstd::arithmetic::div_mod::lemma_mod_multiples_vanish(x * 887285111055, x, range);
    vstd::arithmetic::div_mod::lemma_small_mod(x as nat, range as nat);
}

/// Every value that a fingerprint takes in makes a difference, and so does every
/// fingerprint that it goes on from.
pub proof fn law_every_value_makes_a_difference(hash: u64, other: u64, a: u64, b: u64)
    ensures
        a != b ==> crate::fingerprint::fnv_step(hash, a) != crate::fingerprint::fnv_step(hash, b),
        hash != other ==> crate::fingerprint::fnv_step(hash, a) != crate::fingerprint::fnv_step(
            other,
            a,
        ),
{
    lemma_product_can_be_undone(hash ^ a);
    lemma_product_can_be_undone(hash ^ b);
    lemma_product_can_be_undone(other ^ a);
    assert(hash ^ a == hash ^ b ==> a == b) by (bit_vector);
    assert(hash ^ a == other ^ a ==> hash == other) by (bit_vector);
}

/// The same bytes take different fingerprints to different ones.
proof fn lemma_start_makes_a_difference(hash: u64, other: u64, bytes: Seq<u8>)
    requires
        hash != other,
    ensures
        crate::fingerprint::fnv(hash, bytes) != crate::fingerprint::fnv(other, bytes),
    decreases bytes.len(),
{
    if bytes.len() > 0 {
        lemma_start_makes_a_difference(hash, other, bytes.drop_last());
        law_every_value_makes_a_difference(
            crate::fingerprint::fnv(hash, bytes.drop_last()),
            crate::fingerprint::fnv(other, bytes.drop_last()),
            bytes.last() as u64,
            0,
        );
    }
}

/// Whether two lists of bytes are equally long and differ in one byte.
pub open spec fn differ_in_one(a: Seq<u8>, b: Seq<u8>, i: int) -> bool {
    &&& a.len() == b.len()
    &&& 0 <= i < a.len()
    &&& a[i] != b[i]
    &&& forall|k: int| 0 <= k < a.len() && k != i ==> #[trigger] a[k] == b[k]
}

/// A change of one byte changes a fingerprint.
pub proof fn law_every_byte_makes_a_difference(hash: u64, a: Seq<u8>, b: Seq<u8>, i: int)
    requires
        differ_in_one(a, b, i),
    ensures
        crate::fingerprint::fnv(hash, a) != crate::fingerprint::fnv(hash, b),
    decreases a.len(),
{
    if i == a.len() - 1 {
        assert(a.drop_last() =~= b.drop_last());
        law_every_value_makes_a_difference(
            crate::fingerprint::fnv(hash, a.drop_last()),
            0,
            a.last() as u64,
            b.last() as u64,
        );
    } else {
        assert forall|k: int| 0 <= k < a.drop_last().len() && k
            != i implies #[trigger] a.drop_last()[k] == b.drop_last()[k] by {
            assert(a[k] == b[k]);
        }
        law_every_byte_makes_a_difference(hash, a.drop_last(), b.drop_last(), i);
        assert(a[a.len() - 1] == b[a.len() - 1]);
        law_every_value_makes_a_difference(
            crate::fingerprint::fnv(hash, a.drop_last()),
            crate::fingerprint::fnv(hash, b.drop_last()),
            a.last() as u64,
            0,
        );
    }
}

/// The key of a paragraph takes in the revision view, what the paragraph was written
/// as, its width and the fonts: a change of the view, or of one byte of any of the
/// others, leads to another key.
pub proof fn law_keys_tell_layouts_apart(
    source: Seq<u8>,
    other_source: Seq<u8>,
    width: Emu,
    other_width: Emu,
    fonts: u64,
    other_fonts: u64,
    view: RevisionView,
    i: int,
)
    ensures
        crate::fingerprint::block_key(source, width, RevisionView::Accepted, fonts)
            != crate::fingerprint::block_key(source, width, RevisionView::Markup, fonts),
        differ_in_one(source, other_source, i) ==> crate::fingerprint::block_key(
            source,
            width,
            view,
            fonts,
        ) != crate::fingerprint::block_key(other_source, width, view, fonts),
        differ_in_one(
            vstd::bytes::spec_u64_to_le_bytes(width.0 as u64),
            vstd::bytes::spec_u64_to_le_bytes(other_width.0 as u64),
            i,
        ) ==> crate::fingerprint::block_key(source, width, view, fonts)
            != crate::fingerprint::block_key(source, other_width, view, fonts),
        differ_in_one(
            vstd::bytes::spec_u64_to_le_bytes(fonts),
            vstd::bytes::spec_u64_to_le_bytes(other_fonts),
            i,
        ) ==> crate::fingerprint::block_key(source, width, view, fonts)
            != crate::fingerprint::block_key(source, width, view, other_fonts),
{
    let basis = crate::fingerprint::FNV_BASIS;
    let wide_bytes = vstd::bytes::spec_u64_to_le_bytes(width.0 as u64);
    let other_wide = vstd::bytes::spec_u64_to_le_bytes(other_width.0 as u64);
    let font_bytes = vstd::bytes::spec_u64_to_le_bytes(fonts);
    let other_font = vstd::bytes::spec_u64_to_le_bytes(other_fonts);
    let number = crate::fingerprint::view_byte(view) as u64;
    let written = crate::fingerprint::fnv(basis, source);
    let wide = crate::fingerprint::fnv(written, wide_bytes);
    // The view.
    law_every_value_makes_a_difference(wide, 0, 0, 1);
    lemma_start_makes_a_difference(
        crate::fingerprint::fnv_step(wide, 0),
        crate::fingerprint::fnv_step(wide, 1),
        font_bytes,
    );
    // What it was written as.
    if differ_in_one(source, other_source, i) {
        law_every_byte_makes_a_difference(basis, source, other_source, i);
        let other_written = crate::fingerprint::fnv(basis, other_source);
        lemma_start_makes_a_difference(written, other_written, wide_bytes);
        let other = crate::fingerprint::fnv(other_written, wide_bytes);
        lemma_last_steps(wide, other, number, font_bytes);
    }
    // The width.
    if differ_in_one(wide_bytes, other_wide, i) {
        law_every_byte_makes_a_difference(written, wide_bytes, other_wide, i);
        let other = crate::fingerprint::fnv(written, other_wide);
        lemma_last_steps(wide, other, number, font_bytes);
    }
    // The fonts.
    if differ_in_one(font_bytes, other_font, i) {
        law_every_byte_makes_a_difference(
            crate::fingerprint::fnv_step(wide, number),
            font_bytes,
            other_font,
            i,
        );
    }
}

/// Fingerprints that differ before the view and the fonts are taken in differ
/// afterwards.
proof fn lemma_last_steps(a: u64, b: u64, number: u64, fonts: Seq<u8>)
    requires
        a != b,
    ensures
        crate::fingerprint::fnv(crate::fingerprint::fnv_step(a, number), fonts)
            != crate::fingerprint::fnv(crate::fingerprint::fnv_step(b, number), fonts),
{
    law_every_value_makes_a_difference(a, b, number, 0);
    lemma_start_makes_a_difference(
        crate::fingerprint::fnv_step(a, number),
        crate::fingerprint::fnv_step(b, number),
        fonts,
    );
}

/// Whether two lists of fonts differ in the font at an index: in one byte of its
/// family, or in the length of its data.
pub open spec fn differ_in_font(a: Seq<FontFile>, b: Seq<FontFile>, i: int, k: int) -> bool {
    &&& a.len() == b.len()
    &&& 0 <= i < a.len()
    &&& forall|m: int|
        0 <= m < a.len() && m != i ==> (#[trigger] a[m]).family@ == b[m].family@
            && a[m].data@.len() == b[m].data@.len()
    &&& {
        ||| a[i].family@ == b[i].family@ && a[i].data@.len() != b[i].data@.len()
        ||| a[i].data@.len() == b[i].data@.len() && differ_in_one(
            vstd::utf8::encode_utf8(a[i].family@),
            vstd::utf8::encode_utf8(b[i].family@),
            k,
        )
    }
}

/// Fonts that differ in one font, in a byte of its family or in the length of its
/// data, are told apart.
pub proof fn law_fonts_are_told_apart(a: Seq<FontFile>, b: Seq<FontFile>, i: int, k: int, n: nat)
    requires
        differ_in_font(a, b, i, k),
        i < n <= a.len(),
    ensures
        crate::fingerprint::fonts_prefix(a, n) != crate::fingerprint::fonts_prefix(b, n),
    decreases n,
{
    let last = n - 1;
    let x = a[last];
    let y = b[last];
    let xs = vstd::utf8::encode_utf8(x.family@);
    let ys = vstd::utf8::encode_utf8(y.family@);
    let before = crate::fingerprint::fonts_prefix(a, last as nat);
    let other = crate::fingerprint::fonts_prefix(b, last as nat);
    assert(x.data.len() == x.data@.len());
    assert(y.data.len() == y.data@.len());
    if i < last {
        law_fonts_are_told_apart(a, b, i, k, last as nat);
        assert(x.family@ == y.family@);
        lemma_start_makes_a_difference(before, other, xs);
        law_every_value_makes_a_difference(
            crate::fingerprint::fnv(before, xs),
            crate::fingerprint::fnv(other, xs),
            x.data@.len() as u64,
            0,
        );
    } else {
        lemma_same_fonts(a, b, i, last as nat);
        if x.family@ == y.family@ {
            law_every_value_makes_a_difference(
                crate::fingerprint::fnv(before, xs),
                0,
                x.data@.len() as u64,
                y.data@.len() as u64,
            );
        } else {
            law_every_byte_makes_a_difference(before, xs, ys, k);
            law_every_value_makes_a_difference(
                crate::fingerprint::fnv(before, xs),
                crate::fingerprint::fnv(before, ys),
                x.data@.len() as u64,
                0,
            );
        }
    }
}

proof fn lemma_same_fonts(a: Seq<FontFile>, b: Seq<FontFile>, i: int, n: nat)
    requires
        a.len() == b.len(),
        n <= i < a.len(),
        forall|m: int|
            0 <= m < a.len() && m != i ==> (#[trigger] a[m]).family@ == b[m].family@
                && a[m].data@.len() == b[m].data@.len(),
    ensures
        crate::fingerprint::fonts_prefix(a, n) == crate::fingerprint::fonts_prefix(b, n),
    decreases n,
{
    if n > 0 {
        lemma_same_fonts(a, b, i, (n - 1) as nat);
        assert(a[n - 1].family@ == b[n - 1].family@);
    }
}

} // verus!
