//! Fingerprints: 64-bit FNV-1a hashes, which tell sets of fonts and paragraphs
//! apart.

use vstd::prelude::*;

use crate::document::{FontFile, RevisionView};
use crate::units::Emu;

verus! {

/// The fingerprint of no bytes.
pub const FNV_BASIS: u64 = 0xcbf2_9ce4_8422_2325;

/// What a fingerprint is multiplied with for each byte.
pub const FNV_PRIME: u64 = 0x0000_0100_0000_01b3;

/// A fingerprint after one more value.
pub open spec fn fnv_step(hash: u64, value: u64) -> u64 {
    (hash ^ value).wrapping_mul(FNV_PRIME)
}

/// A fingerprint after more bytes.
pub open spec fn fnv(hash: u64, bytes: Seq<u8>) -> u64
    decreases bytes.len(),
{
    if bytes.len() == 0 {
        hash
    } else {
        fnv_step(fnv(hash, bytes.drop_last()), bytes.last() as u64)
    }
}

/// Takes bytes into a fingerprint.
pub fn take_bytes(hash: u64, bytes: &[u8]) -> (result: u64)
    ensures
        result == fnv(hash, bytes@),
{
    let mut result: u64 = hash;
    let mut i: usize = 0;
    proof {
        assert(fnv(hash, bytes@.take(0)) == hash);
    }
    while i < bytes.len()
        invariant
            i <= bytes@.len(),
            result == fnv(hash, bytes@.take(i as int)),
        decreases bytes@.len() - i,
    {
        proof {
            assert(bytes@.take(i + 1).drop_last() =~= bytes@.take(i as int));
        }
        result = (result ^ (bytes[i] as u64)).wrapping_mul(FNV_PRIME);
        i += 1;
    }
    proof {
        assert(bytes@.take(i as int) =~= bytes@);
    }
    result
}

/// The fingerprint of the first `n` fonts: of each, the bytes of its family and
/// the length of its data.
pub open spec fn fonts_prefix(fonts: Seq<FontFile>, n: nat) -> u64
    decreases n,
{
    if n == 0 {
        FNV_BASIS
    } else {
        fnv_step(
            fnv(
                fonts_prefix(fonts, (n - 1) as nat),
                vstd::utf8::encode_utf8(fonts[n - 1].family@),
            ),
            fonts[n - 1].data@.len() as u64,
        )
    }
}

/// The fingerprint of a set of fonts.
pub fn fingerprint_fonts(fonts: &Vec<FontFile>) -> (hash: u64)
    ensures
        hash == fonts_prefix(fonts@, fonts@.len()),
{
    let mut hash: u64 = FNV_BASIS;
    let mut i: usize = 0;
    while i < fonts.len()
        invariant
            i <= fonts@.len(),
            hash == fonts_prefix(fonts@, i as nat),
        decreases fonts@.len() - i,
    {
        let font = &fonts[i];
        hash = take_bytes(hash, font.family.as_str().as_bytes());
        hash = (hash ^ (font.data.len() as u64)).wrapping_mul(FNV_PRIME);
        i += 1;
    }
    hash
}

/// The number of a revision view.
pub open spec fn view_byte(view: RevisionView) -> u8 {
    match view {
        RevisionView::Accepted => 0,
        RevisionView::Markup => 1,
    }
}

/// The key under which the layout of a paragraph is kept: the fingerprint of
/// what it was written as, the width, the revision view and the set of fonts.
pub open spec fn block_key(source: Seq<u8>, width: Emu, view: RevisionView, fonts: u64) -> u64 {
    let written = fnv(FNV_BASIS, source);
    let wide = fnv(written, vstd::bytes::spec_u64_to_le_bytes(width.0 as u64));
    let viewed = fnv_step(wide, view_byte(view) as u64);
    fnv(viewed, vstd::bytes::spec_u64_to_le_bytes(fonts))
}

/// The key under which the layout of a paragraph is kept.
pub fn key_of_block(source: &Vec<u8>, width: Emu, view: RevisionView, fonts: u64) -> (key: u64)
    ensures
        key == block_key(source@, width, view, fonts),
{
    let written = take_bytes(FNV_BASIS, source.as_slice());
    let width_bytes = vstd::bytes::u64_to_le_bytes(wide_bits(width));
    let wide = take_bytes(written, width_bytes.as_slice());
    let number: u64 = match view {
        RevisionView::Accepted => 0,
        RevisionView::Markup => 1,
    };
    let viewed = (wide ^ number).wrapping_mul(FNV_PRIME);
    let font_bytes = vstd::bytes::u64_to_le_bytes(fonts);
    take_bytes(viewed, font_bytes.as_slice())
}

/// A width as an unsigned number, modulo 2 to the 64.
#[verifier::truncate]
fn wide_bits(width: Emu) -> (bits: u64)
    ensures
        bits == width.0 as u64,
{
    width.0 as u64
}

} // verus!
