//! Pixel repacking: from the renderer's native 4-bytes-per-pixel layout to a
//! packed 3-bytes-per-pixel RGB buffer.
//!
//! In the native layout each pixel holds, at byte offsets 0..4, blue, green,
//! red and an ignored padding byte. The packed layout holds red, green, blue
//! contiguously, in that order, pixel after pixel, row-major.

use vstd::prelude::*;
use vstd::arithmetic::div_mod::lemma_fundamental_div_mod;

verus! {

/// The packed RGB image of a native raster buffer: for pixel `p`, output
/// bytes `3p, 3p+1, 3p+2` are input bytes `4p+2, 4p+1, 4p`.
pub open spec fn repacked(src: Seq<u8>) -> Seq<u8> {
    Seq::new((src.len() / 4) * 3, |i: int| src[4 * (i / 3) + 2 - (i % 3)])
}

/// Repacks a native raster buffer into a new packed RGB buffer.
///
/// The input length must be a multiple of 4 (it is `width * height * 4` by
/// construction); every 4 input bytes yield exactly 3 output bytes, so the
/// output length is the input length minus a quarter of it.
pub fn repack_rgb(data: &[u8]) -> (out: Vec<u8>)
    requires
        data@.len() % 4 == 0,
    ensures
        out@ == repacked(data@),
        out@.len() == data@.len() - data@.len() / 4,
{
    let n = data.len();
    let pixels = n / 4;
    proof {
        lemma_fundamental_div_mod(n as int, 4);
        assert(n == 4 * pixels);
    }
    let mut out: Vec<u8> = Vec::new();
    let mut p: usize = 0;
    while p < pixels
        invariant
            pixels == data@.len() / 4,
            n == data@.len(),
            n == 4 * pixels,
            p <= pixels,
            out@.len() == 3 * p,
            forall|j: int| #![trigger out@[j]]
                0 <= j < 3 * p ==> out@[j] == data@[4 * (j / 3) + 2 - (j % 3)],
        decreases pixels - p,
    {
        let base = 4 * p;
        let ghost prev = out@;
        out.push(data[base + 2]);
        out.push(data[base + 1]);
        out.push(data[base]);
        proof {
            assert forall|j: int| 0 <= j < 3 * (p + 1) implies #[trigger] out@[j]
                == data@[4 * (j / 3) + 2 - (j % 3)] by {
                if j < 3 * p {
                    assert(out@[j] == prev[j]);
                } else {
                    lemma_fundamental_div_mod(j, 3);
                    assert(j / 3 == p && j % 3 == j - 3 * p) by (nonlinear_arith)
                        requires
                            3 * p <= j < 3 * p + 3,
                            j == 3 * (j / 3) + j % 3,
                            0 <= j % 3 < 3,
                    ;
                }
            }
        }
        p = p + 1;
    }
    proof {
        assert forall|j: int| 0 <= j < repacked(data@).len() implies out@[j]
            == #[trigger] repacked(data@)[j] by {
        }
        assert(out@ =~= repacked(data@));
    }
    out
}

/// Size law of repacking: a buffer of `4n` bytes repacks to exactly `3n`
/// bytes — every 4 input bytes yield 3 output bytes, with no remainder.
pub proof fn lemma_repacked_len(src: Seq<u8>)
    requires
        src.len() % 4 == 0,
    ensures
        repacked(src).len() == src.len() - src.len() / 4,
        repacked(src).len() == 3 * (src.len() / 4),
{
    lemma_fundamental_div_mod(src.len() as int, 4);
}

/// Channel-order law: pixel `p` of the input, with native bytes
/// `[blue, green, red, padding]`, appears in the output as the three bytes
/// `[red, green, blue]` at positions `3p, 3p+1, 3p+2`.
pub proof fn lemma_channel_order(src: Seq<u8>, p: int)
    requires
        0 <= p < src.len() / 4,
    ensures
        repacked(src)[3 * p] == src[4 * p + 2],
        repacked(src)[3 * p + 1] == src[4 * p + 1],
        repacked(src)[3 * p + 2] == src[4 * p],
{
    assert((3 * p) / 3 == p && (3 * p + 1) / 3 == p && (3 * p + 2) / 3 == p
        && (3 * p) % 3 == 0 && (3 * p + 1) % 3 == 1 && (3 * p + 2) % 3 == 2) by (nonlinear_arith)
        requires p >= 0;
    assert(3 * p + 2 < 3 * (src.len() / 4)) by (nonlinear_arith)
        requires p < src.len() / 4;
}

} // verus!
