use vstd::prelude::*;

use vstd::arithmetic::div_mod::{
    lemma_fundamental_div_mod, lemma_fundamental_div_mod_converse,
    lemma_mod_division_less_than_divisor,
};

use crate::field::Field;

verus! {

/// The index in the row-major source buffer of a `w` by `w` grid that a
/// 90-degree clockwise rotation reads when filling destination index `k`:
/// destination cell (row `r`, column `c`) takes source cell
/// (row `w - 1 - c`, column `r`).
pub open spec fn rotation_source(k: int, w: int) -> int {
    (w - 1 - k % w) * w + k / w
}

/// The row-major field buffer of a square `w` by `w` grid after one
/// 90-degree clockwise rotation.
pub open spec fn rotated_cw(s: Seq<Field>, w: int) -> Seq<Field>
    recommends
        s.len() == w * w,
{
    Seq::new(s.len(), |k: int| s[rotation_source(k, w)])
}

/// Row and column of an index into a `w`-wide row-major buffer of `w` rows,
/// and the range of the source index the rotation reads for it.
proof fn lemma_rotation_source_bounds(k: int, w: int)
    requires
        0 < w,
        0 <= k < w * w,
    ensures
        0 <= k % w < w,
        0 <= k / w < w,
        rotation_source(k, w) == (w - 1 - k % w) * w + k / w,
        0 <= rotation_source(k, w) < w * w,
        rotation_source(k, w) % w == k / w,
        rotation_source(k, w) / w == w - 1 - k % w,
{
    lemma_mod_division_less_than_divisor(k, w);
    lemma_fundamental_div_mod(k, w);
    assert(0 <= k / w < w) by (nonlinear_arith)
        requires
            0 < w,
            0 <= k < w * w,
            k == w * (k / w) + k % w,
            0 <= k % w < w,
    ;
    let s = (w - 1 - k % w) * w + k / w;
    assert(0 <= s < w * w) by (nonlinear_arith)
        requires
            0 < w,
            0 <= k % w < w,
            0 <= k / w < w,
            s == (w - 1 - k % w) * w + k / w,
    ;
    lemma_fundamental_div_mod_converse(s, w, w - 1 - k % w, k / w);
}

/// Reading the rotation's source index four times leads back to the index
/// itself: four quarter turns are a full turn.
proof fn lemma_rotation_source_four(k: int, w: int)
    requires
        0 < w,
        0 <= k < w * w,
    ensures
        rotation_source(
            rotation_source(rotation_source(rotation_source(k, w), w), w),
            w,
        ) == k,
{
    let i = k / w;
    let j = k % w;
    lemma_rotation_source_bounds(k, w);
    let k1 = rotation_source(k, w);
    lemma_rotation_source_bounds(k1, w);
    let k2 = rotation_source(k1, w);
    lemma_rotation_source_bounds(k2, w);
    let k3 = rotation_source(k2, w);
    lemma_rotation_source_bounds(k3, w);
    assert(k1 % w == i && k1 / w == w - 1 - j);
    assert(k2 == (w - 1 - i) * w + (w - 1 - j));
    assert(k3 == j * w + (w - 1 - i));
    assert(rotation_source(k3, w) == i * w + j);
    lemma_fundamental_div_mod(k, w);
    assert(i * w == w * i) by (nonlinear_arith);
}

/// Law: rotating a square field grid 90 degrees clockwise four times
/// restores the original arrangement.
pub proof fn lemma_rotate_four_restores(s: Seq<Field>, w: int)
    requires
        0 <= w,
        s.len() == w * w,
    ensures
        rotated_cw(rotated_cw(rotated_cw(rotated_cw(s, w), w), w), w) == s,
{
    let r1 = rotated_cw(s, w);
    let r2 = rotated_cw(r1, w);
    let r3 = rotated_cw(r2, w);
    let r4 = rotated_cw(r3, w);
    if w == 0 {
        assert(r4 =~= s);
    } else {
        assert forall|k: int| 0 <= k < s.len() implies r4[k] == s[k] by {
            lemma_rotation_source_bounds(k, w);
            let k1 = rotation_source(k, w);
            lemma_rotation_source_bounds(k1, w);
            let k2 = rotation_source(k1, w);
            lemma_rotation_source_bounds(k2, w);
            let k3 = rotation_source(k2, w);
            lemma_rotation_source_bounds(k3, w);
            lemma_rotation_source_four(k, w);
            assert(r4[k] == r3[k1]);
            assert(r3[k1] == r2[k2]);
            assert(r2[k2] == r1[k3]);
            assert(r1[k3] == s[rotation_source(k3, w)]);
        }
        assert(r4 =~= s);
    }
}

/// The buffer of `fields`, a row-major square grid `width` cells wide,
/// rotated 90 degrees clockwise.
pub fn rotated_copy(fields: &Vec<Field>, width: u32) -> (r: Vec<Field>)
    requires
        fields@.len() == width * width,
    ensures
        r@ == rotated_cw(fields@, width as int),
{
    let n = fields.len();
    let mut out: Vec<Field> = Vec::new();
    let mut k: usize = 0;
    while k < n
        invariant
            n == fields@.len(),
            fields@.len() == width * width,
            0 <= k <= n,
            out@.len() == k,
            forall|j: int| 0 <= j < k ==> out@[j] == rotated_cw(fields@, width as int)[j],
        decreases n - k,
    {
        proof {
            if width == 0 {
                assert(width * width == 0);
            }
            lemma_rotation_source_bounds(k as int, width as int);
        }
        let w = width as usize;
        let row = k / w;
        let col = k % w;
        let src = (w - 1 - col) * w + row;
        out.push(fields[src]);
        k += 1;
    }
    proof {
        assert(out@ =~= rotated_cw(fields@, width as int));
    }
    out
}

} // verus!
