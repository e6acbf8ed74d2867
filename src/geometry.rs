use vstd::prelude::*;
use crate::pixels::{ImageModel, MASK_PIXEL};

verus! {

/// Whole patches across the image: the trailing partial column strip is dropped.
pub open spec fn patches_per_row(width: int, patch_size: int) -> int {
    width / patch_size
}

/// Whole patches down the image: the trailing partial row strip is dropped.
pub open spec fn patches_per_col(height: int, patch_size: int) -> int {
    height / patch_size
}

pub open spec fn num_patches(width: int, height: int, patch_size: int) -> int {
    patches_per_row(width, patch_size) * patches_per_col(height, patch_size)
}

/// `min(n, floor(n * numerator / denominator))`: a ratio above one masks every patch.
pub open spec fn mask_count(n: int, numerator: int, denominator: int) -> int {
    if numerator >= denominator {
        n
    } else {
        n * numerator / denominator
    }
}

/// The pixel lies in a whole patch.
pub open spec fn in_tiled_region(x: int, y: int, width: int, height: int, patch_size: int) -> bool {
    0 <= x < patches_per_row(width, patch_size) * patch_size && 0 <= y < patches_per_col(
        height,
        patch_size,
    ) * patch_size
}

/// Row-major index of the patch that holds pixel `(x, y)`.
pub open spec fn patch_index_of(x: int, y: int, width: int, patch_size: int) -> int {
    (y / patch_size) * patches_per_row(width, patch_size) + x / patch_size
}

pub open spec fn is_masked(
    x: int,
    y: int,
    width: int,
    height: int,
    patch_size: int,
    selected: Set<int>,
) -> bool {
    in_tiled_region(x, y, width, height, patch_size) && selected.contains(
        patch_index_of(x, y, width, patch_size),
    )
}

/// `after` is `before` with every pixel of the selected patches set to the mask
/// value and every other pixel kept.
pub open spec fn is_masking_of(
    before: ImageModel,
    after: ImageModel,
    patch_size: int,
    selected: Set<int>,
) -> bool {
    &&& after.wf()
    &&& after.width == before.width
    &&& after.height == before.height
    &&& forall|x: int, y: int|
        #![trigger after.pixel(x, y)]
        before.in_bounds(x, y) ==> after.pixel(x, y) == if is_masked(
            x,
            y,
            before.width as int,
            before.height as int,
            patch_size,
            selected,
        ) {
            MASK_PIXEL
        } else {
            before.pixel(x, y)
        }
}

/// `count` distinct patch indices below `n`.
pub open spec fn is_selection(selected: Set<int>, n: int, count: int) -> bool {
    &&& selected.finite()
    &&& selected.len() == count
    &&& forall|i: int| selected.contains(i) ==> 0 <= i < n
}

/// The patch indices held in a sequence.
pub open spec fn index_set(s: Seq<u64>) -> Set<int> {
    s.map_values(|v: u64| v as int).to_set()
}

/// A sequence of distinct indices below `n` holds a selection of its own length.
pub proof fn lemma_index_set_selection(s: Seq<u64>, n: int)
    requires
        s.no_duplicates(),
        forall|i: int| 0 <= i < s.len() ==> (s[i] as int) < n,
    ensures
        is_selection(index_set(s), n, s.len() as int),
{
    let m = s.map_values(|v: u64| v as int);
    assert(m.no_duplicates()) by {
        assert forall|i: int, j: int| 0 <= i < m.len() && 0 <= j < m.len() && i != j implies m[i]
            != m[j] by {
            assert(s[i] != s[j]);
        }
    }
    m.unique_seq_to_set();
    vstd::seq_lib::seq_to_set_is_finite(m);
    assert forall|k: int| index_set(s).contains(k) implies 0 <= k < n by {
        let j = choose|j: int| 0 <= j < m.len() && m[j] == k;
        assert(m[j] == s[j] as int);
    }
}

/// A pixel lies in the square of patch `(row, col)` exactly when it lies in the
/// tiled region and its patch index is `row * patches_per_row + col`.
pub proof fn lemma_patch_square(x: int, y: int, width: int, height: int, p: int, row: int, col: int)
    requires
        p > 0,
        0 <= x,
        0 <= y,
        0 <= row < patches_per_col(height, p),
        0 <= col < patches_per_row(width, p),
    ensures
        (col * p <= x < col * p + p && row * p <= y < row * p + p) <==> (in_tiled_region(
            x,
            y,
            width,
            height,
            p,
        ) && patch_index_of(x, y, width, p) == row * patches_per_row(width, p) + col),
{
    let ppr = patches_per_row(width, p);
    let ppc = patches_per_col(height, p);
    let qx = x / p;
    let qy = y / p;
    vstd::arithmetic::div_mod::lemma_fundamental_div_mod(x, p);
    vstd::arithmetic::div_mod::lemma_fundamental_div_mod(y, p);
    assert(0 <= x % p < p) by {
        vstd::arithmetic::div_mod::lemma_mod_bound(x, p);
    }
    assert(0 <= y % p < p) by {
        vstd::arithmetic::div_mod::lemma_mod_bound(y, p);
    }
    // x lies in [col * p, col * p + p) exactly when x / p == col, and likewise for y
    assert((col * p <= x < col * p + p) <==> qx == col) by {
        if col * p <= x < col * p + p {
            assert(qx == col) by (nonlinear_arith)
                requires
                    x == p * qx + x % p,
                    0 <= x % p < p,
                    col * p <= x < col * p + p,
                    p > 0,
            ;
        }
        if qx == col {
            assert(col * p <= x < col * p + p) by (nonlinear_arith)
                requires
                    x == p * qx + x % p,
                    0 <= x % p < p,
                    qx == col,
            ;
        }
    }
    assert((row * p <= y < row * p + p) <==> qy == row) by {
        if row * p <= y < row * p + p {
            assert(qy == row) by (nonlinear_arith)
                requires
                    y == p * qy + y % p,
                    0 <= y % p < p,
                    row * p <= y < row * p + p,
                    p > 0,
            ;
        }
        if qy == row {
            assert(row * p <= y < row * p + p) by (nonlinear_arith)
                requires
                    y == p * qy + y % p,
                    0 <= y % p < p,
                    qy == row,
            ;
        }
    }
    // x < ppr * p exactly when x / p < ppr
    assert((x < ppr * p) <==> qx < ppr) by (nonlinear_arith)
        requires
            x == p * qx + x % p,
            0 <= x % p < p,
            p > 0,
    ;
    assert((y < ppc * p) <==> qy < ppc) by (nonlinear_arith)
        requires
            y == p * qy + y % p,
            0 <= y % p < p,
            p > 0,
    ;
    assert(0 <= qx && 0 <= qy) by (nonlinear_arith)
        requires
            x == p * qx + x % p,
            y == p * qy + y % p,
            0 <= x % p < p,
            0 <= y % p < p,
            0 <= x,
            0 <= y,
            p > 0,
    ;
    if qx < ppr && qy * ppr + qx == row * ppr + col {
        if qy < row {
            assert(qy * ppr + ppr <= row * ppr) by (nonlinear_arith)
                requires
                    qy < row,
                    0 <= ppr,
            ;
        } else if row < qy {
            assert(row * ppr + ppr <= qy * ppr) by (nonlinear_arith)
                requires
                    row < qy,
                    0 <= ppr,
            ;
        }
    }
}

/// The whole-patch grid of a `width` x `height` image as
/// `(patches_per_row, patches_per_col, num_patches)`; partial strips hold no patch.
pub fn patch_grid(width: u32, height: u32, patch_size: u32) -> (r: (u32, u32, u64))
    requires
        patch_size > 0,
    ensures
        r.0 as int == patches_per_row(width as int, patch_size as int),
        r.1 as int == patches_per_col(height as int, patch_size as int),
        r.2 as int == num_patches(width as int, height as int, patch_size as int),
        r.2 as int <= width as int * height as int,
{
    let per_row = width / patch_size;
    let per_col = height / patch_size;
    proof {
        let (w, h, p) = (width as int, height as int, patch_size as int);
        assert((w / p) * (h / p) <= w * h) by (nonlinear_arith)
            requires
                p > 0,
                0 <= w,
                0 <= h,
                w / p <= w,
                h / p <= h,
                0 <= w / p,
                0 <= h / p,
        ;
        assert(w * h <= u32::MAX as int * u32::MAX as int) by (nonlinear_arith)
            requires
                0 <= w <= u32::MAX,
                0 <= h <= u32::MAX,
        ;
    }
    (per_row, per_col, per_row as u64 * per_col as u64)
}

/// How many of `num_patches` patches a ratio of `ratio_numerator / ratio_denominator`
/// masks: `min(num_patches, floor(num_patches * ratio))`.
pub fn mask_count_for(num_patches: u64, ratio_numerator: u32, ratio_denominator: u32) -> (r: u64)
    requires
        ratio_denominator > 0,
    ensures
        r as int == mask_count(num_patches as int, ratio_numerator as int, ratio_denominator as int),
        r <= num_patches,
{
    if ratio_numerator >= ratio_denominator {
        num_patches
    } else {
        proof {
            let (n, a, d) = (num_patches as int, ratio_numerator as int, ratio_denominator as int);
            assert(n * a <= u64::MAX as int * u32::MAX as int) by (nonlinear_arith)
                requires
                    0 <= n <= u64::MAX,
                    0 <= a <= u32::MAX,
            ;
            assert(n * a / d <= n) by {
                assert(n * a <= n * d) by (nonlinear_arith)
                    requires
                        0 <= n,
                        a < d,
                ;
                vstd::arithmetic::div_mod::lemma_div_is_ordered(n * a, n * d, d);
                vstd::arithmetic::div_mod::lemma_div_multiples_vanish(n, d);
            }
        }
        let product: u128 = num_patches as u128 * ratio_numerator as u128;
        (product / ratio_denominator as u128) as u64
    }
}

} // verus!
