use vstd::prelude::*;
use vstd::set_lib::set_int_range;
use crate::geometry::{
    in_tiled_region, is_masked, is_masking_of, is_selection, lemma_patch_square, mask_count,
    num_patches, patch_index_of, patches_per_col, patches_per_row,
};
use crate::mask::PatchMaskGenerator;
use crate::pixels::{lemma_models_equal, ImageModel, MASK_PIXEL};

verus! {

/// For a ratio in `[0, 1]` the number of masked patches is
/// `min(num_patches, floor(num_patches * ratio))`.
pub proof fn lemma_mask_count_is_floor_clamped(n: int, numerator: int, denominator: int)
    requires
        0 <= n,
        0 <= numerator <= denominator,
        denominator > 0,
    ensures
        mask_count(n, numerator, denominator) == if n * numerator / denominator < n {
            n * numerator / denominator
        } else {
            n
        },
        0 <= mask_count(n, numerator, denominator) <= n,
{
    if numerator == denominator {
        vstd::arithmetic::div_mod::lemma_div_multiples_vanish(n, denominator);
        assert(n * numerator / denominator == n);
    } else {
        assert(n * numerator <= n * denominator) by (nonlinear_arith)
            requires
                0 <= n,
                numerator < denominator,
        ;
        assert(0 <= n * numerator) by (nonlinear_arith)
            requires
                0 <= n,
                0 <= numerator,
        ;
        vstd::arithmetic::div_mod::lemma_div_is_ordered(n * numerator, n * denominator, denominator);
        vstd::arithmetic::div_mod::lemma_div_multiples_vanish(n, denominator);
        vstd::arithmetic::div_mod::lemma_div_pos_is_pos(n * numerator, denominator);
    }
}

/// Pixels outside the whole-patch region are never modified.
pub proof fn lemma_boundary_untouched(
    before: ImageModel,
    after: ImageModel,
    patch_size: int,
    selected: Set<int>,
    x: int,
    y: int,
)
    requires
        is_masking_of(before, after, patch_size, selected),
        before.in_bounds(x, y),
        !in_tiled_region(x, y, before.width as int, before.height as int, patch_size),
    ensures
        after.pixel(x, y) == before.pixel(x, y),
{
    assert(after.pixel(x, y) == before.pixel(x, y));
}

/// Every pixel of a selected patch `(row, col)` is the mask value; every pixel of
/// an unselected patch keeps its value.
pub proof fn lemma_patch_integrity(
    before: ImageModel,
    after: ImageModel,
    patch_size: int,
    selected: Set<int>,
    row: int,
    col: int,
    x: int,
    y: int,
)
    requires
        patch_size > 0,
        is_masking_of(before, after, patch_size, selected),
        0 <= row < patches_per_col(before.height as int, patch_size),
        0 <= col < patches_per_row(before.width as int, patch_size),
        col * patch_size <= x < (col + 1) * patch_size,
        row * patch_size <= y < (row + 1) * patch_size,
    ensures
        before.in_bounds(x, y),
        selected.contains(row * patches_per_row(before.width as int, patch_size) + col) ==> after.pixel(
            x,
            y,
        ) == MASK_PIXEL,
        !selected.contains(row * patches_per_row(before.width as int, patch_size) + col)
            ==> after.pixel(x, y) == before.pixel(x, y),
{
    let (w, h, p) = (before.width as int, before.height as int, patch_size);
    assert(col * p + p == (col + 1) * p && row * p + p == (row + 1) * p) by (nonlinear_arith);
    assert(0 <= col * p && 0 <= row * p) by (nonlinear_arith)
        requires
            0 <= col,
            0 <= row,
            p > 0,
    ;
    lemma_patch_square(x, y, w, h, p, row, col);
    vstd::arithmetic::div_mod::lemma_fundamental_div_mod(w, p);
    vstd::arithmetic::div_mod::lemma_mod_bound(w, p);
    vstd::arithmetic::div_mod::lemma_fundamental_div_mod(h, p);
    vstd::arithmetic::div_mod::lemma_mod_bound(h, p);
    assert(x < w && y < h) by (nonlinear_arith)
        requires
            x < patches_per_row(w, p) * p,
            y < patches_per_col(h, p) * p,
            w == p * (w / p) + w % p,
            h == p * (h / p) + h % p,
            0 <= w % p,
            0 <= h % p,
            patches_per_row(w, p) == w / p,
            patches_per_col(h, p) == h / p,
    ;
    assert(after.pixel(x, y) == if is_masked(x, y, w, h, p, selected) {
        MASK_PIXEL
    } else {
        before.pixel(x, y)
    });
}

/// A selection of `n` indices below `n` holds every index below `n`.
pub proof fn lemma_full_selection(selected: Set<int>, n: int, i: int)
    requires
        is_selection(selected, n, n),
        0 <= i < n,
    ensures
        selected.contains(i),
{
    if !selected.contains(i) {
        let range = set_int_range(0, n);
        vstd::set_lib::lemma_int_range(0, n);
        let rest = range.remove(i);
        assert(selected.subset_of(rest));
        vstd::set_lib::lemma_len_subset(selected, rest);
        assert(false);
    }
}

/// The patch that holds a pixel of the tiled region has an index below `num_patches`.
pub proof fn lemma_patch_index_in_range(x: int, y: int, width: int, height: int, patch_size: int)
    requires
        patch_size > 0,
        in_tiled_region(x, y, width, height, patch_size),
    ensures
        0 <= patch_index_of(x, y, width, patch_size) < num_patches(width, height, patch_size),
{
    let p = patch_size;
    let ppr = patches_per_row(width, p);
    let ppc = patches_per_col(height, p);
    vstd::arithmetic::div_mod::lemma_div_pos_is_pos(x, p);
    vstd::arithmetic::div_mod::lemma_div_pos_is_pos(y, p);
    vstd::arithmetic::div_mod::lemma_fundamental_div_mod(x, p);
    vstd::arithmetic::div_mod::lemma_mod_bound(x, p);
    vstd::arithmetic::div_mod::lemma_fundamental_div_mod(y, p);
    vstd::arithmetic::div_mod::lemma_mod_bound(y, p);
    let qx = x / p;
    let qy = y / p;
    assert(qx < ppr) by (nonlinear_arith)
        requires
            x == p * qx + x % p,
            0 <= x % p,
            x < ppr * p,
            p > 0,
    ;
    assert(qy < ppc) by (nonlinear_arith)
        requires
            y == p * qy + y % p,
            0 <= y % p,
            y < ppc * p,
            p > 0,
    ;
    assert(0 <= qy * ppr + qx < ppr * ppc) by (nonlinear_arith)
        requires
            0 <= qx < ppr,
            0 <= qy < ppc,
    ;
}

/// With a ratio of one or more every whole patch is masked and only the trailing
/// partial strips keep their pixels.
pub proof fn lemma_full_coverage(gen: PatchMaskGenerator, before: ImageModel, after: ImageModel)
    requires
        gen.spec_patch_size() > 0,
        gen.spec_ratio_denominator() > 0,
        gen.spec_ratio_numerator() >= gen.spec_ratio_denominator(),
        gen.masks_random_selection(before, after),
    ensures
        forall|x: int, y: int|
            before.in_bounds(x, y) ==> after.pixel(x, y) == if in_tiled_region(
                x,
                y,
                before.width as int,
                before.height as int,
                gen.spec_patch_size() as int,
            ) {
                MASK_PIXEL
            } else {
                before.pixel(x, y)
            },
{
    let p = gen.spec_patch_size() as int;
    let (w, h) = (before.width as int, before.height as int);
    let n = num_patches(w, h, p);
    let selected = choose|selected: Set<int>|
        is_selection(selected, n, gen.spec_mask_count(w, h)) && is_masking_of(
            before,
            after,
            p,
            selected,
        );
    assert forall|x: int, y: int| before.in_bounds(x, y) implies after.pixel(x, y) == if in_tiled_region(
        x,
        y,
        w,
        h,
        p,
    ) {
        MASK_PIXEL
    } else {
        before.pixel(x, y)
    } by {
        if in_tiled_region(x, y, w, h, p) {
            lemma_patch_index_in_range(x, y, w, h, p);
            lemma_full_selection(selected, n, patch_index_of(x, y, w, p));
        }
        assert(after.pixel(x, y) == if is_masked(x, y, w, h, p, selected) {
            MASK_PIXEL
        } else {
            before.pixel(x, y)
        });
    }
}

/// A transform that masks no patch returns its input unchanged.
proof fn lemma_nothing_masked(gen: PatchMaskGenerator, before: ImageModel, after: ImageModel)
    requires
        before.wf(),
        gen.spec_mask_count(before.width as int, before.height as int) == 0,
        gen.masks_random_selection(before, after),
    ensures
        after == before,
{
    let p = gen.spec_patch_size() as int;
    let (w, h) = (before.width as int, before.height as int);
    let selected = choose|selected: Set<int>|
        is_selection(selected, num_patches(w, h, p), gen.spec_mask_count(w, h)) && is_masking_of(
            before,
            after,
            p,
            selected,
        );
    assert(selected =~= Set::<int>::empty()) by {
        if exists|i: int| selected.contains(i) {
            let i = choose|i: int| selected.contains(i);
            vstd::set_lib::lemma_set_empty_equivalency_len(selected);
        }
    }
    assert forall|x: int, y: int| before.in_bounds(x, y) implies after.pixel(x, y) == before.pixel(
        x,
        y,
    ) by {
        assert(!is_masked(x, y, w, h, p, selected));
        assert(after.pixel(x, y) == if is_masked(x, y, w, h, p, selected) {
            MASK_PIXEL
        } else {
            before.pixel(x, y)
        });
    }
    lemma_models_equal(after, before);
}

/// With a ratio of zero, two transforms in a row leave the image as it was.
pub proof fn lemma_zero_ratio_twice(
    gen: PatchMaskGenerator,
    image: ImageModel,
    once: ImageModel,
    twice: ImageModel,
)
    requires
        image.wf(),
        gen.spec_ratio_numerator() == 0,
        gen.spec_ratio_denominator() > 0,
        gen.masks_random_selection(image, once),
        gen.masks_random_selection(once, twice),
    ensures
        once == image,
        twice == image,
{
    let p = gen.spec_patch_size() as int;
    assert(num_patches(image.width as int, image.height as int, p) * 0 == 0) by (nonlinear_arith);
    lemma_nothing_masked(gen, image, once);
    lemma_nothing_masked(gen, once, twice);
}

/// An image smaller than one patch in either dimension has no whole patch, and
/// a transform returns it unchanged.
pub proof fn lemma_degenerate_image(gen: PatchMaskGenerator, before: ImageModel, after: ImageModel)
    requires
        before.wf(),
        gen.spec_patch_size() > 0,
        gen.spec_ratio_denominator() > 0,
        before.width < gen.spec_patch_size() || before.height < gen.spec_patch_size(),
        gen.masks_random_selection(before, after),
    ensures
        num_patches(before.width as int, before.height as int, gen.spec_patch_size() as int) == 0,
        gen.spec_mask_count(before.width as int, before.height as int) == 0,
        after == before,
{
    let p = gen.spec_patch_size() as int;
    let (w, h) = (before.width as int, before.height as int);
    if w < p {
        vstd::arithmetic::div_mod::lemma_basic_div(w, p);
        assert(0 * (h / p) == 0) by (nonlinear_arith);
    } else {
        vstd::arithmetic::div_mod::lemma_basic_div(h, p);
        assert((w / p) * 0 == 0) by (nonlinear_arith);
    }
    let n = num_patches(w, h, p);
    let (a, d) = (gen.spec_ratio_numerator() as int, gen.spec_ratio_denominator() as int);
    assert(n * a == 0) by (nonlinear_arith)
        requires
            n == 0,
    ;
    lemma_nothing_masked(gen, before, after);
}

} // verus!
