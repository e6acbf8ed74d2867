use vstd::prelude::*;
use crate::geometry::{
    in_tiled_region, index_set, is_masked, is_masking_of, is_selection, lemma_index_set_selection,
    lemma_patch_square,
    mask_count, mask_count_for, num_patches, patch_grid, patches_per_col, patches_per_row,
};
use crate::outside::choose_indices;
use crate::pixels::{ImageModel, PixelBuffer, MASK_PIXEL};

verus! {

/// A uniformly random choice of `count` distinct patch indices below `num_patches`,
/// drawn from a fresh generator of the calling thread.
pub fn select_patches(num_patches: u64, count: u64) -> (r: Vec<u64>)
    requires
        count <= num_patches,
        num_patches <= usize::MAX,
    ensures
        r@.len() == count,
        r@.no_duplicates(),
        forall|i: int| 0 <= i < r@.len() ==> r@[i] < num_patches,
        is_selection(index_set(r@), num_patches as int, count as int),
{
    let mut rng = rand::thread_rng();
    let r = choose_indices(&mut rng, num_patches, count as usize);
    proof {
        lemma_index_set_selection(r@, num_patches as int);
    }
    r
}

/// Masks a random share of the whole patches of an image: `ratio_numerator /
/// ratio_denominator` of them, at most all.
pub struct PatchMaskGenerator {
    ratio_numerator: u32,
    ratio_denominator: u32,
    patch_size: u32,
}

impl PatchMaskGenerator {
    pub closed spec fn spec_ratio_numerator(&self) -> nat {
        self.ratio_numerator as nat
    }

    pub closed spec fn spec_ratio_denominator(&self) -> nat {
        self.ratio_denominator as nat
    }

    pub closed spec fn spec_patch_size(&self) -> nat {
        self.patch_size as nat
    }

    /// Keeps the configuration as given; it is checked when an image is transformed.
    pub fn new(ratio_numerator: u32, ratio_denominator: u32, patch_size: u32) -> (r: Self)
        ensures
            r.spec_ratio_numerator() == ratio_numerator,
            r.spec_ratio_denominator() == ratio_denominator,
            r.spec_patch_size() == patch_size,
    {
        PatchMaskGenerator { ratio_numerator, ratio_denominator, patch_size }
    }

    pub fn ratio_numerator(&self) -> (r: u32)
        ensures
            r == self.spec_ratio_numerator(),
    {
        self.ratio_numerator
    }

    pub fn ratio_denominator(&self) -> (r: u32)
        ensures
            r == self.spec_ratio_denominator(),
    {
        self.ratio_denominator
    }

    pub fn patch_size(&self) -> (r: u32)
        ensures
            r == self.spec_patch_size(),
    {
        self.patch_size
    }

    /// How many patches of an image of the given size a transform masks.
    pub open spec fn spec_mask_count(&self, width: int, height: int) -> int {
        mask_count(
            num_patches(width, height, self.spec_patch_size() as int),
            self.spec_ratio_numerator() as int,
            self.spec_ratio_denominator() as int,
        )
    }

    /// `after` is `before` with exactly `spec_mask_count` distinct whole patches masked.
    pub open spec fn masks_random_selection(&self, before: ImageModel, after: ImageModel) -> bool {
        exists|selected: Set<int>|
            #![trigger is_masking_of(before, after, self.spec_patch_size() as int, selected)]
            is_selection(
                selected,
                num_patches(before.width as int, before.height as int, self.spec_patch_size() as int),
                self.spec_mask_count(before.width as int, before.height as int),
            ) && is_masking_of(before, after, self.spec_patch_size() as int, selected)
    }

    /// Masks a uniformly random set of `spec_mask_count` whole patches of `image`.
    /// A zero patch size or ratio denominator is refused before any pixel changes.
    pub fn transform(&self, image: PixelBuffer) -> (r: Result<PixelBuffer, MaskError>)
        requires
            image@.wf(),
        ensures
            self.spec_patch_size() == 0 ==> r == Err::<PixelBuffer, MaskError>(
                MaskError::ZeroPatchSize,
            ),
            self.spec_patch_size() != 0 && self.spec_ratio_denominator() == 0 ==> r == Err::<
                PixelBuffer,
                MaskError,
            >(MaskError::ZeroRatioDenominator),
            self.spec_patch_size() != 0 && self.spec_ratio_denominator() != 0 ==> r is Ok,
            r is Ok ==> self.masks_random_selection(image@, r->Ok_0@),
    {
        if self.patch_size == 0 {
            return Err(MaskError::ZeroPatchSize);
        }
        if self.ratio_denominator == 0 {
            return Err(MaskError::ZeroRatioDenominator);
        }
        let ghost before = image@;
        let mut image = image;
        let (width, height) = image.dimensions();
        let (_, _, total) = patch_grid(width, height, self.patch_size);
        let count = mask_count_for(total, self.ratio_numerator, self.ratio_denominator);
        proof {
            assert(total as int <= before.pixels.len());
        }
        let _len = image.len();
        let selected = select_patches(total, count);
        mask_patches(&mut image, self.patch_size, &selected);
        proof {
            let sel = index_set(selected@);
            let p = self.spec_patch_size() as int;
            assert(is_selection(
                sel,
                num_patches(before.width as int, before.height as int, p),
                self.spec_mask_count(before.width as int, before.height as int),
            ));
            assert(is_masking_of(before, image@, p, sel));
            assert(self.masks_random_selection(before, image@));
        }
        Ok(image)
    }
}

/// Why a transform was refused before any pixel was touched.
#[derive(Clone, Copy, Debug, PartialEq, Eq, Structural)]
pub enum MaskError {
    /// A patch size of zero leaves the grid undefined.
    ZeroPatchSize,
    /// A ratio with a zero denominator is no ratio.
    ZeroRatioDenominator,
}

pub open spec fn in_square(x: int, y: int, x0: int, y0: int, size: int) -> bool {
    x0 <= x < x0 + size && y0 <= y < y0 + size
}

/// Sets every pixel of the `size` x `size` square at `(x0, y0)` to `pixel`.
fn fill_square(image: &mut PixelBuffer, x0: u32, y0: u32, size: u32, pixel: [u8; 4])
    requires
        old(image)@.wf(),
        x0 as int + size as int <= old(image)@.width,
        y0 as int + size as int <= old(image)@.height,
    ensures
        final(image)@.wf(),
        final(image)@.width == old(image)@.width,
        final(image)@.height == old(image)@.height,
        forall|a: int, b: int|
            #![trigger final(image)@.pixel(a, b)]
            old(image)@.in_bounds(a, b) ==> final(image)@.pixel(a, b) == if in_square(
                a,
                b,
                x0 as int,
                y0 as int,
                size as int,
            ) {
                pixel
            } else {
                old(image)@.pixel(a, b)
            },
{
    let ghost before = image@;
    let _ = image.dimensions();
    let x_end: u32 = x0 + size;
    let y_end: u32 = y0 + size;
    let mut y: u32 = y0;
    while y < y_end
        invariant
            y0 <= y <= y_end,
            x_end == x0 + size,
            y_end == y0 + size,
            x_end <= before.width,
            y_end <= before.height,
            image@.wf(),
            image@.width == before.width,
            image@.height == before.height,
            forall|a: int, b: int|
                #![trigger image@.pixel(a, b)]
                before.in_bounds(a, b) ==> image@.pixel(a, b) == if x0 <= a < x_end && y0 <= b
                    < y {
                    pixel
                } else {
                    before.pixel(a, b)
                },
        decreases y_end - y,
    {
        let mut x: u32 = x0;
        while x < x_end
            invariant
                y0 <= y < y_end,
                x0 <= x <= x_end,
                x_end == x0 + size,
                y_end == y0 + size,
                x_end <= before.width,
                y_end <= before.height,
                image@.wf(),
                image@.width == before.width,
                image@.height == before.height,
                forall|a: int, b: int|
                    #![trigger image@.pixel(a, b)]
                    before.in_bounds(a, b) ==> image@.pixel(a, b) == if (x0 <= a < x_end && y0
                        <= b < y) || (x0 <= a < x && b == y) {
                        pixel
                    } else {
                        before.pixel(a, b)
                    },
            decreases x_end - x,
        {
            image.put_pixel(x, y, pixel);
            x = x + 1;
        }
        y = y + 1;
    }
}

/// Overwrites with the mask value every pixel of each patch whose row-major
/// index is listed; all other pixels, the trailing partial strips among them,
/// keep their values.
pub fn mask_patches(image: &mut PixelBuffer, patch_size: u32, indices: &Vec<u64>)
    requires
        old(image)@.wf(),
        patch_size > 0,
        forall|i: int|
            0 <= i < indices@.len() ==> (indices@[i] as int) < num_patches(
                old(image)@.width as int,
                old(image)@.height as int,
                patch_size as int,
            ),
    ensures
        is_masking_of(old(image)@, final(image)@, patch_size as int, index_set(indices@)),
{
    let ghost before = image@;
    let ghost p = patch_size as int;
    let (width, height) = image.dimensions();
    let (per_row, per_col, total) = patch_grid(width, height, patch_size);
    if total == 0 {
        proof {
            assert forall|x: int, y: int| before.in_bounds(x, y) implies !in_tiled_region(
                x,
                y,
                width as int,
                height as int,
                p,
            ) by {
                assert((per_row as int) * (per_col as int) == 0);
                if per_row == 0 {
                    assert((per_row as int) * p == 0) by (nonlinear_arith)
                        requires
                            per_row == 0,
                    ;
                } else {
                    assert(per_col == 0) by (nonlinear_arith)
                        requires
                            (per_row as int) * (per_col as int) == 0,
                            per_row > 0,
                    ;
                    assert((per_col as int) * p == 0) by (nonlinear_arith)
                        requires
                            per_col == 0,
                    ;
                }
            }
        }
        return ;
    }
    proof {
        assert(per_row > 0) by (nonlinear_arith)
            requires
                (per_row as int) * (per_col as int) != 0,
                per_row >= 0,
                per_col >= 0,
        ;
    }
    let divisor = strength_reduce::StrengthReducedU64::new(per_row as u64);
    let mut t: usize = 0;
    while t < indices.len()
        invariant
            0 <= t <= indices@.len(),
            before.wf(),
            width as int == before.width,
            height as int == before.height,
            p == patch_size as int,
            p > 0,
            per_row as int == patches_per_row(width as int, p),
            per_col as int == patches_per_col(height as int, p),
            per_row > 0,
            crate::outside::reduced_divisor(divisor) == per_row as u64,
            forall|i: int|
                0 <= i < indices@.len() ==> (indices@[i] as int) < num_patches(
                    width as int,
                    height as int,
                    p,
                ),
            image@.wf(),
            image@.width == before.width,
            image@.height == before.height,
            forall|x: int, y: int|
                #![trigger image@.pixel(x, y)]
                before.in_bounds(x, y) ==> image@.pixel(x, y) == if is_masked(
                    x,
                    y,
                    width as int,
                    height as int,
                    p,
                    index_set(indices@.subrange(0, t as int)),
                ) {
                    MASK_PIXEL
                } else {
                    before.pixel(x, y)
                },
        decreases indices@.len() - t,
    {
        let index = indices[t];
        let (row, col) = strength_reduce::StrengthReducedU64::div_rem(index, divisor);
        let ghost done = index_set(indices@.subrange(0, t as int));
        let ghost next = index_set(indices@.subrange(0, t as int + 1));
        proof {
            let (i, r, c, ppr) = (index as int, row as int, col as int, per_row as int);
            vstd::arithmetic::div_mod::lemma_fundamental_div_mod(i, ppr);
            vstd::arithmetic::div_mod::lemma_mod_bound(i, ppr);
            vstd::arithmetic::div_mod::lemma_div_pos_is_pos(i, ppr);
            vstd::arithmetic::div_mod::lemma_fundamental_div_mod(width as int, p);
            vstd::arithmetic::div_mod::lemma_mod_bound(width as int, p);
            vstd::arithmetic::div_mod::lemma_fundamental_div_mod(height as int, p);
            vstd::arithmetic::div_mod::lemma_mod_bound(height as int, p);
            assert(i == r * ppr + c) by (nonlinear_arith)
                requires
                    i == ppr * (i / ppr) + i % ppr,
                    r == i / ppr,
                    c == i % ppr,
            ;
            assert(r < per_col as int) by (nonlinear_arith)
                requires
                    i == r * ppr + c,
                    0 <= c,
                    i < ppr * (per_col as int),
                    ppr > 0,
            ;
            assert(c * p + p <= width as int) by (nonlinear_arith)
                requires
                    c + 1 <= ppr,
                    ppr == (width as int) / p,
                    p > 0,
                    width as int == p * ((width as int) / p) + (width as int) % p,
                    0 <= (width as int) % p,
            ;
            assert(r * p + p <= height as int) by (nonlinear_arith)
                requires
                    r + 1 <= per_col as int,
                    per_col as int == (height as int) / p,
                    p > 0,
                    height as int == p * ((height as int) / p) + (height as int) % p,
                    0 <= (height as int) % p,
            ;
            // the set of handled indices grows by this one
            let s = indices@.subrange(0, t as int);
            let s1 = indices@.subrange(0, t as int + 1);
            assert(s1 == s.push(index));
            assert(s1.map_values(|v: u64| v as int) == s.map_values(|v: u64| v as int).push(i));
            assert forall|k: int| next.contains(k) <==> (done.contains(k) || k == i) by {
                let ms = s.map_values(|v: u64| v as int);
                let ms1 = s1.map_values(|v: u64| v as int);
                if next.contains(k) {
                    let j = choose|j: int| 0 <= j < ms1.len() && ms1[j] == k;
                    if j < ms.len() {
                        assert(ms[j] == k);
                    }
                }
                if done.contains(k) {
                    let j = choose|j: int| 0 <= j < ms.len() && ms[j] == k;
                    assert(ms1[j] == k);
                }
                if k == i {
                    assert(ms1[ms.len() as int] == k);
                }
            }
        }
        let start_x: u32 = col as u32 * patch_size;
        let start_y: u32 = row as u32 * patch_size;
        let ghost mid = image@;
        fill_square(image, start_x, start_y, patch_size, MASK_PIXEL);
        proof {
            assert forall|x: int, y: int| #![trigger image@.pixel(x, y)] before.in_bounds(x, y) implies image@.pixel(x, y) == if is_masked(
                x,
                y,
                width as int,
                height as int,
                p,
                next,
            ) {
                MASK_PIXEL
            } else {
                before.pixel(x, y)
            } by {
                lemma_patch_square(x, y, width as int, height as int, p, row as int, col as int);
                assert(mid.pixel(x, y) == if is_masked(x, y, width as int, height as int, p, done) {
                    MASK_PIXEL
                } else {
                    before.pixel(x, y)
                });
            }
        }
        t = t + 1;
    }
    proof {
        assert(indices@.subrange(0, indices@.len() as int) == indices@);
    }
}

} // verus!
