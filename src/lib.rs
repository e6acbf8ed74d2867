//! Patch masking for RGBA images: a random subset of the whole square patches
//! that tile an image is overwritten with fully transparent black.

mod format;
mod geometry;
mod laws;
mod mask;
mod outside;
mod pixels;

pub use outside::{lower_of, reduced_divisor};
pub use format::{is_supported_extension, is_supported_image_format, supported_extensions};
pub use geometry::{
    in_tiled_region, index_set, is_masked, is_masking_of, is_selection, mask_count, mask_count_for,
    num_patches, patch_grid, patch_index_of, patches_per_col, patches_per_row,
};
pub use laws::{
    lemma_boundary_untouched, lemma_degenerate_image, lemma_full_coverage, lemma_full_selection,
    lemma_mask_count_is_floor_clamped, lemma_patch_index_in_range, lemma_patch_integrity,
    lemma_zero_ratio_twice,
};
pub use mask::{mask_patches, select_patches, MaskError, PatchMaskGenerator};
pub use pixels::{ImageModel, PixelBuffer, MASK_PIXEL};
