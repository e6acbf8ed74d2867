use fast_mask::{
    is_supported_extension, is_supported_image_format, mask_count_for, mask_patches, patch_grid,
    select_patches, MaskError, PatchMaskGenerator, PixelBuffer, MASK_PIXEL,
};

const FILL: [u8; 4] = [10, 20, 30, 255];

fn pattern(width: u32, height: u32) -> PixelBuffer {
    let mut pixels = Vec::new();
    for y in 0..height {
        for x in 0..width {
            pixels.push([(x % 251) as u8 + 1, (y % 251) as u8 + 1, 7, 255]);
        }
    }
    PixelBuffer::from_pixels(width, height, pixels).unwrap()
}

fn filled(width: u32, height: u32) -> PixelBuffer {
    PixelBuffer::from_pixels(width, height, vec![FILL; (width * height) as usize]).unwrap()
}

/// Counts the patches that are wholly the mask value and checks that every
/// other patch pixel and every strip pixel is unchanged.
fn masked_patches(before: &PixelBuffer, after: &PixelBuffer, patch: u32) -> usize {
    let (w, h) = before.dimensions();
    assert_eq!(after.dimensions(), (w, h));
    let mut count = 0;
    for row in 0..h / patch {
        for col in 0..w / patch {
            let first = after.get_pixel(col * patch, row * patch).unwrap();
            let is_masked = first == MASK_PIXEL;
            for y in row * patch..(row + 1) * patch {
                for x in col * patch..(col + 1) * patch {
                    let expected = if is_masked { MASK_PIXEL } else { before.get_pixel(x, y).unwrap() };
                    assert_eq!(after.get_pixel(x, y).unwrap(), expected);
                }
            }
            if is_masked {
                count += 1;
            }
        }
    }
    for y in 0..h {
        for x in 0..w {
            if x >= (w / patch) * patch || y >= (h / patch) * patch {
                assert_eq!(after.get_pixel(x, y), before.get_pixel(x, y));
            }
        }
    }
    count
}

#[test]
fn half_of_four_quadrants() {
    let image = pattern(32, 32);
    let out = PatchMaskGenerator::new(1, 2, 16).transform(image.clone()).unwrap();
    assert_eq!(patch_grid(32, 32, 16), (2, 2, 4));
    assert_eq!(mask_count_for(4, 1, 2), 2);
    assert_eq!(masked_patches(&image, &out, 16), 2);
}

#[test]
fn masked_count_matches_ratio() {
    let image = pattern(64, 48);
    let out = PatchMaskGenerator::new(1, 3, 16).transform(image.clone()).unwrap();
    assert_eq!(masked_patches(&image, &out, 16), 4);
}

#[test]
fn strips_are_never_touched() {
    let image = pattern(45, 37);
    for _ in 0..10 {
        let out = PatchMaskGenerator::new(1, 2, 16).transform(image.clone()).unwrap();
        assert_eq!(masked_patches(&image, &out, 16), 2);
    }
}

#[test]
fn zero_ratio_twice_keeps_image() {
    let image = pattern(40, 40);
    let gen = PatchMaskGenerator::new(0, 5, 8);
    let once = gen.transform(image.clone()).unwrap();
    let twice = gen.transform(once.clone()).unwrap();
    assert_eq!(once, image);
    assert_eq!(twice, image);
}

#[test]
fn full_ratio_masks_every_whole_patch() {
    let image = pattern(35, 20);
    let out = PatchMaskGenerator::new(1, 1, 16).transform(image.clone()).unwrap();
    assert_eq!(masked_patches(&image, &out, 16), 2);
    for y in 0..20 {
        for x in 0..35 {
            let expected = if x < 32 && y < 16 { MASK_PIXEL } else { image.get_pixel(x, y).unwrap() };
            assert_eq!(out.get_pixel(x, y).unwrap(), expected);
        }
    }
}

#[test]
fn ratio_above_one_is_clamped() {
    let image = filled(48, 32);
    let out = PatchMaskGenerator::new(3, 2, 16).transform(image.clone()).unwrap();
    assert_eq!(masked_patches(&image, &out, 16), 6);
    assert_eq!(mask_count_for(6, 3, 2), 6);
}

#[test]
fn image_smaller_than_a_patch_is_unchanged() {
    let image = filled(10, 10);
    let out = PatchMaskGenerator::new(1, 1, 16).transform(image.clone()).unwrap();
    assert_eq!(patch_grid(10, 10, 16), (0, 0, 0));
    assert_eq!(out, image);
    let narrow = pattern(10, 64);
    assert_eq!(PatchMaskGenerator::new(1, 1, 16).transform(narrow.clone()).unwrap(), narrow);
}

#[test]
fn zero_patch_size_is_refused() {
    let result = PatchMaskGenerator::new(1, 2, 0).transform(filled(4, 4));
    assert_eq!(result.err(), Some(MaskError::ZeroPatchSize));
}

#[test]
fn zero_ratio_denominator_is_refused() {
    let result = PatchMaskGenerator::new(1, 0, 2).transform(filled(4, 4));
    assert_eq!(result.err(), Some(MaskError::ZeroRatioDenominator));
}

#[test]
fn mask_count_values() {
    assert_eq!(mask_count_for(10, 3, 10), 3);
    assert_eq!(mask_count_for(10, 1, 3), 3);
    assert_eq!(mask_count_for(7, 0, 1), 0);
    assert_eq!(mask_count_for(0, 1, 2), 0);
    assert_eq!(mask_count_for(u64::MAX, u32::MAX - 1, u32::MAX), u64::MAX - u32::MAX as u64 - 2);
}

#[test]
fn grid_drops_partial_strips() {
    assert_eq!(patch_grid(35, 20, 16), (2, 1, 2));
    assert_eq!(patch_grid(224, 224, 16), (14, 14, 196));
    assert_eq!(patch_grid(u32::MAX, u32::MAX, 1), (u32::MAX, u32::MAX, u32::MAX as u64 * u32::MAX as u64));
}

#[test]
fn selected_patches_are_distinct_and_in_range() {
    for _ in 0..50 {
        let chosen = select_patches(20, 7);
        assert_eq!(chosen.len(), 7);
        let mut seen = [false; 20];
        for &i in &chosen {
            assert!(i < 20);
            assert!(!seen[i as usize]);
            seen[i as usize] = true;
        }
    }
    assert_eq!(select_patches(5, 5).len(), 5);
    assert!(select_patches(5, 0).is_empty());
}

#[test]
fn selection_is_roughly_uniform() {
    let trials = 20000;
    let mut hits = [0u32; 10];
    for _ in 0..trials {
        for i in select_patches(10, 3) {
            hits[i as usize] += 1;
        }
    }
    let expected = trials as f64 * 3.0 / 10.0;
    for &h in &hits {
        assert!((h as f64 - expected).abs() < expected * 0.1, "frequency {} far from {}", h, expected);
    }
}

#[test]
fn listed_patches_are_masked_in_place() {
    let mut image = pattern(48, 32);
    let before = image.clone();
    mask_patches(&mut image, 16, &vec![4]);
    for y in 0..32 {
        for x in 0..48 {
            let expected = if (16..32).contains(&x) && (16..32).contains(&y) {
                MASK_PIXEL
            } else {
                before.get_pixel(x, y).unwrap()
            };
            assert_eq!(image.get_pixel(x, y).unwrap(), expected);
        }
    }
    mask_patches(&mut image, 16, &vec![2, 0]);
    assert_eq!(image.get_pixel(40, 5).unwrap(), MASK_PIXEL);
    assert_eq!(image.get_pixel(3, 15).unwrap(), MASK_PIXEL);
    assert_eq!(image.get_pixel(20, 5).unwrap(), before.get_pixel(20, 5).unwrap());
}

#[test]
fn pixel_buffer_access() {
    assert!(PixelBuffer::from_pixels(2, 2, vec![FILL; 3]).is_none());
    let mut image = filled(3, 2);
    assert_eq!(image.len(), 6);
    assert_eq!(image.get_pixel(3, 0), None);
    assert_eq!(image.get_pixel(0, 2), None);
    image.put_pixel(2, 1, [1, 2, 3, 4]);
    assert_eq!(image.get_pixel(2, 1), Some([1, 2, 3, 4]));
    assert_eq!(image.get_pixel(1, 1), Some(FILL));
    let pixels = image.into_pixels();
    assert_eq!(pixels[5], [1, 2, 3, 4]);
}

#[test]
fn generator_keeps_configuration() {
    let gen = PatchMaskGenerator::new(1, 5, 16);
    assert_eq!(gen.ratio_numerator(), 1);
    assert_eq!(gen.ratio_denominator(), 5);
    assert_eq!(gen.patch_size(), 16);
}

#[test]
fn supported_formats_ignore_case() {
    assert!(is_supported_image_format("png"));
    assert!(is_supported_image_format("JpEg"));
    assert!(is_supported_image_format("TIFF"));
    assert!(is_supported_image_format("farbfeld"));
    assert!(!is_supported_image_format("txt"));
    assert!(!is_supported_image_format(""));
    assert!(!is_supported_image_format("pngx"));
    assert!(is_supported_extension("webp"));
    assert!(!is_supported_extension("WEBP"));
}
