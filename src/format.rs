use vstd::prelude::*;
use crate::outside::{lower_of, lowercase};

verus! {

/// The file extensions, in lower case, of the raster formats that are read.
pub open spec fn supported_extensions() -> Seq<Seq<char>> {
    seq![
        "avif"@, "bmp"@, "dds"@, "farbfeld"@, "gif"@, "hdr"@, "ico"@, "jpeg"@, "jpg"@, "png"@,
        "pnm"@, "qoi"@, "tga"@, "tif"@, "tiff"@, "webp"@,
    ]
}

fn supported_extension_list() -> (r: Vec<String>)
    ensures
        r@.len() == supported_extensions().len(),
        forall|i: int| 0 <= i < r@.len() ==> r@[i]@ == supported_extensions()[i],
{
    let mut v: Vec<String> = Vec::new();
    v.push("avif".to_owned());
    v.push("bmp".to_owned());
    v.push("dds".to_owned());
    v.push("farbfeld".to_owned());
    v.push("gif".to_owned());
    v.push("hdr".to_owned());
    v.push("ico".to_owned());
    v.push("jpeg".to_owned());
    v.push("jpg".to_owned());
    v.push("png".to_owned());
    v.push("pnm".to_owned());
    v.push("qoi".to_owned());
    v.push("tga".to_owned());
    v.push("tif".to_owned());
    v.push("tiff".to_owned());
    v.push("webp".to_owned());
    v
}

/// Whether an extension that is already in lower case names a supported format.
pub fn is_supported_extension(lowered: &str) -> (r: bool)
    ensures
        r == supported_extensions().contains(lowered@),
{
    let wanted = lowered.to_owned();
    let list = supported_extension_list();
    let mut i: usize = 0;
    while i < list.len()
        invariant
            0 <= i <= list@.len(),
            wanted@ == lowered@,
            list@.len() == supported_extensions().len(),
            forall|k: int| 0 <= k < list@.len() ==> list@[k]@ == supported_extensions()[k],
            forall|k: int| 0 <= k < i ==> supported_extensions()[k] != lowered@,
        decreases list@.len() - i,
    {
        if list[i] == wanted {
            assert(supported_extensions()[i as int] == lowered@);
            return true;
        }
        i = i + 1;
    }
    false
}

/// Whether a file extension names a supported format, in any letter case.
pub fn is_supported_image_format(extension: &str) -> (r: bool)
    ensures
        r == supported_extensions().contains(lower_of(extension@)),
{
    let lowered = lowercase(extension);
    is_supported_extension(lowered.as_str())
}

} // verus!
