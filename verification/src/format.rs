use vstd::prelude::*;

verus! {

/// Supported input image formats.
#[derive(Debug, Clone, Copy, PartialEq, Eq, Structural)]
pub enum ImageFormat {
    Jpeg,
    Png,
    Gif,
    Bmp,
    Webp,
    /// HEIC/HEIF (ISO base media file with an HEVC/HEIF brand)
    Heic,
    Tiff,
}

/// `p` is a prefix of `s`.
pub open spec fn has_prefix(s: Seq<u8>, p: Seq<u8>) -> bool {
    p.len() <= s.len() && s.subrange(0, p.len() as int) == p
}

/// `p` occurs in `s` at offset `off`.
pub open spec fn has_at(s: Seq<u8>, off: int, p: Seq<u8>) -> bool {
    0 <= off && off + p.len() <= s.len() && s.subrange(off, off + p.len()) == p
}

pub open spec fn jpeg_magic() -> Seq<u8> { seq![0xffu8, 0xd8u8, 0xffu8] }
pub open spec fn png_magic() -> Seq<u8> { seq![0x89u8, 0x50u8, 0x4eu8, 0x47u8, 0x0du8, 0x0au8, 0x1au8, 0x0au8] }
/// "GIF87a"
pub open spec fn gif87_magic() -> Seq<u8> { seq![0x47u8, 0x49u8, 0x46u8, 0x38u8, 0x37u8, 0x61u8] }
/// "GIF89a"
pub open spec fn gif89_magic() -> Seq<u8> { seq![0x47u8, 0x49u8, 0x46u8, 0x38u8, 0x39u8, 0x61u8] }
/// "BM"
pub open spec fn bmp_magic() -> Seq<u8> { seq![0x42u8, 0x4du8] }
/// "WEBP", found at offset 8 of a RIFF container.
pub open spec fn webp_tag() -> Seq<u8> { seq![0x57u8, 0x45u8, 0x42u8, 0x50u8] }
/// "II*\0" (little-endian TIFF)
pub open spec fn tiff_le_magic() -> Seq<u8> { seq![0x49u8, 0x49u8, 0x2au8, 0x00u8] }
/// "MM\0*" (big-endian TIFF)
pub open spec fn tiff_be_magic() -> Seq<u8> { seq![0x4du8, 0x4du8, 0x00u8, 0x2au8] }
/// "ftyp", the ISO base media file type box, found at offset 4.
pub open spec fn ftyp_tag() -> Seq<u8> { seq![0x66u8, 0x74u8, 0x79u8, 0x70u8] }

/// The four-byte brands of the ISO base media file that mark HEIC/HEIF content:
/// heic, heix, heim, heis, hevm, hevs, mif1, msf1.
pub open spec fn is_heif_brand(b: Seq<u8>) -> bool {
    b.len() == 4 && (
        b == seq![0x68u8, 0x65u8, 0x69u8, 0x63u8]
        || b == seq![0x68u8, 0x65u8, 0x69u8, 0x78u8]
        || b == seq![0x68u8, 0x65u8, 0x69u8, 0x6du8]
        || b == seq![0x68u8, 0x65u8, 0x69u8, 0x73u8]
        || b == seq![0x68u8, 0x65u8, 0x76u8, 0x6du8]
        || b == seq![0x68u8, 0x65u8, 0x76u8, 0x73u8]
        || b == seq![0x6du8, 0x69u8, 0x66u8, 0x31u8]
        || b == seq![0x6du8, 0x73u8, 0x66u8, 0x31u8]
    )
}

/// Format detection by magic bytes. Inputs shorter than 12 bytes are never
/// recognised; the signatures are tried in a fixed order.
pub open spec fn spec_detect(d: Seq<u8>) -> Option<ImageFormat> {
    if d.len() < 12 {
        None
    } else if has_prefix(d, jpeg_magic()) {
        Some(ImageFormat::Jpeg)
    } else if has_prefix(d, png_magic()) {
        Some(ImageFormat::Png)
    } else if has_prefix(d, gif87_magic()) || has_prefix(d, gif89_magic()) {
        Some(ImageFormat::Gif)
    } else if has_prefix(d, bmp_magic()) {
        Some(ImageFormat::Bmp)
    } else if has_at(d, 8, webp_tag()) {
        Some(ImageFormat::Webp)
    } else if has_prefix(d, tiff_le_magic()) || has_prefix(d, tiff_be_magic()) {
        Some(ImageFormat::Tiff)
    } else if has_at(d, 4, ftyp_tag()) {
        if is_heif_brand(d.subrange(8, 12)) {
            Some(ImageFormat::Heic)
        } else {
            None
        }
    } else {
        None
    }
}

/// Formats that are often already well compressed, for which the original
/// bytes are kept when compression would make them larger.
pub open spec fn spec_keeps_original_if_larger(f: ImageFormat) -> bool {
    f == ImageFormat::Webp || f == ImageFormat::Jpeg || f == ImageFormat::Png
}

/// Whether `data[off..off + pat.len()]` equals `pat`.
fn bytes_at(data: &[u8], off: usize, pat: &[u8]) -> (res: bool)
    requires
        off + pat@.len() <= data@.len(),
    ensures
        res == has_at(data@, off as int, pat@),
{
    let mut i: usize = 0;
    while i < pat.len()
        invariant
            i <= pat@.len(),
            off + pat@.len() <= data@.len(),
            forall|j: int| 0 <= j < i ==> data@[off + j] == pat@[j],
        decreases pat@.len() - i,
    {
        assert(off + i < data.len());
        if data[off + i] != pat[i] {
            assert(data@.subrange(off as int, off + pat@.len())[i as int] != pat@[i as int]);
            return false;
        }
        i = i + 1;
    }
    assert(data@.subrange(off as int, off + pat@.len()) =~= pat@);
    true
}

impl ImageFormat {
    /// Attempt to detect the image format from magic bytes.
    pub fn detect(data: &[u8]) -> (res: Option<ImageFormat>)
        ensures
            res == spec_detect(data@),
    {
        if data.len() < 12 {
            return None;
        }
        let jpeg: [u8; 3] = [0xff, 0xd8, 0xff];
        let png: [u8; 8] = [0x89, 0x50, 0x4e, 0x47, 0x0d, 0x0a, 0x1a, 0x0a];
        let gif87: [u8; 6] = [0x47, 0x49, 0x46, 0x38, 0x37, 0x61];
        let gif89: [u8; 6] = [0x47, 0x49, 0x46, 0x38, 0x39, 0x61];
        let bmp: [u8; 2] = [0x42, 0x4d];
        let webp: [u8; 4] = [0x57, 0x45, 0x42, 0x50];
        let tiff_le: [u8; 4] = [0x49, 0x49, 0x2a, 0x00];
        let tiff_be: [u8; 4] = [0x4d, 0x4d, 0x00, 0x2a];
        let ftyp: [u8; 4] = [0x66, 0x74, 0x79, 0x70];
        assert(jpeg@ =~= jpeg_magic());
        assert(png@ =~= png_magic());
        assert(gif87@ =~= gif87_magic());
        assert(gif89@ =~= gif89_magic());
        assert(bmp@ =~= bmp_magic());
        assert(webp@ =~= webp_tag());
        assert(tiff_le@ =~= tiff_le_magic());
        assert(tiff_be@ =~= tiff_be_magic());
        assert(ftyp@ =~= ftyp_tag());
        if bytes_at(data, 0, jpeg.as_slice()) {
            Some(ImageFormat::Jpeg)
        } else if bytes_at(data, 0, png.as_slice()) {
            Some(ImageFormat::Png)
        } else if bytes_at(data, 0, gif87.as_slice()) || bytes_at(data, 0, gif89.as_slice()) {
            Some(ImageFormat::Gif)
        } else if bytes_at(data, 0, bmp.as_slice()) {
            Some(ImageFormat::Bmp)
        } else if bytes_at(data, 8, webp.as_slice()) {
            Some(ImageFormat::Webp)
        } else if bytes_at(data, 0, tiff_le.as_slice()) || bytes_at(data, 0, tiff_be.as_slice()) {
            Some(ImageFormat::Tiff)
        } else if bytes_at(data, 4, ftyp.as_slice()) {
            let b0 = data[8];
            let b1 = data[9];
            let b2 = data[10];
            let b3 = data[11];
            let ghost brand = data@.subrange(8, 12);
            assert(brand =~= seq![b0, b1, b2, b3]);
            let heif = (b0 == 0x68 && b1 == 0x65 && (
                    (b2 == 0x69 && (b3 == 0x63 || b3 == 0x78 || b3 == 0x6d || b3 == 0x73))
                    || (b2 == 0x76 && (b3 == 0x6d || b3 == 0x73))))
                || (b0 == 0x6d && b1 == 0x69 && b2 == 0x66 && b3 == 0x31)
                || (b0 == 0x6d && b1 == 0x73 && b2 == 0x66 && b3 == 0x31);
            assert(heif == is_heif_brand(brand)) by {
                if is_heif_brand(brand) {
                    assert(brand[0] == b0 && brand[1] == b1 && brand[2] == b2 && brand[3] == b3);
                }
            }
            if heif {
                Some(ImageFormat::Heic)
            } else {
                None
            }
        } else {
            None
        }
    }

    /// Returns `true` if the format may already be well compressed (WebP, JPEG
    /// or PNG), so the original should be kept when the output is larger.
    pub fn should_use_original_if_larger(&self) -> (res: bool)
        ensures
            res == spec_keeps_original_if_larger(*self),
    {
        match self {
            ImageFormat::Webp | ImageFormat::Jpeg | ImageFormat::Png => true,
            _ => false,
        }
    }
}

} // verus!
