//! Colour quantization through `imagequant`.
use vstd::prelude::*;
use imagequant::Error as QuantError;

verus! {

#[verifier::external_type_specification]
#[verifier::external_body]
pub struct ExIqAttributes(imagequant::Attributes);

#[verifier::external_type_specification]
#[verifier::external_body]
pub struct ExIqHistogram(imagequant::Histogram);

#[verifier::external_type_specification]
#[verifier::external_body]
pub struct ExIqImage<'pixels>(imagequant::Image<'pixels>);

#[verifier::external_type_specification]
#[verifier::external_body]
pub struct ExIqQuantizationResult(imagequant::QuantizationResult);

#[verifier::external_type_specification]
#[verifier::external_body]
pub struct ExIqError(QuantError);

/// Quantizer settings: speed, colour limit, and the `(minimum, target)`
/// quality pair (`None` while `set_quality` has not been called).
pub type IqSettings = (i32, u32, Option<(u8, u8)>);

/// What a quantization result was made from: each image counted (its RGBA
/// bytes, width and height), the settings, and whether its palette is frozen
/// (made by `Histogram::quantize`) or may still be refined while remapping
/// (made by `Attributes::quantize`).
pub type IqSource = (Seq<(Seq<u8>, nat, nat)>, IqSettings, bool);

/// The settings held by quantizer attributes.
pub uninterp spec fn iq_settings(attr: imagequant::Attributes) -> IqSettings;

/// The RGBA bytes (whole pixels) an image was made from.
pub uninterp spec fn iq_image_rgba(image: imagequant::Image<'static>) -> Seq<u8>;

/// The `(width, height)` an image was made with.
pub uninterp spec fn iq_image_size(image: imagequant::Image<'static>) -> (nat, nat);

/// The settings under which an image has been counted for a palette since
/// it was made (`None`: not counted). Counting may compute the image's
/// contrast maps, which later remapping uses, and whether it does depends
/// on those settings.
pub uninterp spec fn iq_image_counted(image: imagequant::Image<'static>) -> Option<IqSettings>;

/// The settings a histogram was made with and the images counted into it.
pub uninterp spec fn iq_hist_source(hist: imagequant::Histogram) -> (IqSettings, Seq<(Seq<u8>, nat, nat)>);

/// What a quantization result was made from.
pub uninterp spec fn iq_result_source(result: imagequant::QuantizationResult) -> IqSource;

/// The dithering level last set on a quantization result.
pub uninterp spec fn iq_result_dither(result: imagequant::QuantizationResult) -> nat;

/// Whether a quantization result has remapped an image since it was made or
/// its dithering level was last set (remapping replaces its palette).
pub uninterp spec fn iq_result_remapped(result: imagequant::QuantizationResult) -> bool;

/// The palette, as `(r, g, b, a)` entries, of a quantization result made
/// from `source` before any remapping.
pub uninterp spec fn iq_palette_of(source: IqSource) -> Seq<(u8, u8, u8, u8)>;

/// The palette and the palette indices that `QuantizationResult::remapped`
/// gives for an image (its RGBA bytes, size, and the settings it was counted
/// under, if any), for a result made from `source` with the given dithering
/// level.
pub uninterp spec fn iq_remap_of(source: IqSource, dither: nat, rgba: Seq<u8>, width: nat, height: nat, counted: Option<IqSettings>)
    -> (Seq<(u8, u8, u8, u8)>, Seq<u8>);

/// `imagequant::new`: fresh settings, speed 4, up to 256 colours, no quality
/// range set.
#[verifier::external_body]
pub(crate) fn iq_new() -> (res: imagequant::Attributes)
    ensures
        iq_settings(res) == (4i32, 256u32, None::<(u8, u8)>),
{
    imagequant::new()
}

/// `Attributes::set_speed`: accepts exactly the speeds `1..=10`; a refused
/// speed changes nothing.
#[verifier::external_body]
pub(crate) fn iq_set_speed(attr: &mut imagequant::Attributes, speed: i32) -> (res: Result<(), QuantError>)
    ensures
        res is Ok <==> 1 <= speed <= 10,
        res is Ok ==> iq_settings(*final(attr)) == (speed, iq_settings(*old(attr)).1, iq_settings(*old(attr)).2),
        res is Err ==> iq_settings(*final(attr)) == iq_settings(*old(attr)),
{
    attr.set_speed(speed)
}

/// `Attributes::set_max_colors`: accepts exactly the counts `2..=256`; a
/// refused count changes nothing.
#[verifier::external_body]
pub(crate) fn iq_set_max_colors(attr: &mut imagequant::Attributes, colors: u32) -> (res: Result<(), QuantError>)
    ensures
        res is Ok <==> 2 <= colors <= 256,
        res is Ok ==> iq_settings(*final(attr)) == (iq_settings(*old(attr)).0, colors, iq_settings(*old(attr)).2),
        res is Err ==> iq_settings(*final(attr)) == iq_settings(*old(attr)),
{
    attr.set_max_colors(colors)
}

/// `Attributes::set_quality`: accepts a target of at most 100 that is not
/// below the minimum; a refused pair changes nothing.
#[verifier::external_body]
pub(crate) fn iq_set_quality(attr: &mut imagequant::Attributes, minimum: u8, target: u8) -> (res: Result<(), QuantError>)
    ensures
        res is Ok <==> (target <= 100 && minimum <= target),
        res is Ok ==> iq_settings(*final(attr)) == (iq_settings(*old(attr)).0, iq_settings(*old(attr)).1, Some((minimum, target))),
        res is Err ==> iq_settings(*final(attr)) == iq_settings(*old(attr)),
{
    attr.set_quality(minimum, target)
}

/// `Attributes::new_image` on RGBA bytes (four per pixel, sRGB gamma): the
/// image is made from the whole pixels of `rgba`, with the given size. It is
/// made whenever both sides are positive and within `i32`, the pixel count
/// times the 16-byte internal pixel fits in `isize`, and the bytes hold
/// `width * height` pixels.
#[verifier::external_body]
pub(crate) fn iq_new_image(attr: &imagequant::Attributes, rgba: &[u8], width: usize, height: usize)
    -> (res: Result<imagequant::Image<'static>, QuantError>)
    ensures
        0 < width <= i32::MAX && 0 < height <= i32::MAX && width * height <= (isize::MAX as int) / 16
            && rgba@.len() >= width * height * 4 ==> res is Ok,
        res matches Ok(image) ==> iq_image_rgba(image) == rgba@.subrange(0, ((rgba@.len() / 4) * 4) as int)
            && iq_image_size(image) == (width as nat, height as nat) && iq_image_counted(image) is None,
{
    let pixels: Vec<imagequant::RGBA> =
        rgba.chunks_exact(4).map(|p| imagequant::RGBA::new(p[0], p[1], p[2], p[3])).collect();
    attr.new_image(pixels, width, height, Default::default())
}

/// `Histogram::new`: an empty histogram for the given settings.
#[verifier::external_body]
pub(crate) fn iq_histogram_new(attr: &imagequant::Attributes) -> (res: imagequant::Histogram)
    ensures
        iq_hist_source(res) == (iq_settings(*attr), Seq::<(Seq<u8>, nat, nat)>::empty()),
{
    imagequant::Histogram::new(attr)
}

/// `Histogram::add_image` with the settings the histogram was made with, on
/// an image not counted before: the image is counted, and it keeps its pixels
/// and size.
#[verifier::external_body]
pub(crate) fn iq_histogram_add_image(
    hist: &mut imagequant::Histogram,
    attr: &imagequant::Attributes,
    image: &mut imagequant::Image<'static>,
) -> (res: Result<(), QuantError>)
    requires
        iq_hist_source(*old(hist)).0 == iq_settings(*attr),
        iq_image_counted(*old(image)) is None,
    ensures
        iq_image_rgba(*final(image)) == iq_image_rgba(*old(image)),
        iq_image_size(*final(image)) == iq_image_size(*old(image)),
        iq_image_counted(*final(image)) == Some(iq_settings(*attr)),
        res is Ok ==> iq_hist_source(*final(hist)) == (iq_hist_source(*old(hist)).0, iq_hist_source(*old(hist)).1.push(
            (iq_image_rgba(*old(image)), iq_image_size(*old(image)).0, iq_image_size(*old(image)).1))),
{
    hist.add_image(attr, image)
}

/// `Histogram::quantize` with the settings the histogram was made with: a
/// result with a frozen palette for the images counted.
#[verifier::external_body]
pub(crate) fn iq_histogram_quantize(hist: &mut imagequant::Histogram, attr: &imagequant::Attributes)
    -> (res: Result<imagequant::QuantizationResult, QuantError>)
    requires
        iq_hist_source(*old(hist)).0 == iq_settings(*attr),
    ensures
        res matches Ok(r) ==> iq_result_source(r) == (iq_hist_source(*old(hist)).1, iq_settings(*attr), true)
            && !iq_result_remapped(r),
{
    hist.quantize(attr)
}

/// `Attributes::quantize` on an image not counted before: a result whose
/// palette may still be refined, made from that one image; the image is now
/// counted and keeps its pixels and size.
#[verifier::external_body]
pub(crate) fn iq_quantize(attr: &imagequant::Attributes, image: &mut imagequant::Image<'static>)
    -> (res: Result<imagequant::QuantizationResult, QuantError>)
    requires
        iq_image_counted(*old(image)) is None,
    ensures
        iq_image_rgba(*final(image)) == iq_image_rgba(*old(image)),
        iq_image_size(*final(image)) == iq_image_size(*old(image)),
        iq_image_counted(*final(image)) == Some(iq_settings(*attr)),
        res matches Ok(r) ==> iq_result_source(r) == (seq![(iq_image_rgba(*old(image)), iq_image_size(*old(image)).0,
            iq_image_size(*old(image)).1)], iq_settings(*attr), false) && !iq_result_remapped(r),
{
    attr.quantize(image)
}

/// `QuantizationResult::set_dithering_level` with a whole-number level:
/// accepts exactly the levels 0 and 1; an accepted level also drops the
/// palette of an earlier remapping.
#[verifier::external_body]
pub(crate) fn iq_set_dithering_level(result: &mut imagequant::QuantizationResult, level: u8)
    -> (res: Result<(), QuantError>)
    ensures
        res is Ok <==> level <= 1,
        iq_result_source(*final(result)) == iq_result_source(*old(result)),
        res is Ok ==> iq_result_dither(*final(result)) == level && !iq_result_remapped(*final(result)),
        res is Err ==> iq_result_dither(*final(result)) == iq_result_dither(*old(result))
            && iq_result_remapped(*final(result)) == iq_result_remapped(*old(result)),
{
    result.set_dithering_level(From::from(level))
}

/// `QuantizationResult::palette` as `(r, g, b, a)` entries: at most 256 of
/// them; before any remapping, the palette made from the result's source.
#[verifier::external_body]
pub(crate) fn iq_palette(result: &mut imagequant::QuantizationResult) -> (res: Vec<(u8, u8, u8, u8)>)
    ensures
        res@.len() <= 256,
        !iq_result_remapped(*old(result)) ==> res@ == iq_palette_of(iq_result_source(*old(result))),
        iq_result_source(*final(result)) == iq_result_source(*old(result)),
        iq_result_dither(*final(result)) == iq_result_dither(*old(result)),
        iq_result_remapped(*final(result)) == iq_result_remapped(*old(result)),
{
    result.palette().iter().map(|c| (c.r, c.g, c.b, c.a)).collect()
}

/// `QuantizationResult::remapped`: the palette (at most 256 entries) and one
/// palette index per pixel of the image, as `iq_remap_of` names them for the
/// result's source and dithering level and the image's pixels, size and the
/// settings it was counted under.
#[verifier::external_body]
pub(crate) fn iq_remapped(result: &mut imagequant::QuantizationResult, image: &mut imagequant::Image<'static>)
    -> (res: Result<(Vec<(u8, u8, u8, u8)>, Vec<u8>), QuantError>)
    ensures
        iq_result_source(*final(result)) == iq_result_source(*old(result)),
        iq_result_dither(*final(result)) == iq_result_dither(*old(result)),
        res matches Ok((palette, indexed)) ==> palette@.len() <= 256
            && indexed@.len() == iq_image_size(*old(image)).0 * iq_image_size(*old(image)).1
            && (palette@, indexed@) == iq_remap_of(iq_result_source(*old(result)), iq_result_dither(*old(result)),
                iq_image_rgba(*old(image)), iq_image_size(*old(image)).0, iq_image_size(*old(image)).1,
                iq_image_counted(*old(image))),
{
    result.remapped(image).map(|(p, i)| (p.iter().map(|c| (c.r, c.g, c.b, c.a)).collect(), i))
}

/// The text of an `QuantError` (its `Display`). Nothing is claimed of it.
#[verifier::external_body]
pub(crate) fn iq_error_text(e: QuantError) -> (res: String) {
    e.to_string()
}

} // verus!
