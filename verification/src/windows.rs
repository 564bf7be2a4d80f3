//! Decisions of the Windows Imaging Component path that do not need COM.
use vstd::prelude::*;
use crate::error::Error;
use crate::text::{hex_digits, spec_hex_digits};

verus! {

/// Delay used when a frame carries no readable GIF delay.
pub const DEFAULT_DELAY_MS: i32 = 100;

/// `PROPVARIANT` type tag of an unsigned 16-bit value.
pub const VT_UI2: u16 = 18;

/// The delay of a GIF frame from its `/grctlext/Delay` metadata, given as
/// `None` when the query failed, else the variant's type tag and 16-bit
/// payload (hundredths of a second). Anything but a `VT_UI2` value gives the
/// default; a value is turned into milliseconds, at least 10.
pub open spec fn spec_wic_delay_ms(query: Option<(u16, u16)>) -> i32 {
    match query {
        None => DEFAULT_DELAY_MS,
        Some((vt, hundredths)) => if vt != VT_UI2 {
            DEFAULT_DELAY_MS
        } else if hundredths * 10 < 10 {
            10
        } else {
            (hundredths * 10) as i32
        },
    }
}

pub fn wic_delay_ms(query: Option<(u16, u16)>) -> (res: i32)
    ensures
        res == spec_wic_delay_ms(query),
        10 <= res <= 655_350,
{
    match query {
        None => DEFAULT_DELAY_MS,
        Some((vt, hundredths)) => {
            if vt != VT_UI2 {
                DEFAULT_DELAY_MS
            } else {
                let ms: i32 = (hundredths as i32) * 10;
                if ms < 10 { 10 } else { ms }
            }
        },
    }
}

/// An `HRESULT` as the unsigned 32-bit word it is printed as.
pub open spec fn hresult_word(hr: i32) -> nat {
    if hr < 0 { (hr + 0x1_0000_0000) as nat } else { hr as nat }
}

/// The decode error for a failed COM call: `"{call} failed: 0x{hr:08x}"`.
pub fn com_failure(call: &str, hr: i32) -> (res: Error)
    ensures
        res matches Error::DecodeError(m) && m@ == call@ + " failed: 0x"@ + spec_hex_digits(hresult_word(hr), 8),
{
    let word: u32 = if hr < 0 { (hr as i64 + 0x1_0000_0000i64) as u32 } else { hr as u32 };
    Error::DecodeError(String::from_str(call).concat(" failed: 0x").concat(hex_digits(word, 8).as_str()))
}

/// What the WIC path does with a decoder's frames.
#[derive(Debug, Clone, Copy, PartialEq, Eq, Structural)]
pub enum WicRoute {
    /// One frame: a still image.
    Still,
    /// Several frames: an animation.
    Animated,
}

/// Chooses the route from the frame count (`None` when the count could not
/// be read): no readable frame is a decode error.
pub fn wic_route(frame_count: Option<u32>) -> (res: Result<WicRoute, Error>)
    ensures
        (frame_count is None || frame_count == Some(0u32)) <==> (res matches Err(Error::DecodeError(m))
            && m@ == "IWICBitmapDecoder::GetFrameCount returned 0"@),
        frame_count == Some(1u32) ==> res == Ok::<WicRoute, Error>(WicRoute::Still),
        frame_count matches Some(n) && n > 1 ==> res == Ok::<WicRoute, Error>(WicRoute::Animated),
{
    match frame_count {
        Some(n) => {
            if n == 0 {
                Err(Error::DecodeError(String::from_str("IWICBitmapDecoder::GetFrameCount returned 0")))
            } else if n == 1 {
                Ok(WicRoute::Still)
            } else {
                Ok(WicRoute::Animated)
            }
        },
        None => Err(Error::DecodeError(String::from_str("IWICBitmapDecoder::GetFrameCount returned 0"))),
    }
}

} // verus!
