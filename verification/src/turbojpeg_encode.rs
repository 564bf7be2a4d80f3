//! Checks made before RGBA pixels are handed to the JPEG encoder.
use vstd::prelude::*;
use crate::error::Error;
use crate::text::{decimal, spec_decimal};

verus! {

/// Both sides must be positive and the buffer must hold exactly `w * h`
/// RGBA pixels.
pub fn check_rgba_frame(rgba_len: usize, w: u32, h: u32) -> (res: Result<(), Error>)
    ensures
        (w == 0 || h == 0) ==> (res matches Err(Error::EncodeError(m)) && m@ == "invalid image dimensions"@),
        w > 0 && h > 0 && rgba_len != w * h * 4 ==> (res matches Err(Error::EncodeError(m))
            && m@ == "invalid RGBA length: got "@ + spec_decimal(rgba_len as nat) + ", expected "@
                + spec_decimal((w * h * 4) as nat)),
        w > 0 && h > 0 && rgba_len == w * h * 4 ==> res is Ok,
{
    if w == 0 || h == 0 {
        return Err(Error::EncodeError(String::from_str("invalid image dimensions")));
    }
    proof {
        assert((w as int) * (h as int) <= 0xffff_ffffint * 0xffff_ffffint) by (nonlinear_arith)
            requires w <= 0xffff_ffff, h <= 0xffff_ffff;
    }
    let expected: u128 = (w as u128) * (h as u128) * 4;
    if rgba_len as u128 != expected {
        let msg = String::from_str("invalid RGBA length: got ")
            .concat(decimal(rgba_len as u128).as_str())
            .concat(", expected ")
            .concat(decimal(expected).as_str());
        return Err(Error::EncodeError(msg));
    }
    Ok(())
}

} // verus!
