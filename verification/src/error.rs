use vstd::prelude::*;

verus! {

/// Errors reported by the compression pipeline.
#[derive(Debug, PartialEq, Eq)]
pub enum Error {
    UnsupportedFormat(String),
    DecodeError(String),
    EncodeError(String),
    NativeError(String),
    PlatformNotSupported(String),
}

/// The prefix that the human-readable text of each error kind starts with.
pub open spec fn error_prefix(e: Error) -> Seq<char> {
    match e {
        Error::UnsupportedFormat(_) => "Unsupported image format: "@,
        Error::DecodeError(_) => "Decode error: "@,
        Error::EncodeError(_) => "Encode error: "@,
        Error::NativeError(_) => "Native API error: "@,
        Error::PlatformNotSupported(_) => "Platform not supported for format: "@,
    }
}

/// The detail message carried by an error.
pub open spec fn error_detail(e: Error) -> Seq<char> {
    match e {
        Error::UnsupportedFormat(s) => s@,
        Error::DecodeError(s) => s@,
        Error::EncodeError(s) => s@,
        Error::NativeError(s) => s@,
        Error::PlatformNotSupported(s) => s@,
    }
}

impl Error {
    /// Human-readable description: the kind's prefix followed by the detail.
    pub fn describe(&self) -> (res: String)
        ensures
            res@ == error_prefix(*self) + error_detail(*self),
    {
        let (prefix, detail) = match self {
            Error::UnsupportedFormat(s) => ("Unsupported image format: ", s),
            Error::DecodeError(s) => ("Decode error: ", s),
            Error::EncodeError(s) => ("Encode error: ", s),
            Error::NativeError(s) => ("Native API error: ", s),
            Error::PlatformNotSupported(s) => ("Platform not supported for format: ", s),
        };
        let out = String::from_str(prefix);
        out.concat(detail.as_str())
    }
}

} // verus!
