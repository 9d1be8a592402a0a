//! The encoding backend: bytes and a format parameter in, a square matrix of
//! modules or an error out. The matrix itself is computed by the `qrcode`
//! crate; what it computes is not proved here, only named.

use crate::format::{ErrorCorrection, FormatParameter, MAX_SUPPORTED_VERSION, MIN_VERSION};
use crate::symbol::{Matrix, Symbol};
use qrcode::types::QrError;
use qrcode::{EcLevel, QrCode, Version};
use vstd::prelude::*;

verus! {

/// No payload longer than this is handed to the backend. A symbol holds a few
/// thousand bytes at most, and below this bound the backend's bit counts stay
/// far inside the machine's integer range.
pub const MAX_PAYLOAD_LEN: usize = 65_535;

/// Why a payload has no symbol.
#[derive(Clone, Copy, Debug, PartialEq, Eq, Structural)]
pub enum EncodeError {
    /// The encoded payload does not fit the data bits of the format parameter.
    DataTooLong,
    /// The version does not exist, or does not go with the error-correction
    /// level.
    InvalidVersion,
    /// The payload needs a character set that the version does not have.
    UnsupportedCharacterSet,
    /// An ECI designator out of range.
    InvalidEciDesignator,
    /// A byte outside the character set of its segment.
    InvalidCharacter,
    /// The version exists, but it is above `MAX_SUPPORTED_VERSION`: the
    /// backend is not asked for symbols of it.
    UnsupportedVersion,
}

/// What `qrcode::QrCode::with_version` returns for `data` at
/// `Version::Normal(version)` and the error-correction level `level`: the
/// symbol's width with its modules row by row (a flag is set where the module
/// is light), or the reason for which there is no symbol.
pub uninterp spec fn qr_symbol(data: Seq<u8>, version: int, level: ErrorCorrection) -> Result<
    Matrix,
    EncodeError,
>;

/// Calls `qrcode::QrCode::with_version` on `data` with `Version::Normal(version)`
/// and hands back, as plain values, the symbol's width and one flag per module
/// (set for a light module), or which `QrError` came.
///
/// Trusted: the result is the one that the name `qr_symbol` stands for, and a
/// symbol of version `v` is a square of `4 * v + 17` modules per side, as
/// `Version::width` and the canvas that the crate allocates show. The call is
/// made only for versions up to `MAX_SUPPORTED_VERSION` and payloads up to
/// `MAX_PAYLOAD_LEN`, for which the crate's integer arithmetic stays in range.
#[verifier::external_body]
fn backend_encode(data: &[u8], version: i16, level: ErrorCorrection) -> (out: Result<
    (usize, Vec<bool>),
    EncodeError,
>)
    requires
        data@.len() <= MAX_PAYLOAD_LEN,
        MIN_VERSION <= version <= MAX_SUPPORTED_VERSION,
    ensures
        match out {
            Ok((size, cells)) => {
                &&& qr_symbol(data@, version as int, level) == Ok::<Matrix, EncodeError>(
                    (Matrix { size: size as int, cells: cells@ }),
                )
                &&& size == 4 * version + 17
                &&& cells@.len() == size * size
            },
            Err(e) => qr_symbol(data@, version as int, level) == Err::<Matrix, EncodeError>(e),
        },
{
    let ec = match level {
        ErrorCorrection::L => EcLevel::L,
        ErrorCorrection::M => EcLevel::M,
        ErrorCorrection::Q => EcLevel::Q,
        ErrorCorrection::H => EcLevel::H,
    };
    match QrCode::with_version(data, Version::Normal(version), ec) {
        Ok(code) => Ok((code.width(), code.into_colors().into_iter().map(|c| c.select(false, true)).collect())),
        Err(QrError::DataTooLong) => Err(EncodeError::DataTooLong),
        Err(QrError::InvalidVersion) => Err(EncodeError::InvalidVersion),
        Err(QrError::UnsupportedCharacterSet) => Err(EncodeError::UnsupportedCharacterSet),
        Err(QrError::InvalidEciDesignator) => Err(EncodeError::InvalidEciDesignator),
        Err(QrError::InvalidCharacter) => Err(EncodeError::InvalidCharacter),
    }
}

/// The symbol of `data` under `format`, or the reason for which it has none:
/// a version that does not exist is invalid and one above
/// `MAX_SUPPORTED_VERSION` is unsupported, whatever the payload; a payload
/// over `MAX_PAYLOAD_LEN` is too long whatever the format; for any other pair
/// the backend decides.
pub open spec fn encoding_of(data: Seq<u8>, format: FormatParameter) -> Result<
    Matrix,
    EncodeError,
> {
    if !format.wf() {
        Err(EncodeError::InvalidVersion)
    } else if !format.supported() {
        Err(EncodeError::UnsupportedVersion)
    } else if data.len() > MAX_PAYLOAD_LEN {
        Err(EncodeError::DataTooLong)
    } else {
        qr_symbol(data, format.version as int, format.level)
    }
}

/// Whether `data` has a symbol under `format`.
pub open spec fn encodable(data: Seq<u8>, format: FormatParameter) -> bool {
    encoding_of(data, format) is Ok
}

/// Encodes `data` as one symbol of the given format.
pub fn encode(data: &[u8], format: &FormatParameter) -> (out: Result<Symbol, EncodeError>)
    ensures
        match out {
            Ok(symbol) => {
                &&& encoding_of(data@, *format) == Ok::<Matrix, EncodeError>(symbol@)
                &&& symbol@.is_square()
                &&& symbol@.size == format.spec_side()
            },
            Err(e) => encoding_of(data@, *format) == Err::<Matrix, EncodeError>(e),
        },
{
    if !format.is_valid() {
        return Err(EncodeError::InvalidVersion);
    }
    if !format.is_supported() {
        return Err(EncodeError::UnsupportedVersion);
    }
    if data.len() > MAX_PAYLOAD_LEN {
        return Err(EncodeError::DataTooLong);
    }
    match backend_encode(data, format.version, format.level) {
        Ok((size, modules)) => Ok(Symbol::new(size, modules).unwrap()),
        Err(e) => Err(e),
    }
}

/// Whether `data` has a symbol under `format`.
pub fn fits(data: &[u8], format: &FormatParameter) -> (ok: bool)
    ensures
        ok == encodable(data@, *format),
{
    encode(data, format).is_ok()
}

} // verus!
