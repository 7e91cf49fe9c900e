use vstd::prelude::*;

verus! {

/// The type `std::string::FromUtf8Error`, carried by [`Error::Utf8`].
#[verifier::external_type_specification]
#[verifier::external_body]
pub struct ExFromUtf8Error(std::string::FromUtf8Error);

/// The input/output failures of the in-memory cursor.
#[derive(Debug, Clone, Copy, PartialEq, Eq)]
pub enum IoError {
    /// A read asked for more bytes than lie before the cursor's position.
    SeekBeforeStart,
    /// A write would move the position past `usize::MAX`.
    PositionOverflow,
}

/// Everything that can go wrong while pushing or popping values.
#[derive(Debug)]
pub enum Error {
    Io(IoError),
    Utf8(std::string::FromUtf8Error),
    CharTooLong(usize),
    CharMissing,
    ValueTooLarge,
    InvalidVlq(u64),
    DeserializeAnyNotImplemented,
    VariantIndexTooLarge(u32),
    RecursionDepthExceeded,
    DeserializeVariantNotMatched,
    Custom(String),
}

pub type Result<T> = core::result::Result<T, Error>;

pub type CoreResult<T, E> = core::result::Result<T, E>;

/// An `Error::Custom` saying that an array of `len` elements cannot be read:
/// its elements take no bytes and only `remaining` bytes were there. The
/// wording of the message is not stated.
#[verifier::external_body]
pub(crate) fn err_unsatisfiable_array(len: usize, remaining: u64) -> (e: Error)
    ensures
        e is Custom,
{
    Error::Custom(format!(
        "array of {len} elements is unsatisfiable: the element codec consumed no bytes and only {remaining} were available"
    ))
}

/// An `Error::Custom` saying that a map of `len` entries cannot be read. The
/// wording of the message is not stated.
#[verifier::external_body]
pub(crate) fn err_unsatisfiable_map(len: u64, remaining: u64) -> (e: Error)
    ensures
        e is Custom,
{
    Error::Custom(format!(
        "map of {len} entries is unsatisfiable: the entry codecs consumed no bytes and only {remaining} were available"
    ))
}

/// An `Error::Custom` saying that a fixed-length array got `got` elements
/// where it expects `expected`. The wording of the message is not stated.
#[verifier::external_body]
pub(crate) fn err_array_len(expected: usize, got: usize) -> (e: Error)
    ensures
        e is Custom,
{
    Error::Custom(format!("fixed-length array expects {} elements, got {}", expected, got))
}

/// An `Error::Custom` saying that a length does not fit in `usize`. The
/// wording of the message is not stated.
#[verifier::external_body]
pub(crate) fn err_usize(len: u64) -> (e: Error)
    ensures
        e is Custom,
{
    Error::Custom(format!("length {len} exceeds this platform's usize"))
}

/// An `Error::Custom` saying that a bit array claims more bytes than remain.
/// The wording of the message is not stated.
#[verifier::external_body]
pub(crate) fn err_bits(n: usize, need: u64, remaining: u64) -> (e: Error)
    ensures
        e is Custom,
{
    Error::Custom(format!("bit array claims {n} bits ({need} bytes) but only {remaining} remain"))
}

/// An `Error::Custom` saying that a value is not one of a literal's values.
/// The wording of the message is not stated.
#[verifier::external_body]
pub(crate) fn err_not_literal() -> (e: Error)
    ensures
        e is Custom,
{
    Error::Custom("value is not in the literal set".into())
}

/// An `Error::Custom` saying that a literal's index does not fit in a byte.
/// The wording of the message is not stated.
#[verifier::external_body]
pub(crate) fn err_literal_index(count: usize, idx: usize) -> (e: Error)
    ensures
        e is Custom,
{
    Error::Custom(format!(
        "literal set has {} entries; index {idx} does not fit in one byte",
        count
    ))
}

/// An `Error::Custom` saying that a literal index read back is out of range.
/// The wording of the message is not stated.
#[verifier::external_body]
pub(crate) fn err_literal_range(idx: usize) -> (e: Error)
    ensures
        e is Custom,
{
    Error::Custom(format!("literal index {idx} out of range"))
}

/// An `Error::Custom` saying that a value lies outside `[min, max]`. The
/// wording of the message is not stated.
#[verifier::external_body]
pub(crate) fn err_outside_range(value: i64, min: i64, max: i64) -> (e: Error)
    ensures
        e is Custom,
{
    Error::Custom(format!("value {value} is outside range [{}, {}]", min, max))
}

/// An `Error::Custom` saying that a value read back lies outside `[min, max]`.
/// The wording of the message is not stated.
#[verifier::external_body]
pub(crate) fn err_decoded_outside_range(value: i128, min: i64, max: i64) -> (e: Error)
    ensures
        e is Custom,
{
    Error::Custom(format!("decoded value {value} is outside range [{}, {}]", min, max))
}

/// An `Error::Custom` saying that `x` does not fit in `bytes` bytes. The
/// wording of the message is not stated.
#[verifier::external_body]
pub(crate) fn err_uint_fit(x: u64, bytes: u8) -> (e: Error)
    ensures
        e is Custom,
{
    Error::Custom(format!("value {x} does not fit in {bytes} byte(s)"))
}

/// An `Error::Custom` saying that a width is not one of 1 to 8 bytes. The
/// wording of the message is not stated.
#[verifier::external_body]
pub(crate) fn err_uint_width(bytes: u8) -> (e: Error)
    ensures
        e is Custom,
{
    Error::Custom(format!("uint width {bytes} out of range 1..=8"))
}

/// An `Error::Custom` saying that a sequence claims `more` elements beyond
/// one that took no bytes. The wording of the message is not stated.
#[verifier::external_body]
pub(crate) fn err_zero_width_element(more: u64) -> (e: Error)
    ensures
        e is Custom,
{
    Error::Custom(format!("sequence claims {} more elements but this one consumed no bytes", more))
}

/// An `Error::Custom` saying that a map claims `more` entries beyond one
/// that took no bytes. The wording of the message is not stated.
#[verifier::external_body]
pub(crate) fn err_zero_width_entry(more: u64) -> (e: Error)
    ensures
        e is Custom,
{
    Error::Custom(format!("map claims {} more entries but this one consumed no bytes", more))
}

} // verus!
