use vstd::prelude::*;

verus! {

#[verifier::external_type_specification]
#[verifier::external_body]
pub struct ExIoError(std::io::Error);

#[verifier::external_type_specification]
#[verifier::external_body]
pub struct ExUtf8Error(core::str::Utf8Error);

/// Why a decode attempt failed for good.
///
/// Running out of buffered bytes is never an error: the streaming decoders
/// report that case separately, as "no packet yet".
#[derive(Clone, Copy, Debug, PartialEq, Eq, Structural)]
pub enum DecodeError {
    /// The CONNECT packet named a protocol or a protocol level other than MQTT 5.
    ProtocolNotSupportedError,
    /// A malformed bit pattern, reserved-bit violation, unknown identifier,
    /// or a length field that does not agree with the bytes present.
    FormatError,
    /// A length-prefixed string held bytes that are not valid UTF-8.
    Utf8Error,
    /// Reserved for the byte source that feeds the codec; the codec itself
    /// never produces it.
    IoError,
}

/// Why an encode attempt failed.
#[derive(Clone, Copy, Debug, PartialEq, Eq, Structural)]
pub enum EncodeError {
    /// A variable-length integer field was handed a value above 268,435,455.
    VariableIntegerOutOfRangeError,
    /// The packet held a property that has no wire encoding here.
    FormatError,
    /// Reserved for the WebSocket transport around the codec; the codec itself
    /// never produces it.
    WebsocketError,
    /// Reserved for the byte sink that the caller writes to; the codec itself
    /// never produces it.
    IoError,
}

impl From<std::io::Error> for DecodeError {
    /// The byte source failed; the value carries no more than that.
    fn from(_error: std::io::Error) -> Self {
        DecodeError::IoError
    }
}

impl vstd::std_specs::convert::FromSpecImpl<std::io::Error> for DecodeError {
    open spec fn obeys_from_spec() -> bool {
        true
    }

    open spec fn from_spec(_error: std::io::Error) -> DecodeError {
        DecodeError::IoError
    }
}

impl From<core::str::Utf8Error> for DecodeError {
    /// A string field held bytes that are not UTF-8.
    fn from(_error: core::str::Utf8Error) -> Self {
        DecodeError::Utf8Error
    }
}

impl vstd::std_specs::convert::FromSpecImpl<core::str::Utf8Error> for DecodeError {
    open spec fn obeys_from_spec() -> bool {
        true
    }

    open spec fn from_spec(_error: core::str::Utf8Error) -> DecodeError {
        DecodeError::Utf8Error
    }
}

impl From<std::io::Error> for EncodeError {
    /// The byte sink failed; the value carries no more than that.
    fn from(_error: std::io::Error) -> Self {
        EncodeError::IoError
    }
}

impl vstd::std_specs::convert::FromSpecImpl<std::io::Error> for EncodeError {
    open spec fn obeys_from_spec() -> bool {
        true
    }

    open spec fn from_spec(_error: std::io::Error) -> EncodeError {
        EncodeError::IoError
    }
}

} // verus!
