//! Error codes carried by RST_STREAM and GOAWAY, and the result type of the
//! stream operations.

use vstd::prelude::*;

verus! {

/// The error codes of RFC 7540, section 7.
#[derive(Clone, Copy, Debug, PartialEq, Eq, Structural)]
pub enum ErrorCode {
    NoError,
    ProtocolError,
    InternalError,
    FlowControlError,
    SettingsTimeout,
    StreamClosed,
    FrameSizeError,
    RefusedStream,
    Cancel,
    CompressionError,
    ConnectError,
    EnhanceYourCalm,
    InadequateSecurity,
    Http11Required,
}

impl ErrorCode {
    /// The 32-bit value that stands for this code on the wire.
    pub open spec fn spec_code(self) -> u32 {
        match self {
            ErrorCode::NoError => 0x0,
            ErrorCode::ProtocolError => 0x1,
            ErrorCode::InternalError => 0x2,
            ErrorCode::FlowControlError => 0x3,
            ErrorCode::SettingsTimeout => 0x4,
            ErrorCode::StreamClosed => 0x5,
            ErrorCode::FrameSizeError => 0x6,
            ErrorCode::RefusedStream => 0x7,
            ErrorCode::Cancel => 0x8,
            ErrorCode::CompressionError => 0x9,
            ErrorCode::ConnectError => 0xa,
            ErrorCode::EnhanceYourCalm => 0xb,
            ErrorCode::InadequateSecurity => 0xc,
            ErrorCode::Http11Required => 0xd,
        }
    }

    /// The code that a wire value stands for; a value that the protocol does
    /// not define is read as `InternalError`, as RFC 7540 section 7 allows.
    pub open spec fn spec_from_code(v: u32) -> ErrorCode {
        if v == 0x0 {
            ErrorCode::NoError
        } else if v == 0x1 {
            ErrorCode::ProtocolError
        } else if v == 0x3 {
            ErrorCode::FlowControlError
        } else if v == 0x4 {
            ErrorCode::SettingsTimeout
        } else if v == 0x5 {
            ErrorCode::StreamClosed
        } else if v == 0x6 {
            ErrorCode::FrameSizeError
        } else if v == 0x7 {
            ErrorCode::RefusedStream
        } else if v == 0x8 {
            ErrorCode::Cancel
        } else if v == 0x9 {
            ErrorCode::CompressionError
        } else if v == 0xa {
            ErrorCode::ConnectError
        } else if v == 0xb {
            ErrorCode::EnhanceYourCalm
        } else if v == 0xc {
            ErrorCode::InadequateSecurity
        } else if v == 0xd {
            ErrorCode::Http11Required
        } else {
            ErrorCode::InternalError
        }
    }

    pub fn code(self) -> (r: u32)
        ensures
            r == self.spec_code(),
            r <= 0xd,
    {
        match self {
            ErrorCode::NoError => 0x0,
            ErrorCode::ProtocolError => 0x1,
            ErrorCode::InternalError => 0x2,
            ErrorCode::FlowControlError => 0x3,
            ErrorCode::SettingsTimeout => 0x4,
            ErrorCode::StreamClosed => 0x5,
            ErrorCode::FrameSizeError => 0x6,
            ErrorCode::RefusedStream => 0x7,
            ErrorCode::Cancel => 0x8,
            ErrorCode::CompressionError => 0x9,
            ErrorCode::ConnectError => 0xa,
            ErrorCode::EnhanceYourCalm => 0xb,
            ErrorCode::InadequateSecurity => 0xc,
            ErrorCode::Http11Required => 0xd,
        }
    }

    pub fn from_code(v: u32) -> (r: ErrorCode)
        ensures
            r == Self::spec_from_code(v),
    {
        match v {
            0x0 => ErrorCode::NoError,
            0x1 => ErrorCode::ProtocolError,
            0x3 => ErrorCode::FlowControlError,
            0x4 => ErrorCode::SettingsTimeout,
            0x5 => ErrorCode::StreamClosed,
            0x6 => ErrorCode::FrameSizeError,
            0x7 => ErrorCode::RefusedStream,
            0x8 => ErrorCode::Cancel,
            0x9 => ErrorCode::CompressionError,
            0xa => ErrorCode::ConnectError,
            0xb => ErrorCode::EnhanceYourCalm,
            0xc => ErrorCode::InadequateSecurity,
            0xd => ErrorCode::Http11Required,
            _ => ErrorCode::InternalError,
        }
    }

    /// Reading back the wire value of a code gives that code.
    pub proof fn lemma_code_round_trip(c: ErrorCode)
        ensures
            Self::spec_from_code(c.spec_code()) == c,
    {
    }
}

/// How far a protocol violation reaches.
#[derive(Clone, Copy, Debug, PartialEq, Eq, Structural)]
pub enum Severity {
    /// Only one stream is affected: it is reset, the connection goes on.
    Stream,
    /// The whole connection is compromised: GOAWAY, then closed.
    Connection,
}

/// Why a stream operation did not produce an event.
#[derive(Clone, Copy, Debug, PartialEq, Eq, Structural)]
pub enum ProtoError {
    /// The input ends inside a frame; the number tells how many more bytes
    /// are needed before the frame is complete. Not a fault: call again
    /// once more input has arrived.
    ParseIncomplete(u32),
    /// The send window has too little credit; wait for a WINDOW_UPDATE.
    WouldBlock,
    /// A violation that resets the stream with the given code.
    StreamError(ErrorCode),
    /// A violation that ends the connection with the given code.
    ConnectionError(ErrorCode),
}

pub type ProtoResult<T> = Result<T, ProtoError>;

} // verus!
