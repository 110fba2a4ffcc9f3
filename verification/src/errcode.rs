//! The error codes of the editor protocol, and their integer wire form. Codes
//! outside the fixed taxonomy ride along unclassified and round-trip
//! unchanged.
use vstd::prelude::*;

verus! {

/// Error codes the protocol recognizes, plus a carrier for any other integer.
#[derive(Clone, Copy, Debug, PartialEq, Eq, Hash, Structural)]
pub enum LSPErrCode {
    ParseError,
    InvalidRequest,
    MethodNotFound,
    InvalidParams,
    InternalError,
    ServerNotInitialized,
    Unknown,
    RequestFailed,
    ServerCancelled,
    ContentModified,
    RequestCancelled,
    UnclassifiedError(i64),
}

/// The wire integer of an error code.
pub open spec fn code_of(e: LSPErrCode) -> int {
    match e {
        LSPErrCode::ParseError => -32700,
        LSPErrCode::InvalidRequest => -32600,
        LSPErrCode::MethodNotFound => -32601,
        LSPErrCode::InvalidParams => -32602,
        LSPErrCode::InternalError => -32603,
        LSPErrCode::ServerNotInitialized => -32002,
        LSPErrCode::Unknown => -32001,
        LSPErrCode::RequestFailed => -32803,
        LSPErrCode::ServerCancelled => -32802,
        LSPErrCode::ContentModified => -32801,
        LSPErrCode::RequestCancelled => -32800,
        LSPErrCode::UnclassifiedError(c) => c as int,
    }
}

/// Whether an integer is one of the taxonomy's codes.
pub open spec fn known_code(c: int) -> bool {
    ||| c == -32700
    ||| c == -32600
    ||| c == -32601
    ||| c == -32602
    ||| c == -32603
    ||| c == -32002
    ||| c == -32001
    ||| c == -32803
    ||| c == -32802
    ||| c == -32801
    ||| c == -32800
}

/// The error code an integer deserializes to.
pub open spec fn code_to_err(c: int) -> LSPErrCode {
    if c == -32700 {
        LSPErrCode::ParseError
    } else if c == -32600 {
        LSPErrCode::InvalidRequest
    } else if c == -32601 {
        LSPErrCode::MethodNotFound
    } else if c == -32602 {
        LSPErrCode::InvalidParams
    } else if c == -32603 {
        LSPErrCode::InternalError
    } else if c == -32002 {
        LSPErrCode::ServerNotInitialized
    } else if c == -32001 {
        LSPErrCode::Unknown
    } else if c == -32803 {
        LSPErrCode::RequestFailed
    } else if c == -32802 {
        LSPErrCode::ServerCancelled
    } else if c == -32801 {
        LSPErrCode::ContentModified
    } else if c == -32800 {
        LSPErrCode::RequestCancelled
    } else {
        LSPErrCode::UnclassifiedError(c as i64)
    }
}

/// A code is canonical unless it hides a taxonomy code inside the
/// unclassified carrier.
pub open spec fn canonical(e: LSPErrCode) -> bool {
    match e {
        LSPErrCode::UnclassifiedError(c) => !known_code(c as int),
        _ => true,
    }
}

impl LSPErrCode {
    /// Serialize to the wire integer.
    pub fn to_code(&self) -> (r: i64)
        ensures
            r as int == code_of(*self),
    {
        match *self {
            LSPErrCode::ParseError => -32700,
            LSPErrCode::InvalidRequest => -32600,
            LSPErrCode::MethodNotFound => -32601,
            LSPErrCode::InvalidParams => -32602,
            LSPErrCode::InternalError => -32603,
            LSPErrCode::ServerNotInitialized => -32002,
            LSPErrCode::Unknown => -32001,
            LSPErrCode::RequestFailed => -32803,
            LSPErrCode::ServerCancelled => -32802,
            LSPErrCode::ContentModified => -32801,
            LSPErrCode::RequestCancelled => -32800,
            LSPErrCode::UnclassifiedError(c) => c,
        }
    }

    /// Deserialize from the wire integer; an integer outside the taxonomy is
    /// carried unclassified.
    pub fn from_code(c: i64) -> (r: LSPErrCode)
        ensures
            r == code_to_err(c as int),
    {
        if c == -32700 {
            LSPErrCode::ParseError
        } else if c == -32600 {
            LSPErrCode::InvalidRequest
        } else if c == -32601 {
            LSPErrCode::MethodNotFound
        } else if c == -32602 {
            LSPErrCode::InvalidParams
        } else if c == -32603 {
            LSPErrCode::InternalError
        } else if c == -32002 {
            LSPErrCode::ServerNotInitialized
        } else if c == -32001 {
            LSPErrCode::Unknown
        } else if c == -32803 {
            LSPErrCode::RequestFailed
        } else if c == -32802 {
            LSPErrCode::ServerCancelled
        } else if c == -32801 {
            LSPErrCode::ContentModified
        } else if c == -32800 {
            LSPErrCode::RequestCancelled
        } else {
            LSPErrCode::UnclassifiedError(c)
        }
    }
}

/// Every integer survives the decode–encode round trip: codes outside the
/// taxonomy ride through unchanged.
pub proof fn lemma_code_roundtrip(c: i64)
    ensures
        code_of(code_to_err(c as int)) == c as int,
{
}

/// Every canonical error survives the encode–decode round trip.
pub proof fn lemma_err_roundtrip(e: LSPErrCode)
    requires
        canonical(e),
    ensures
        code_to_err(code_of(e)) == e,
{
}

} // verus!
