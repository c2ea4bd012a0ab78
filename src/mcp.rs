//! Errors of the JSON-RPC front end and the error codes they carry.
use vstd::prelude::*;

verus! {

/// Errors of handling a JSON-RPC request.
#[derive(Debug)]
pub enum McpError {
    ParseError(String),
    InvalidRequest(String),
    MethodNotFound(String),
    InternalError(String),
    ArrowError(String),
}

/// The JSON-RPC 2.0 code of a parse error.
pub const PARSE_ERROR: i32 = -32700;

/// The JSON-RPC 2.0 code of an invalid request.
pub const INVALID_REQUEST: i32 = -32600;

/// The JSON-RPC 2.0 code of an unknown method.
pub const METHOD_NOT_FOUND: i32 = -32601;

/// The JSON-RPC 2.0 code of an internal error.
pub const INTERNAL_ERROR: i32 = -32603;

/// The JSON-RPC 2.0 code that answers an error; a table failure is an
/// internal error.
pub open spec fn code_of(e: McpError) -> i32 {
    match e {
        McpError::ParseError(_) => PARSE_ERROR,
        McpError::InvalidRequest(_) => INVALID_REQUEST,
        McpError::MethodNotFound(_) => METHOD_NOT_FOUND,
        McpError::InternalError(_) => INTERNAL_ERROR,
        McpError::ArrowError(_) => INTERNAL_ERROR,
    }
}

impl McpError {
    /// The JSON-RPC 2.0 error code and message that answer this error.
    pub fn rpc_error(self) -> (r: (i32, String))
        ensures
            r.0 == code_of(self),
            self matches McpError::ParseError(m) ==> r.1 == m,
            self matches McpError::InvalidRequest(m) ==> r.1 == m,
            self matches McpError::MethodNotFound(m) ==> r.1 == m,
            self matches McpError::InternalError(m) ==> r.1 == m,
            self matches McpError::ArrowError(m) ==> r.1 == m,
    {
        match self {
            McpError::ParseError(m) => (PARSE_ERROR, m),
            McpError::InvalidRequest(m) => (INVALID_REQUEST, m),
            McpError::MethodNotFound(m) => (METHOD_NOT_FOUND, m),
            McpError::InternalError(m) => (INTERNAL_ERROR, m),
            McpError::ArrowError(m) => (INTERNAL_ERROR, m),
        }
    }
}

} // verus!
