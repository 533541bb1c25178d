//! The response envelope the gateway's API layer wraps every result in.

use vstd::prelude::*;

verus! {

/// Envelope for a result handed back to a caller: either a payload or an
/// error message, with a flag saying which.
#[derive(Debug)]
pub struct ApiResponse<T> {
    pub success: bool,
    pub data: Option<T>,
    pub error: Option<String>,
}

impl<T> ApiResponse<T> {
    /// Wraps a payload as a successful response.
    pub fn success(data: T) -> (r: ApiResponse<T>)
        ensures
            r.success,
            r.data == Some(data),
            r.error is None,
    {
        ApiResponse { success: true, data: Some(data), error: None }
    }

    /// Wraps a message as a failed response.
    pub fn error(message: &str) -> (r: ApiResponse<T>)
        ensures
            !r.success,
            r.data is None,
            r.error matches Some(m) && m@ == message@,
    {
        ApiResponse { success: false, data: None, error: Some(message.to_string()) }
    }
}

} // verus!
