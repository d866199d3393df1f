use vstd::prelude::*;

verus! {

/// HTTP status of an accepted request.
pub const STATUS_OK: u16 = 200;

/// HTTP status of a request that created something.
pub const STATUS_CREATED: u16 = 201;

/// HTTP status of a malformed request.
pub const STATUS_BAD_REQUEST: u16 = 400;

/// HTTP status of a request with wrong credentials.
pub const STATUS_UNAUTHORIZED: u16 = 401;

/// HTTP status of a request for something that does not exist.
pub const STATUS_NOT_FOUND: u16 = 404;

/// HTTP status of a request that clashes with what exists.
pub const STATUS_CONFLICT: u16 = 409;

/// HTTP status of a failure on the server's side.
pub const STATUS_INTERNAL_ERROR: u16 = 500;

/// HTTP status of a request that needed another service that could not be
/// reached.
pub const STATUS_BAD_GATEWAY: u16 = 502;

} // verus!
