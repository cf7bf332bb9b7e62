//! Decision logic of the HTTP endpoint adapters: which status each request
//! gets, from what the transport and the registry yielded.  The HTTP layer
//! itself (routing, peer addresses, locking, serialization) lives outside
//! the library and only reports its findings here.

use vstd::prelude::*;
use vstd::string::StringExecFns;

use crate::metrics::RegistryError;

verus! {

/// Success: the report was recorded, or the snapshot delivered.
pub const STATUS_OK: u16 = 200;

/// A caller error: the report named a slot outside the configured range.
pub const STATUS_BAD_REQUEST: u16 = 400;

/// The transport supplied no peer address to key the watcher by.
pub const STATUS_FAILED_DEPENDENCY: u16 = 424;

/// The registry was contended this instant; the caller should retry.
pub const STATUS_SERVICE_UNAVAILABLE: u16 = 503;

/// Decide the report endpoint's response.  `peer_found` says whether the
/// transport supplied a peer address; `report_result` is what the registry
/// answered, or `None` when it could not be reached and no report was made.
pub fn watcher_response_status(
    peer_found: bool,
    report_result: Option<Result<(), RegistryError>>,
) -> (status: u16)
    ensures
        !peer_found ==> status == STATUS_FAILED_DEPENDENCY,
        peer_found && report_result is None ==> status == STATUS_SERVICE_UNAVAILABLE,
        peer_found && report_result == Some(Ok::<(), RegistryError>(())) ==> status == STATUS_OK,
        peer_found && report_result == Some(Err::<(), RegistryError>(RegistryError::InvalidSlot))
            ==> status == STATUS_BAD_REQUEST,
        peer_found && report_result == Some(Err::<(), RegistryError>(RegistryError::Unavailable))
            ==> status == STATUS_SERVICE_UNAVAILABLE,
{
    if !peer_found {
        STATUS_FAILED_DEPENDENCY
    } else {
        match report_result {
            None => STATUS_SERVICE_UNAVAILABLE,
            Some(Ok(())) => STATUS_OK,
            Some(Err(RegistryError::InvalidSlot)) => STATUS_BAD_REQUEST,
            Some(Err(RegistryError::Unavailable)) => STATUS_SERVICE_UNAVAILABLE,
        }
    }
}

/// Decide the snapshot endpoint's status: success when a snapshot was taken,
/// retry-later when the registry could not be reached.
pub fn metrics_response_status(snapshot_taken: bool) -> (status: u16)
    ensures
        snapshot_taken ==> status == STATUS_OK,
        !snapshot_taken ==> status == STATUS_SERVICE_UNAVAILABLE,
{
    if snapshot_taken {
        STATUS_OK
    } else {
        STATUS_SERVICE_UNAVAILABLE
    }
}

/// The degenerate JSON body the snapshot endpoint sends when the registry is
/// unavailable: the literal zero, so the content type stays honest.
pub fn metrics_fallback_body() -> (out: String)
    ensures
        out@ == "0"@,
{
    String::from_str("0")
}

} // verus!
