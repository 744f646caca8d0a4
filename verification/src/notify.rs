//! Decisions taken on GATT server traffic.
//!
//! The transport layer delivers attribute writes and notification payloads;
//! the functions here decide what each one means.  The surrounding
//! connection handling stays with the transport layer.

use vstd::prelude::*;

verus! {

/// True for the two-byte little-endian client-configuration value that
/// switches notifications on.
pub open spec fn spec_subscribe_request(data: Seq<u8>) -> bool {
    data.len() == 2 && data[0] == 1 && data[1] == 0
}

/// Whether a characteristic write asks for notifications to start.
pub fn should_notify(data: &[u8]) -> (r: bool)
    ensures
        r == spec_subscribe_request(data@),
{
    data.len() == 2 && data[0] == 1 && data[1] == 0
}

/// Payload validation for one received notification, which carries exactly
/// one byte.
pub fn decode_sample(data: &[u8]) -> (r: Option<u8>)
    ensures
        r is Some <==> data@.len() == 1,
        r matches Some(v) ==> v == data@[0],
{
    if data.len() == 1 {
        Some(data[0])
    } else {
        None
    }
}

/// Handles of the notification characteristic: the client configuration
/// descriptor and the value attribute.
pub struct NotifyServer {
    pub cccd_handle: u16,
    pub value_handle: u16,
}

/// Event surfaced by the notification server.
pub enum NotifyEvent {
    NotifyEnabled,
}

impl NotifyServer {
    pub fn new(cccd_handle: u16, value_handle: u16) -> (r: Self)
        ensures
            r.cccd_handle == cccd_handle,
            r.value_handle == value_handle,
    {
        NotifyServer { cccd_handle, value_handle }
    }

    /// Decision taken on an attribute write: notifications become enabled
    /// exactly when the write hits the configuration descriptor with the
    /// enable value.
    pub fn on_write(&self, handle: u16, data: &[u8]) -> (r: Option<NotifyEvent>)
        ensures
            r is Some <==> handle == self.cccd_handle && spec_subscribe_request(data@),
            r matches Some(e) ==> e is NotifyEnabled,
    {
        if handle == self.cccd_handle && data.len() == 2 && data[0] == 1 && data[1] == 0 {
            Some(NotifyEvent::NotifyEnabled)
        } else {
            None
        }
    }
}

/// Event surfaced by the beacon server.
pub struct BeaconEvent {}

/// GATT server for the beacon: it acknowledges every write.
pub struct BeaconServer {}

impl BeaconServer {
    /// Decision taken on an attribute write: always acknowledged.
    pub fn on_write(&self, _data: &[u8]) -> (r: Option<BeaconEvent>)
        ensures
            r is Some,
    {
        Some(BeaconEvent {  })
    }
}

} // verus!
