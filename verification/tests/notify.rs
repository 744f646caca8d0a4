use event_storage::notify::{decode_sample, should_notify, BeaconServer, NotifyEvent, NotifyServer};

#[test]
fn notify_server_keeps_handles() {
    let server = NotifyServer::new(3, 4);
    assert_eq!(server.cccd_handle, 3);
    assert_eq!(server.value_handle, 4);
}

#[test]
fn write_to_descriptor_with_enable_value_raises_event() {
    let server = NotifyServer::new(3, 4);
    let event = server.on_write(3, &[0x01, 0x00]);
    assert!(matches!(event, Some(NotifyEvent::NotifyEnabled)));
}

#[test]
fn other_writes_raise_no_event() {
    let server = NotifyServer::new(3, 4);
    assert!(server.on_write(4, &[0x01, 0x00]).is_none());
    assert!(server.on_write(3, &[0x00, 0x00]).is_none());
    assert!(server.on_write(3, &[0x01]).is_none());
    assert!(server.on_write(3, &[0x01, 0x00, 0x00]).is_none());
}

#[test]
fn subscribe_request_detection() {
    assert!(should_notify(&[0x01, 0x00]));
    assert!(!should_notify(&[0x00, 0x00]));
    assert!(!should_notify(&[0x01]));
    assert!(!should_notify(&[0x00, 0x01]));
}

#[test]
fn sample_payloads_decode_only_single_bytes() {
    assert_eq!(decode_sample(&[7]), Some(7));
    assert_eq!(decode_sample(&[]), None);
    assert_eq!(decode_sample(&[1, 2]), None);
}

#[test]
fn beacon_server_acknowledges_every_write() {
    let server = BeaconServer {};
    assert!(server.on_write(&[0x05]).is_some());
}
