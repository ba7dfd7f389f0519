use kukri::events::{
    decode_event, parse_event, DropReason, EventLog, KukriEvent, RAW_EVENT_SIZE,
};
use kukri::settings::Direction;

#[test]
fn parses_c_layout_and_rejects_wrong_size() {
    assert_eq!(RAW_EVENT_SIZE, 32);
    let mut bytes = [0u8; 32];
    bytes[0..8].copy_from_slice(&42u64.to_ne_bytes());
    bytes[8] = 1;
    bytes[9] = 4;
    bytes[12..16].copy_from_slice(&u32::from_be_bytes([10, 0, 0, 1]).to_ne_bytes());
    let event = KukriEvent::try_from(parse_event(&bytes).unwrap()).unwrap();
    assert_eq!(event.ts_ns, 42);
    assert_eq!(event.direction, Direction::Engress);
    assert_eq!(event.reason, DropReason::IpRateLimit);
    assert_eq!(event.ip, Some(u32::from_be_bytes([10, 0, 0, 1])));
    assert!(parse_event(&bytes[..31]).is_none());
}

fn event(ts_ns: u64) -> KukriEvent {
    KukriEvent { ts_ns, direction: Direction::Ingress, reason: DropReason::Mac, ip: None, port: None, mac: None }
}

#[test]
fn log_evicts_oldest() {
    let mut log = EventLog::new();
    for ts_ns in 0..1001 {
        log.push(event(ts_ns));
    }
    assert_eq!(log.iter().count(), 1000);
    assert_eq!(log.iter().next().unwrap().ts_ns, 1);
}

#[test]
fn log_keeps_the_newest_in_order() {
    let mut log = EventLog::new();
    for ts_ns in 0..2500 {
        log.push(event(ts_ns));
    }
    assert_eq!(log.len(), 1000);
    let stamps: Vec<u64> = log.iter().map(|e| e.ts_ns).collect();
    assert_eq!(stamps, (1500..2500).collect::<Vec<u64>>());
    assert_eq!(log.event(999).ts_ns, 2499);
}

#[test]
fn drop_reasons_by_number() {
    assert_eq!(DropReason::try_from(0u8), Ok(DropReason::Mac));
    assert_eq!(DropReason::try_from(5u8), Ok(DropReason::PortRateLimit));
    assert_eq!(DropReason::try_from(6u8), Err(()));
    assert_eq!(DropReason::Ipv4Acl.label(), "IPv4 ACL");
    assert_eq!(DropReason::PortRateLimit.label(), "port rate limit");
}

#[test]
fn zero_fields_decode_as_absent() {
    let mut bytes = [0u8; 32];
    bytes[16..18].copy_from_slice(&8080u16.to_ne_bytes());
    bytes[18..24].copy_from_slice(&[0xaa, 0, 0, 0, 0, 1]);
    let event = decode_event(&bytes).unwrap();
    assert_eq!(event.direction, Direction::Ingress);
    assert_eq!(event.reason, DropReason::Mac);
    assert_eq!(event.ip, None);
    assert_eq!(event.port, Some(8080));
    assert_eq!(event.mac, Some([0xaa, 0, 0, 0, 0, 1]));
}

#[test]
fn unknown_direction_or_reason_is_refused() {
    let mut bytes = [0u8; 32];
    bytes[8] = 2;
    assert!(decode_event(&bytes).is_none());
    bytes[8] = 0;
    bytes[9] = 9;
    assert!(decode_event(&bytes).is_none());
    assert!(decode_event(&bytes[..16]).is_none());
}
