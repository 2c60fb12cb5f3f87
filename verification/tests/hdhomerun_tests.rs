use m3u_filter::hdhomerun::{
    build_discover_response, discover_responses, parse_tlv, process_getset_request,
    seal_packet, should_reply, tcp_request_action, write_tlv_str, write_tlv_u32, write_tlv_u8,
    HdHomeRunConfig, HdHomeRunDeviceConfig, TcpAction,
};

fn device(name: &str, id: &str, enabled: bool) -> HdHomeRunDeviceConfig {
    HdHomeRunDeviceConfig {
        name: name.to_string(),
        device_id: id.to_string(),
        port: 5004,
        tuner_count: 2,
        t_enabled: enabled,
    }
}

fn request(msg_type: u16, payload: &[u8]) -> Vec<u8> {
    let mut body = Vec::new();
    body.extend_from_slice(&msg_type.to_be_bytes());
    body.extend_from_slice(&(payload.len() as u16).to_be_bytes());
    body.extend_from_slice(payload);
    let crc = crc32fast::hash(&body);
    body.extend_from_slice(&crc.to_le_bytes());
    body
}

#[test]
fn tlv_writers() {
    let mut buf = Vec::new();
    write_tlv_u32(&mut buf, 0x02, 0x1234_5678);
    assert_eq!(buf, vec![0x02, 4, 0x12, 0x34, 0x56, 0x78]);
    let mut buf = Vec::new();
    write_tlv_u8(&mut buf, 0x10, 3);
    assert_eq!(buf, vec![0x10, 1, 3]);
    let mut buf = Vec::new();
    write_tlv_str(&mut buf, 0x03, "ab");
    assert_eq!(buf, vec![0x03, 2, b'a', b'b']);
    let long = "x".repeat(200);
    let mut buf = Vec::new();
    write_tlv_str(&mut buf, 0x04, &long);
    assert_eq!(&buf[..4], &[0x04, 0x82, 0x00, 200]);
    assert_eq!(buf.len(), 204);
}

#[test]
fn tlv_parse_reads_back_written_records() {
    let mut buf = Vec::new();
    write_tlv_u32(&mut buf, 0x02, 0xDEAD_BEEF);
    write_tlv_str(&mut buf, 0x2A, &"u".repeat(300));
    write_tlv_u8(&mut buf, 0x10, 7);
    let tags = parse_tlv(&buf);
    assert_eq!(tags.len(), 3);
    assert_eq!(tags[&0x02], vec![0xDE, 0xAD, 0xBE, 0xEF]);
    assert_eq!(tags[&0x2A], vec![b'u'; 300]);
    assert_eq!(tags[&0x10], vec![7]);
}

#[test]
fn tlv_parse_truncated_and_repeated() {
    // a later record of the same tag replaces the earlier one
    let tags = parse_tlv(&[0x01, 1, 5, 0x01, 1, 6]);
    assert_eq!(tags.len(), 1);
    assert_eq!(tags[&0x01], vec![6]);
    // a value cut short ends decoding
    let tags = parse_tlv(&[0x01, 1, 5, 0x02, 4, 1, 2]);
    assert_eq!(tags.len(), 1);
    // a lone tag byte ends decoding
    let tags = parse_tlv(&[0x07]);
    assert!(tags.is_empty());
    // an extended length field
    let tags = parse_tlv(&[0x09, 0x81, 2, 0xAA, 0xBB]);
    assert_eq!(tags[&0x09], vec![0xAA, 0xBB]);
}

#[test]
fn sealed_packet_layout() {
    let packet = seal_packet(0x0003, &[1, 2, 3]);
    assert_eq!(&packet[..7], &[0x00, 0x03, 0x00, 0x03, 1, 2, 3]);
    let crc = crc32fast::hash(&packet[..7]);
    assert_eq!(&packet[7..], &crc.to_le_bytes());
}

#[test]
fn discover_response_contents() {
    let d = device("tuner", "1A2B3C4D", true);
    let response = build_discover_response(&d, "192.168.1.2");
    assert_eq!(&response[..2], &[0x00, 0x03]);
    let payload_len = u16::from_be_bytes([response[2], response[3]]) as usize;
    assert_eq!(response.len(), 4 + payload_len + 4);
    let tags = parse_tlv(&response[4..4 + payload_len]);
    assert_eq!(tags[&0x01], vec![0, 0, 0, 1]);
    assert_eq!(tags[&0x02], vec![0x1A, 0x2B, 0x3C, 0x4D]);
    assert_eq!(tags[&0x2A], b"http://192.168.1.2:5004".to_vec());
    assert_eq!(tags[&0x10], vec![2]);
    assert_eq!(tags[&0x27], b"http://192.168.1.2:5004/lineup.json".to_vec());
    let crc = crc32fast::hash(&response[..4 + payload_len]);
    assert_eq!(&response[4 + payload_len..], &crc.to_le_bytes());
    // an id that is not hexadecimal is announced as 0
    let tags = parse_tlv(&build_discover_response(&device("t", "xyz", true), "h")[4..]);
    assert_eq!(tags[&0x02], vec![0, 0, 0, 0]);
}

#[test]
fn discovery_replies() {
    let config = HdHomeRunConfig {
        enabled: true,
        devices: vec![device("a", "10", true), device("b", "20", false), device("c", "30", true)],
    };
    // no id: all enabled devices answer
    let req = request(0x0002, &[]);
    assert_eq!(discover_responses(&req, &config, "h").len(), 2);
    // wildcard
    let req = request(0x0002, &[0x02, 4, 0xFF, 0xFF, 0xFF, 0xFF]);
    assert_eq!(discover_responses(&req, &config, "h").len(), 2);
    // one id
    let req = request(0x0002, &[0x02, 4, 0, 0, 0, 0x30]);
    let replies = discover_responses(&req, &config, "h");
    assert_eq!(replies.len(), 1);
    assert_eq!(replies[0], build_discover_response(&config.devices[2], "h"));
    // an id no device has
    let req = request(0x0002, &[0x02, 4, 0, 0, 0, 0x99]);
    assert!(discover_responses(&req, &config, "h").is_empty());
    // another type, too short, disabled
    assert!(discover_responses(&request(0x0004, &[]), &config, "h").is_empty());
    assert!(discover_responses(&[0, 2, 0], &config, "h").is_empty());
    let off = HdHomeRunConfig { enabled: false, devices: vec![device("a", "10", true)] };
    assert!(discover_responses(&request(0x0002, &[]), &off, "h").is_empty());
    assert!(should_reply(None, 5));
    assert!(should_reply(Some(0xFFFF_FFFF), 5));
    assert!(!should_reply(Some(4), 5));
}

fn reply_tags(reply: &[u8]) -> std::collections::HashMap<u8, Vec<u8>> {
    assert_eq!(&reply[..2], &[0x00, 0x05]);
    let len = u16::from_be_bytes([reply[2], reply[3]]) as usize;
    let crc = crc32fast::hash(&reply[..4 + len]);
    assert_eq!(&reply[4 + len..], &crc.to_le_bytes());
    parse_tlv(&reply[4..4 + len])
}

#[test]
fn getset_model() {
    let req = request(0x0004, &[0x03, 11, b'/', b's', b'y', b's', b'/', b'm', b'o', b'd', b'e', b'l', 0]);
    let reply = process_getset_request(&req, &vec![]);
    let tags = reply_tags(&reply);
    assert_eq!(tags[&0x03], b"/sys/model".to_vec());
    assert_eq!(tags[&0x04], b"hdhomerun4_atsc".to_vec());
}

fn name_request(name: &str) -> Vec<u8> {
    let mut payload = Vec::new();
    write_tlv_str(&mut payload, 0x03, name);
    request(0x0004, &payload)
}

#[test]
fn getset_tuner_status_and_vchannel() {
    let streams = vec!["Sport 1".to_string()];
    let tags = reply_tags(&process_getset_request(&name_request("/tuner0/status"), &streams));
    assert_eq!(
        tags[&0x04],
        b"ch=Sport 1 lock=8vsb ss=98 snq=80 seq=90 bps=12345678 pps=1234".to_vec()
    );
    let tags = reply_tags(&process_getset_request(&name_request("/tuner1/status"), &streams));
    assert_eq!(tags[&0x04], b"ch=none lock=none ss=0 snq=0 seq=0 bps=0 pps=0".to_vec());
    let tags = reply_tags(&process_getset_request(&name_request("/tuner0/vchannel"), &streams));
    assert_eq!(tags[&0x04], b"Sport 1".to_vec());
    let tags = reply_tags(&process_getset_request(&name_request("/tuner3/vchannel"), &streams));
    assert_eq!(tags[&0x04], b"none".to_vec());
    // a tuner number that does not parse: only the name comes back
    let tags = reply_tags(&process_getset_request(&name_request("/tunerX/status"), &streams));
    assert_eq!(tags.len(), 1);
    assert_eq!(tags[&0x03], b"/tunerX/status".to_vec());
}

#[test]
fn getset_lockkey_other_and_missing_name() {
    let tags = reply_tags(&process_getset_request(&name_request("/tuner0/lockkey"), &vec![]));
    assert_eq!(tags[&0x05], b"ERROR: resource locked".to_vec());
    let tags = reply_tags(&process_getset_request(&name_request("/sys/other"), &vec![]));
    assert_eq!(tags[&0x04], Vec::<u8>::new());
    let reply = process_getset_request(&request(0x0004, &[]), &vec![]);
    assert_eq!(reply.len(), 8);
    assert!(reply_tags(&reply).is_empty());
}

#[test]
fn getset_bad_crc_is_empty() {
    let mut req = name_request("/sys/model");
    let last = req.len() - 1;
    req[last] ^= 0xFF;
    assert!(process_getset_request(&req, &vec![]).is_empty());
}

#[test]
fn tcp_actions() {
    let streams = vec![];
    assert!(matches!(tcp_request_action(&[0, 4], &streams), TcpAction::Ignore));
    assert!(matches!(tcp_request_action(&request(0x0002, &[]), &streams), TcpAction::Ignore));
    let mut bad = name_request("/sys/model");
    bad[5] ^= 1;
    assert!(matches!(tcp_request_action(&bad, &streams), TcpAction::Close));
    match tcp_request_action(&name_request("/sys/model"), &streams) {
        TcpAction::Reply(bytes) => assert_eq!(bytes, process_getset_request(&name_request("/sys/model"), &streams)),
        _ => panic!("expected a reply"),
    }
    assert!(matches!(tcp_request_action(&[0, 4, 0, 0, 0, 0], &streams), TcpAction::Close));
}

#[test]
fn getset_name_with_invalid_utf8_is_echoed_lossily() {
    let req = request(0x0004, &[0x03, 3, b'/', 0xFF, b'x']);
    let tags = reply_tags(&process_getset_request(&req, &vec![]));
    assert_eq!(tags[&0x03], "/\u{FFFD}x".as_bytes().to_vec());
    assert_eq!(tags[&0x04], Vec::<u8>::new());
}
