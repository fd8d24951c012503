use cortex::config::BusConfig;
use cortex::transport::{
    encode_frame, find_message, parse_message, recv_step, transport_choice, FrameError, RecvStep,
    StubTransport, Transport, TransportChoice,
};

#[test]
fn encode_frame_layout() {
    let f = encode_frame(0x0300_08AA, &[1, 2, 3]);
    let addr: u32 = (0x0300_08AAu32 << 3) | 4;
    let mut expected = vec![b'A', b'T'];
    expected.extend_from_slice(&addr.to_be_bytes());
    expected.push(3);
    expected.extend_from_slice(&[1, 2, 3]);
    expected.extend_from_slice(b"\r\n");
    assert_eq!(f, expected);
}

#[test]
fn parse_encoded_frame_round_trip() {
    let data = [0x7f, 0xfe, 0x80, 0x73, 0x7f, 0xff, 0x01, 0x18];
    let mut f = encode_frame(0x0200_0100, &data);
    f.extend_from_slice(b"ATgarbage");
    let (id, d, len) = parse_message(&f).unwrap();
    assert_eq!(id, 0x0200_0100);
    assert_eq!(d, data.to_vec());
    assert_eq!(len, 17);
}

#[test]
fn parse_cuts_identifier_to_29_bits() {
    let f = encode_frame(0xFFFF_FFFF, &[]);
    let (id, d, len) = parse_message(&f).unwrap();
    assert_eq!(id, 0x1FFF_FFFF);
    assert!(d.is_empty());
    assert_eq!(len, 9);
}

#[test]
fn parse_errors() {
    assert_eq!(parse_message(b"AT\x00\x00").unwrap_err(), FrameError::TooShort);
    assert_eq!(parse_message(b"XT\x00\x00\x00\x00\x00\r\n").unwrap_err(), FrameError::BadPrefix);
    assert_eq!(parse_message(b"AT\x00\x00\x00\x00\x05\x01\r\n").unwrap_err(), FrameError::Incomplete);
    assert_eq!(parse_message(b"AT\x00\x00\x00\x00\x00\r\r").unwrap_err(), FrameError::BadTermination);
}

#[test]
fn find_message_skips_leading_noise() {
    let mut buf = b"xxATzz".to_vec();
    buf.extend(encode_frame(0x1234, &[9, 8]));
    let (id, data) = find_message(&buf).unwrap();
    assert_eq!(id, 0x1234);
    assert_eq!(data, vec![9, 8]);
    assert!(find_message(b"noise without frames").is_none());
}

#[test]
fn recv_step_decisions() {
    assert_eq!(recv_step(b"whatever", 0), RecvStep::EndOfStream);
    let f = encode_frame(7, &[1]);
    assert_eq!(recv_step(&f, f.len()), RecvStep::Frame(7, vec![1]));
    assert_eq!(recv_step(b"AT\x00", 3), RecvStep::ReadMore);
    let full = vec![0u8; 1016];
    assert_eq!(recv_step(&full, 5), RecvStep::BufferFull);
}

#[test]
fn stub_transport_identity_and_reply() {
    let t = StubTransport::new("stub0".to_string());
    assert_eq!(t.kind(), "Stub");
    assert_eq!(t.port(), "stub0");
    let (id, data) = t.reply();
    assert_eq!(id, 0x2000100);
    assert_eq!(data, vec![0x7f, 0xfe, 0x80, 0x73, 0x7f, 0xff, 0x01, 0x18]);
}

#[test]
fn transport_choice_by_bus_config() {
    let mut bus = BusConfig {
        transport: "socketcan".into(),
        port: "COM5".into(),
        socketcan_interface: None,
        baud: 921600,
        can_bitrate: 1000000,
        host_id: 0xAA,
    };
    assert!(matches!(transport_choice(&bus), TransportChoice::SocketCan(i) if i == "can0"));
    bus.socketcan_interface = Some("can1".into());
    assert!(matches!(transport_choice(&bus), TransportChoice::SocketCan(i) if i == "can1"));
    bus.transport = "ch341".into();
    assert!(matches!(transport_choice(&bus), TransportChoice::Ch341(p) if p == "COM5"));
    bus.transport = "anything".into();
    assert!(matches!(transport_choice(&bus), TransportChoice::Ch341(p) if p == "COM5"));
}
