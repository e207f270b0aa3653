use bytes::BytesMut;
use zebra::capability::{Capabilities, Capability, Error, Family};
use zebra::client::{from_bytes, DecodeError, Message, MessageOpen, OpenError, RouterId};
use zebra::message::{decode_header, encode_header, MessageHeader};

#[test]
fn multiprotocol_capability_decode() {
    // code 1, length 4, AFI 1 (IPv4), reserved 0, SAFI 128.
    let buf: Vec<u8> = vec![1, 4, 0, 1, 0, 128];
    let (cap, used) = Capability::from_bytes(&buf, 0).unwrap();
    assert_eq!(used, 6);
    assert_eq!(cap, Capability::MultiProtocol(Family { afi: 1, safi: 128 }));

    // The same record claiming length 3 is malformed.
    let bad: Vec<u8> = vec![1, 3, 0, 1, 0];
    assert_eq!(Capability::from_bytes(&bad, 0), Err(Error::Malformed));
}

#[test]
fn graceful_restart_length_check() {
    // Declared length 5 is neither >= 6 nor 2 + 4k.
    let bad: Vec<u8> = vec![64, 5, 0x12, 0x34, 0, 1, 0];
    assert_eq!(Capability::from_bytes(&bad, 0), Err(Error::Malformed));

    // Declared length 10 carries exactly two family records.
    let good: Vec<u8> = vec![64, 10, 0x12, 0x34, 0, 1, 1, 0x80, 0, 2, 1, 0];
    let (cap, used) = Capability::from_bytes(&good, 0).unwrap();
    assert_eq!(used, 12);
    match cap {
        Capability::GracefulRestart { flags, time, families } => {
            assert_eq!(flags, 0x1);
            assert_eq!(time, 0x234);
            assert_eq!(families.len(), 2);
            assert_eq!(families[0], (Family { afi: 1, safi: 1 }, 0x80));
            assert_eq!(families[1], (Family { afi: 2, safi: 1 }, 0));
        }
        other => panic!("expected a graceful-restart record, got {:?}", other),
    }
}

#[test]
fn unknown_capability_is_kept_opaque() {
    // Code 73 is not decoded: the record is kept, not re-tagged.
    let buf: Vec<u8> = vec![73, 2, 7, 9, 0xAA];
    let (cap, used) = Capability::from_bytes(&buf, 0).unwrap();
    assert_eq!(used, 4);
    assert_eq!(cap, Capability::Unknown { code: 73, data: vec![7, 9] });
}

#[test]
fn capability_encode_decode_round_trip() {
    let caps = vec![
        Capability::MultiProtocol(Family { afi: 2, safi: 1 }),
        Capability::RouteRefresh,
        Capability::FourOctetAs(0xDEAD_BEEF),
        Capability::DynamicCapability,
        Capability::GracefulRestart {
            flags: 0x8,
            time: 120,
            families: vec![(Family { afi: 1, safi: 1 }, 0x80)],
        },
        Capability::AddPath(vec![(Family { afi: 1, safi: 1 }, 3)]),
        Capability::LongLived(vec![(Family { afi: 1, safi: 128 }, 0x80, 0xFFFFFF)]),
        Capability::Unknown { code: 73, data: vec![1, 2, 3] },
    ];
    for cap in caps {
        let mut out: Vec<u8> = Vec::new();
        let n = cap.to_bytes(&mut out);
        assert_eq!(n, out.len());
        let (decoded, used) = Capability::from_bytes(&out, 0).unwrap();
        assert_eq!(used, out.len());
        assert_eq!(decoded, cap);
    }
}

#[test]
fn open_round_trip() {
    // The stock OPEN of the local speaker.
    let msg = MessageOpen::new();
    let body = msg.to_bytes();
    let decoded = MessageOpen::from_bytes(&body).unwrap();
    assert_eq!(decoded, msg);

    // A richer OPEN with several capabilities.
    let mut caps = Capabilities::new();
    caps.push(Capability::MultiProtocol(Family { afi: 1, safi: 1 }));
    caps.push(Capability::FourOctetAs(65_537));
    caps.push(Capability::RouteRefresh);
    let msg = MessageOpen {
        version: 4,
        asn: 64_512,
        hold_time: 180,
        router_id: RouterId(192, 0, 2, 1),
        caps,
    };
    let body = msg.to_bytes();
    let decoded = MessageOpen::from_bytes(&body).unwrap();
    assert_eq!(decoded, msg);
}

#[test]
fn open_rejects_bad_optional_parameter() {
    let msg = MessageOpen::new();
    let mut body = msg.to_bytes();
    // Corrupt the optional parameter type: it must be 2 (capabilities).
    body[10] = 3;
    assert!(MessageOpen::from_bytes(&body).is_err());

    // Truncated fixed header.
    assert!(MessageOpen::from_bytes(&body[..9]).is_err());
}

#[test]
fn short_buffers_are_framing_errors() {
    for len in 1..19usize {
        let mut buf = BytesMut::from(&vec![0xABu8; len][..]);
        let r = from_bytes(&mut buf);
        assert_eq!(r, Err(DecodeError::Framing));
        assert_eq!(buf.len(), len);
    }
}

#[test]
fn empty_buffer_is_pending() {
    let mut buf = BytesMut::new();
    assert_eq!(from_bytes(&mut buf), Ok(Message::Pending));
}

#[test]
fn keepalive_frame_leaves_trailing_bytes() {
    let frame = Message::KeepAlive.to_bytes();
    assert_eq!(frame.len(), 19);
    let mut buf = BytesMut::new();
    buf.extend_from_slice(&frame);
    buf.extend_from_slice(&[9, 8, 7, 6, 5]);
    let r = from_bytes(&mut buf);
    assert_eq!(r, Ok(Message::KeepAlive));
    assert_eq!(buf.len(), 5);
    assert_eq!(&buf[..], &[9, 8, 7, 6, 5]);
}

#[test]
fn open_frame_round_trip_through_framing() {
    let frame = Message::Open(MessageOpen::new()).to_bytes();
    let mut buf = BytesMut::new();
    buf.extend_from_slice(&frame);
    let r = from_bytes(&mut buf);
    assert_eq!(r, Ok(Message::Open(MessageOpen::new())));
    assert_eq!(buf.len(), 0);
}

#[test]
fn incomplete_frame_is_pending() {
    let frame = Message::Open(MessageOpen::new()).to_bytes();
    let mut buf = BytesMut::new();
    buf.extend_from_slice(&frame[..frame.len() - 1]);
    let kept = buf.len();
    assert_eq!(from_bytes(&mut buf), Ok(Message::Pending));
    assert_eq!(buf.len(), kept);
}

#[test]
fn header_codec() {
    let marker = MessageHeader {}.to_bytes();
    assert_eq!(marker, vec![0xFF; 16]);

    let mut out: Vec<u8> = Vec::new();
    encode_header(4, 19, &mut out);
    assert_eq!(out.len(), 19);
    assert_eq!(&out[..16], &[0xFF; 16][..]);
    assert_eq!(out[16], 0);
    assert_eq!(out[17], 19);
    assert_eq!(out[18], 4);

    let (typ, len) = decode_header(&out).unwrap();
    assert_eq!(typ, 4);
    assert_eq!(len, 19);
    assert!(decode_header(&out[..18]).is_err());
}

#[test]
fn four_octet_as_decode() {
    let buf: Vec<u8> = vec![65, 4, 0xDE, 0xAD, 0xBE, 0xEF];
    let (cap, used) = Capability::from_bytes(&buf, 0).unwrap();
    assert_eq!(used, 6);
    assert_eq!(cap, Capability::FourOctetAs(0xDEAD_BEEF));
}

#[test]
fn capabilities_container() {
    let mut caps = Capabilities::new();
    assert_eq!(caps.len(), 0);
    assert_eq!(caps.to_bytes(), Vec::<u8>::new());

    caps.push(Capability::RouteRefresh);
    caps.push(Capability::MultiProtocol(Family { afi: 1, safi: 1 }));
    assert_eq!(caps.len(), 2);
    assert_eq!(caps.get_ref()[0], Capability::RouteRefresh);
    assert!(caps.encodable());

    // Parameter type 2, total capability length, then the records.
    let tlv = caps.to_bytes();
    assert_eq!(tlv, vec![2, 8, 2, 0, 1, 4, 0, 1, 0, 1]);
}

#[test]
fn capability_validity_and_size() {
    let cap = Capability::MultiProtocol(Family { afi: 1, safi: 1 });
    assert!(cap.valid());
    assert_eq!(cap.wire_len(), 6);

    // A graceful-restart record needs at least one family.
    let empty = Capability::GracefulRestart { flags: 0, time: 1, families: vec![] };
    assert!(!empty.valid());

    // A long-lived time must fit 24 bits.
    let wide = Capability::LongLived(vec![(Family { afi: 1, safi: 1 }, 0, 0x1000000)]);
    assert!(!wide.valid());

    assert!(Message::Open(MessageOpen::new()).encodable());
    assert!(Message::KeepAlive.encodable());
}

#[test]
fn open_error_variants() {
    // A capability record of the wrong shape inside the OPEN body.
    let body: Vec<u8> = vec![4, 0, 1, 0, 90, 10, 0, 0, 1, 6, 2, 4, 1, 3, 0, 1];
    assert_eq!(
        MessageOpen::from_bytes(&body),
        Err(OpenError::Capability(Error::Malformed))
    );

    // The same failure surfaces through the framing layer.
    let mut frame: Vec<u8> = vec![0xFF; 16];
    frame.extend_from_slice(&[0, 35, 1]);
    frame.extend_from_slice(&body);
    let mut buf = BytesMut::from(&frame[..]);
    assert_eq!(
        from_bytes(&mut buf),
        Err(DecodeError::Open(OpenError::Capability(Error::Malformed)))
    );
    assert_eq!(buf.len(), 35);
}

#[test]
fn oversized_declared_length_is_framing_error() {
    // A declared length above 4096 can never be a frame.
    let mut frame: Vec<u8> = vec![0xFF; 16];
    frame.extend_from_slice(&[0x20, 0x00, 4]);
    let mut buf = BytesMut::from(&frame[..]);
    assert_eq!(from_bytes(&mut buf), Err(DecodeError::Framing));

    // So can a declared length below 19.
    let mut frame: Vec<u8> = vec![0xFF; 16];
    frame.extend_from_slice(&[0, 18, 4]);
    let mut buf = BytesMut::from(&frame[..]);
    assert_eq!(from_bytes(&mut buf), Err(DecodeError::Framing));
}

#[test]
fn open_without_capabilities_round_trip() {
    let msg = MessageOpen {
        version: 4,
        asn: 1,
        hold_time: 0,
        router_id: RouterId(0, 0, 0, 0),
        caps: Capabilities::new(),
    };
    let body = msg.to_bytes();
    // Ten fixed bytes and no optional parameters at all.
    assert_eq!(body.len(), 10);
    assert_eq!(body[9], 0);
    let decoded = MessageOpen::from_bytes(&body).unwrap();
    assert_eq!(decoded, msg);
}

#[test]
fn largest_add_path_round_trip() {
    // 63 records of four bytes fill the one-byte capability length.
    let mut entries = Vec::new();
    for i in 0..63u16 {
        entries.push((Family { afi: i, safi: (i % 256) as u8 }, (i % 7) as u8));
    }
    let cap = Capability::AddPath(entries);
    assert!(cap.valid());
    let mut out: Vec<u8> = Vec::new();
    let n = cap.to_bytes(&mut out);
    assert_eq!(n, 2 + 4 * 63);
    assert_eq!(out[1], 252);
    let (decoded, used) = Capability::from_bytes(&out, 0).unwrap();
    assert_eq!(used, n);
    assert_eq!(decoded, cap);
}
