use bytes::BytesMut;
use rustygear::codec::Frame;
use rustygear::codec::PacketCodec;
use rustygear::codec::PacketHeader;
use rustygear::codec::trim_bytes;
use rustygear::codec::vec_eq;
use rustygear::constants::ADMIN_STATUS;
use rustygear::constants::ADMIN_UNKNOWN;
use rustygear::constants::ADMIN_VERSION;
use rustygear::constants::ECHO_REQ;
use rustygear::constants::SUBMIT_JOB;
use rustygear::packet::Packet;
use rustygear::packet::PacketMagic;
use rustygear::packet::nargs_of;
use rustygear::wire::clone_bytes;
use rustygear::wire::get_u32_be;
use rustygear::wire::parse_dec;
use rustygear::wire::put_u32_be;

fn buf_from(bytes: &[u8]) -> BytesMut {
    let mut b = BytesMut::new();
    b.extend_from_slice(bytes);
    b
}

#[test]
fn be_u32_round_trip() {
    let mut v: Vec<u8> = Vec::new();
    put_u32_be(&mut v, 0xDEADBEEF);
    assert_eq!(v, vec![0xDE, 0xAD, 0xBE, 0xEF]);
    assert_eq!(get_u32_be(&v, 0), 0xDEADBEEF);
}

#[test]
fn header_decode_and_reencode() {
    // \0REQ, ptype 16 (ECHO_REQ), psize 2, body "hi"
    let wire = [0u8, 82, 69, 81, 0, 0, 0, 16, 0, 0, 0, 2, b'h', b'i'];
    let mut buf = buf_from(&wire);
    let frame = PacketHeader::decode(&mut buf).unwrap().unwrap();
    match frame {
        Frame::Message { header, body } => {
            assert!(body);
            assert!(matches!(header.magic, PacketMagic::REQ));
            assert_eq!(header.ptype, ECHO_REQ);
            assert_eq!(header.psize, 2);
            // the remaining two bytes are the body
            assert_eq!(&buf[..], b"hi");
            let hdr = header.to_bytes();
            assert_eq!(&hdr[..], &wire[..12]);
        },
        _ => panic!("expected a message frame"),
    }
}

#[test]
fn header_decode_waits_for_full_header() {
    let mut buf = buf_from(&[0u8, 82, 69, 81, 0, 0]);
    let r = PacketHeader::decode(&mut buf).unwrap();
    assert!(r.is_none());
    assert_eq!(buf.len(), 6);
}

#[test]
fn codec_decodes_chunked_body() {
    let mut codec = PacketCodec::new();
    // SUBMIT_JOB with payload "f\0u\0abc" (7 bytes), fed in two pieces
    let mut buf = buf_from(&[0u8, 82, 69, 81, 0, 0, 0, 7, 0, 0, 0, 7, b'f', 0, b'u']);
    match codec.decode(&mut buf).unwrap().unwrap() {
        Frame::Message { header, .. } => {
            assert_eq!(header.ptype, SUBMIT_JOB);
            assert_eq!(header.psize, 7);
        },
        _ => panic!("expected a message frame"),
    }
    match codec.decode(&mut buf).unwrap().unwrap() {
        Frame::Body { chunk } => assert_eq!(chunk.unwrap(), vec![b'f', 0, b'u']),
        _ => panic!("expected a body chunk"),
    }
    buf.extend_from_slice(&[0, b'a', b'b', b'c']);
    match codec.decode(&mut buf).unwrap().unwrap() {
        Frame::Body { chunk } => assert_eq!(chunk.unwrap(), vec![0, b'a', b'b', b'c']),
        _ => panic!("expected a body chunk"),
    }
    // end-of-body marker once all payload bytes arrived
    match codec.decode(&mut buf).unwrap().unwrap() {
        Frame::Body { chunk } => assert!(chunk.is_none()),
        _ => panic!("expected the end-of-body marker"),
    }
}

#[test]
fn admin_line_selects_commands() {
    for (line, code) in [
        (&b"version\n"[..], ADMIN_VERSION),
        (&b"status\n"[..], ADMIN_STATUS),
        (&b" version \r\n"[..], ADMIN_VERSION),
        (&b"bogus\n"[..], ADMIN_UNKNOWN),
    ] {
        let mut buf = buf_from(line);
        match PacketHeader::admin_decode(&mut buf).unwrap().unwrap() {
            Frame::Message { header, body } => {
                assert!(!body);
                assert!(matches!(header.magic, PacketMagic::TEXT));
                assert_eq!(header.ptype, code, "line {:?}", line);
                assert_eq!(buf.len(), 0);
            },
            _ => panic!("expected a message frame"),
        }
    }
}

#[test]
fn admin_line_waits_for_newline() {
    let mut buf = buf_from(b"stat");
    assert!(PacketHeader::admin_decode(&mut buf).unwrap().is_none());
    assert_eq!(buf.len(), 4);
}

#[test]
fn admin_line_rejects_bad_utf8() {
    let mut buf = buf_from(&[0xFFu8, 0xFE, b'\n']);
    assert!(PacketHeader::admin_decode(&mut buf).is_err());
}

#[test]
fn codec_stays_in_text_mode() {
    let mut codec = PacketCodec::new();
    let mut buf = buf_from(b"version\n");
    match codec.decode(&mut buf).unwrap().unwrap() {
        Frame::Message { header, .. } => assert_eq!(header.ptype, ADMIN_VERSION),
        _ => panic!("expected a message frame"),
    }
    // even byte sequences shaped like a binary magic stay text now
    buf.extend_from_slice(&[0u8, 82, 69, 81, b'\n']);
    match codec.decode(&mut buf).unwrap().unwrap() {
        Frame::Message { header, .. } => {
            assert!(matches!(header.magic, PacketMagic::TEXT));
            assert_eq!(header.ptype, ADMIN_UNKNOWN);
        },
        _ => panic!("expected a message frame"),
    }
}

#[test]
fn codec_encodes_message_and_body() {
    let mut codec = PacketCodec::new();
    let mut out = BytesMut::new();
    let header = PacketHeader { magic: PacketMagic::RES, ptype: 17, psize: 3 };
    codec.encode(Frame::Message { header, body: true }, &mut out);
    codec.encode(Frame::Body { chunk: Some(vec![b'a', b'b', b'c']) }, &mut out);
    codec.encode(Frame::Body { chunk: None }, &mut out);
    assert_eq!(&out[..], &[0u8, 82, 69, 83, 0, 0, 0, 17, 0, 0, 0, 3, b'a', b'b', b'c']);
}

#[test]
fn packet_round_trips_through_wire_form() {
    let p = Packet::new_res(17, Box::new(b"pong".to_vec()));
    let wire = p.to_byteslice();
    assert_eq!(&wire[..], &[0u8, 82, 69, 83, 0, 0, 0, 17, 0, 0, 0, 4, b'p', b'o', b'n', b'g']);
    let mut buf = buf_from(&wire);
    match PacketHeader::decode(&mut buf).unwrap().unwrap() {
        Frame::Message { header, .. } => {
            assert!(matches!(header.magic, PacketMagic::RES));
            assert_eq!(header.ptype, 17);
            assert_eq!(header.psize, 4);
            let mut reencoded = header.to_bytes();
            reencoded.extend_from_slice(&buf[..]);
            assert_eq!(reencoded, wire);
        },
        _ => panic!("expected a message frame"),
    }
}

#[test]
fn next_field_walks_declared_fields() {
    let mut p = Packet::new();
    p.magic = PacketMagic::REQ;
    p.ptype = SUBMIT_JOB;
    p.data = Box::new(b"rev\0u1\0abc".to_vec());
    p.psize = 10;
    assert_eq!(p.nextField().ok().unwrap(), b"rev".to_vec());
    assert_eq!(p.nextField().ok().unwrap(), b"u1".to_vec());
    assert_eq!(p.nextField().ok().unwrap(), b"abc".to_vec());
    assert!(p.nextField().is_err());
}

#[test]
fn next_field_rejects_truncated_payload() {
    let mut p = Packet::new();
    p.magic = PacketMagic::REQ;
    p.ptype = SUBMIT_JOB;
    p.data = Box::new(b"rev-no-separators".to_vec());
    p.psize = 17;
    assert!(p.nextField().is_err());
}

#[test]
fn nargs_follows_the_registry() {
    assert_eq!(nargs_of(SUBMIT_JOB), 2);
    assert_eq!(nargs_of(ECHO_REQ), 0);
    assert_eq!(nargs_of(4), -1); // PRE_SLEEP carries no payload
    assert_eq!(nargs_of(999), -1);
}

#[test]
fn small_helpers_behave() {
    assert_eq!(trim_bytes(&b"  hi\r\n".to_vec()), b"hi".to_vec());
    assert_eq!(trim_bytes(&b" \t ".to_vec()), Vec::<u8>::new());
    assert!(vec_eq(&b"ab".to_vec(), &b"ab".to_vec()));
    assert!(!vec_eq(&b"ab".to_vec(), &b"ac".to_vec()));
    assert_eq!(clone_bytes(&b"xyz".to_vec()), b"xyz".to_vec());
    assert_eq!(parse_dec(&b"123".to_vec()), Some(123));
    assert_eq!(parse_dec(&b"".to_vec()), Some(0));
    assert_eq!(parse_dec(&b"12a".to_vec()), None);
    assert_eq!(parse_dec(&b"18446744073709551615".to_vec()), Some(u64::MAX));
    assert_eq!(parse_dec(&b"18446744073709551616".to_vec()), None);
}
