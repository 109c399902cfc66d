use tftp::error_code::ErrorCode;
use tftp::mode::Mode;
use tftp::opcode::Opcode;
use tftp::options::OptPair;
use tftp::packet::{decode, encode, Ack, Data, ErrorPacket, Oack, Packet};
use tftp::rq::Rq;
use tftp::wrq::Wrq;

#[test]
fn test_opcode_conversions() {
    assert_eq!(Opcode::Rrq.to_u16(), 1);
    assert_eq!(Opcode::Wrq.to_u16(), 2);
    assert_eq!(Opcode::Data.to_u16(), 3);
    assert_eq!(Opcode::Ack.to_u16(), 4);
    assert_eq!(Opcode::Error.to_u16(), 5);

    assert!(Opcode::from_u16(0).is_err());
    assert_eq!(Opcode::Rrq, Opcode::from_u16(1).unwrap());
    assert_eq!(Opcode::Wrq, Opcode::from_u16(2).unwrap());
    assert_eq!(Opcode::Data, Opcode::from_u16(3).unwrap());
    assert_eq!(Opcode::Ack, Opcode::from_u16(4).unwrap());
    assert_eq!(Opcode::Error, Opcode::from_u16(5).unwrap());
    assert!(Opcode::from_u16(6).is_err());
    assert!(Opcode::from_u16(12).is_err());
}

#[test]
fn test_mode_conversions() {
    assert_eq!("mail", &Mode::Mail.name());
    assert_eq!("netascii", &Mode::NetAscii.name());
    assert_eq!("octet", &Mode::Octet.name());
    assert_eq!(Mode::Mail, Mode::from_name("mail").unwrap());
    assert_eq!(Mode::NetAscii, Mode::from_name("netascii").unwrap());
    assert_eq!(Mode::Octet, Mode::from_name("octet").unwrap());
    assert_eq!(Mode::Mail, Mode::from_wire_bytes(b"mail").unwrap());
    assert_eq!(Mode::NetAscii, Mode::from_wire_bytes(b"netascii").unwrap());
    assert_eq!(Mode::Octet, Mode::from_wire_bytes(b"octet").unwrap());
    assert_eq!(Mode::Mail, Mode::from_name("MaIL").unwrap());
    assert_eq!(Mode::NetAscii, Mode::from_name("NETASCII").unwrap());
    assert_eq!(Mode::Octet, Mode::from_name("OCtet").unwrap());
    assert!(Mode::from_name("PotAtOO").is_err());
}

#[test]
fn test_errorcode_conversions() {
    assert_eq!(ErrorCode::NotDefined.to_u16(), 0);
    assert_eq!(ErrorCode::FileNotFound.to_u16(), 1);
    assert_eq!(ErrorCode::AccessViolation.to_u16(), 2);
    assert_eq!(ErrorCode::DiskFull.to_u16(), 3);
    assert_eq!(ErrorCode::IllegalOperation.to_u16(), 4);
    assert_eq!(ErrorCode::UnknownTid.to_u16(), 5);
    assert_eq!(ErrorCode::FileAlreadyExists.to_u16(), 6);
    assert_eq!(ErrorCode::NoSuchUser.to_u16(), 7);

    assert!(ErrorCode::from_u16(8).is_err());
    assert_eq!(ErrorCode::NotDefined, ErrorCode::from_u16(0).unwrap());
    assert_eq!(ErrorCode::FileNotFound, ErrorCode::from_u16(1).unwrap());
    assert_eq!(ErrorCode::AccessViolation, ErrorCode::from_u16(2).unwrap());
    assert_eq!(ErrorCode::DiskFull, ErrorCode::from_u16(3).unwrap());
    assert_eq!(ErrorCode::IllegalOperation, ErrorCode::from_u16(4).unwrap());
    assert_eq!(ErrorCode::UnknownTid, ErrorCode::from_u16(5).unwrap());
    assert_eq!(ErrorCode::FileAlreadyExists, ErrorCode::from_u16(6).unwrap());
    assert_eq!(ErrorCode::NoSuchUser, ErrorCode::from_u16(7).unwrap());
}

#[test]
fn test_rq_from_bytes() {
    let bytes = vec![
        b'h', b'i', b'.', b't', b'x', b't', b'\0', b'n', b'e', b't', b'a', b's', b'c', b'i', b'i',
        b'\0',
    ];
    let rq = Rq::from_bytes(&bytes).unwrap();

    assert_eq!(rq.filename, "hi.txt".to_string());
    assert_eq!(rq.mode, Mode::NetAscii);
    assert!(rq.options.is_empty());
}

#[test]
fn test_rq_to_bytes() {
    let rq = Rq {
        filename: "bye.txt".to_string(),
        mode: Mode::Mail,
        options: vec![],
    };

    let bytes: Vec<u8> = rq.into_bytes();
    assert_eq!(
        bytes,
        vec![b'b', b'y', b'e', b'.', b't', b'x', b't', b'\0', b'm', b'a', b'i', b'l', b'\0']
    );
}

#[test]
fn test_rq_round_trip_with_options() {
    let rq = Rq {
        filename: "data.bin".to_string(),
        mode: Mode::Octet,
        options: vec![OptPair { key: b"blksize".to_vec(), value: b"1024".to_vec() }],
    };
    let bytes = rq.clone().into_bytes();
    assert_eq!(
        bytes,
        b"data.bin\0octet\0blksize\x001024\0".to_vec()
    );
    let back = Rq::from_bytes(&bytes).unwrap();
    assert_eq!(back, rq);
}

#[test]
fn test_rq_rejects_bad_input() {
    // No terminator at all.
    assert!(Rq::from_bytes(b"hi.txt").is_err());
    // Empty filename.
    assert!(Rq::from_bytes(b"\0octet\0").is_err());
    // Unknown mode.
    assert!(Rq::from_bytes(b"hi.txt\0carrier-pigeon\0").is_err());
    // Mode not terminated.
    assert!(Rq::from_bytes(b"hi.txt\0octet").is_err());
    // Option value not terminated.
    assert!(Rq::from_bytes(b"hi.txt\0octet\0blksize\x001024").is_err());
    // Filename is not UTF-8.
    assert!(Rq::from_bytes(b"\xff\xfe\0octet\0").is_err());
}

#[test]
fn test_wrq_new_and_bytes() {
    let w = Wrq::new("hello.txt", Mode::NetAscii);
    let bytes = w.into_bytes();
    assert_eq!(bytes, b"hello.txt\0netascii\0".to_vec());
    let back = Wrq::from_bytes(&bytes).unwrap();
    assert_eq!(back, Wrq::new("hello.txt", Mode::NetAscii));
}

#[test]
fn test_packet_round_trips() {
    let packets = vec![
        Packet::Rrq(Rq { filename: "a.txt".to_string(), mode: Mode::NetAscii, options: vec![] }),
        Packet::Wrq(Rq {
            filename: "b.txt".to_string(),
            mode: Mode::Octet,
            options: vec![OptPair { key: b"tsize".to_vec(), value: b"0".to_vec() }],
        }),
        Packet::Data(Data { block: 7, payload: vec![0, 1, 2, 255, 0] }),
        Packet::Ack(Ack { block: 65535 }),
        Packet::Error(ErrorPacket {
            code: ErrorCode::FileNotFound,
            message: "no such file".to_string(),
        }),
        Packet::Oack(Oack {
            options: vec![OptPair { key: b"blksize".to_vec(), value: b"1024".to_vec() }],
        }),
    ];
    for p in packets {
        let bytes = encode(p.clone());
        let back = decode(&bytes).unwrap();
        assert_eq!(back, p);
    }
}

#[test]
fn test_packet_wire_layout() {
    let ack = encode(Packet::Ack(Ack { block: 258 }));
    assert_eq!(ack, vec![0, 4, 1, 2]);
    let data = encode(Packet::Data(Data { block: 1, payload: vec![9, 8] }));
    assert_eq!(data, vec![0, 3, 0, 1, 9, 8]);
    let err = encode(Packet::Error(ErrorPacket {
        code: ErrorCode::DiskFull,
        message: "full".to_string(),
    }));
    assert_eq!(err, vec![0, 5, 0, 3, b'f', b'u', b'l', b'l', 0]);
}

#[test]
fn test_decode_rejects_bad_packets() {
    // Too short for an opcode.
    assert!(decode(&[0]).is_err());
    // Unknown opcode.
    assert!(decode(&[0, 7, 0, 0]).is_err());
    // Data without a block number.
    assert!(decode(&[0, 3, 0]).is_err());
    // Ack with trailing bytes (strict policy).
    assert!(decode(&[0, 4, 0, 1, 9]).is_err());
    // Error code out of range.
    assert!(decode(&[0, 5, 0, 8, b'x', 0]).is_err());
    // Error message without its terminator.
    assert!(decode(&[0, 5, 0, 1, b'x']).is_err());
    // Error message with bytes after the terminator (strict policy).
    assert!(decode(&[0, 5, 0, 1, b'x', 0, b'y']).is_err());
    // Option acknowledgement with an unterminated value.
    assert!(decode(b"\x00\x06blksize\x001024").is_err());
}

#[test]
fn test_decode_data_payload_may_hold_nul() {
    let p = decode(&[0, 3, 0, 2, 0, 0, 7]).unwrap();
    assert_eq!(p, Packet::Data(Data { block: 2, payload: vec![0, 0, 7] }));
}
