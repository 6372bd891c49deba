use tcp_handler::common::{
    check_bytes_len, check_version, read_head, read_last, read_packet, read_packet_len,
    write_head, write_last, write_packet, PacketError, ProtocolVariant, ReadError, StarterError,
};
use tcp_handler::config::Config;

#[test]
fn packet() {
    let config = Config::default();
    let source = [1u8, 2, 3, 4, 5];
    let mut stream = Vec::new();
    write_packet(&mut stream, &source, &config).unwrap();
    let (res, n) = read_packet(&stream, &config).unwrap();
    assert_eq!(&source[..], &res[..]);
    assert_eq!(stream.len(), n);
}

#[test]
fn packet_too_large() {
    let config = Config { max_packet_size: 4, ..Config::default() };
    let mut stream = Vec::new();
    match write_packet(&mut stream, &[0u8; 5], &config) {
        Err(PacketError::TooLarge(5, 4)) => {}
        other => panic!("unexpected {:?}", other),
    }
    assert!(stream.is_empty());
    assert!(check_bytes_len(4, &config).is_ok());
    assert!(matches!(check_bytes_len(5, &config), Err(PacketError::TooLarge(5, 4))));
    assert!(matches!(read_packet_len(&[5, 0, 0, 0, 0, 0], &config), Err(ReadError::Failed(PacketError::TooLarge(5, 4)))));
    assert!(matches!(read_packet(&[3, 1, 2], &config), Err(ReadError::Incomplete)));
    assert!(matches!(read_packet(&[0xFF; 19], &config), Err(ReadError::Failed(PacketError::IO(_)))));
}

#[test]
fn protocol_variant_flags() {
    for p in [ProtocolVariant::Raw, ProtocolVariant::Compression, ProtocolVariant::Encryption, ProtocolVariant::CompressEncryption] {
        let flags: [bool; 2] = p.into();
        assert_eq!(p, ProtocolVariant::from(flags));
    }
    assert_eq!([true, false], <[bool; 2]>::from(ProtocolVariant::Encryption));
    assert_eq!(ProtocolVariant::Compression, ProtocolVariant::from([false, true]));
}

#[test]
fn head_bytes_known() {
    let mut out = Vec::new();
    write_head(&mut out, ProtocolVariant::CompressEncryption, "a", "1");
    assert_eq!(vec![208, 8, 166, 104, 0, 1, 3, 1, b'a', 1, b'1'], out);
}

#[test]
fn head_accepted() {
    let mut out = Vec::new();
    write_head(&mut out, ProtocolVariant::Raw, "a", "1");
    let (head, n) = read_head(&out, ProtocolVariant::Raw, "a").unwrap();
    assert_eq!(out.len(), n);
    assert_eq!((1, "1".to_string()), head);
    assert_eq!((1, "1".to_string()), check_version(head, true).unwrap());
}

#[test]
fn head_rejections() {
    let mut out = Vec::new();
    write_head(&mut out, ProtocolVariant::Compression, "a", "1");
    assert!(matches!(read_head(&out, ProtocolVariant::Raw, "a"), Err(ReadError::Failed(StarterError::InvalidProtocol(ProtocolVariant::Compression)))));
    match read_head(&out, ProtocolVariant::Compression, "b") {
        Err(ReadError::Failed(StarterError::InvalidIdentifier(s))) => assert_eq!("a", s),
        other => panic!("unexpected {:?}", other),
    }
    match check_version((1, "1".to_string()), false) {
        Err(StarterError::InvalidVersion(s)) => assert_eq!("1", s),
        other => panic!("unexpected {:?}", other),
    }
    assert!(matches!(read_head(&[208, 8, 166, 105], ProtocolVariant::Raw, "a"), Err(ReadError::Failed(StarterError::InvalidStream()))));
    assert!(matches!(read_head(&[208, 8, 166, 104, 0, 0], ProtocolVariant::Raw, "a"), Err(ReadError::Failed(StarterError::InvalidStream()))));
    assert!(matches!(read_head(&[208, 8, 166, 104, 0, 1, 9], ProtocolVariant::Raw, "a"), Err(ReadError::Failed(StarterError::IO(_)))));
    assert!(matches!(read_head(&out[..out.len() - 1], ProtocolVariant::Compression, "a"), Err(ReadError::Incomplete)));
}

#[test]
fn head_read_byte_by_byte() {
    let mut out = Vec::new();
    write_head(&mut out, ProtocolVariant::Encryption, "app", "2.0");
    for i in 0..out.len() {
        assert!(matches!(read_head(&out[..i], ProtocolVariant::Encryption, "app"), Err(ReadError::Incomplete)));
    }
    assert!(read_head(&out, ProtocolVariant::Encryption, "app").is_ok());
}

#[test]
fn last_answers_roundtrip() {
    let mut out = Vec::new();
    let r: Result<u8, StarterError> = write_last(&mut out, ProtocolVariant::Raw, "a", "1", Ok(7));
    assert_eq!(7, r.unwrap());
    assert_eq!(vec![3], out);
    assert_eq!(7, read_last(&out, Ok(7)).unwrap().0);

    let mut out = Vec::new();
    let _ = write_last::<()>(&mut out, ProtocolVariant::Encryption, "a", "1", Err(StarterError::InvalidProtocol(ProtocolVariant::Raw)));
    assert!(matches!(read_last(&out, Ok(())), Err(ReadError::Failed(StarterError::InvalidProtocol(ProtocolVariant::Encryption)))));

    let mut out = Vec::new();
    let _ = write_last::<()>(&mut out, ProtocolVariant::Raw, "server", "1", Err(StarterError::InvalidIdentifier("x".to_string())));
    match read_last(&out, Ok(())) {
        Err(ReadError::Failed(StarterError::InvalidIdentifier(s))) => assert_eq!("server", s),
        other => panic!("unexpected {:?}", other),
    }

    let mut out = Vec::new();
    let _ = write_last::<()>(&mut out, ProtocolVariant::Raw, "a", "3.1", Err(StarterError::InvalidVersion("0".to_string())));
    match read_last(&out, Ok(())) {
        Err(ReadError::Failed(StarterError::InvalidVersion(s))) => assert_eq!("3.1", s),
        other => panic!("unexpected {:?}", other),
    }

    let mut out = Vec::new();
    let _ = write_last::<()>(&mut out, ProtocolVariant::Raw, "a", "1", Err(StarterError::InvalidStream()));
    assert!(out.is_empty());
    assert!(matches!(read_last(&out, Ok(())), Err(ReadError::Incomplete)));
    assert!(matches!(read_last::<()>(&[3], Err(StarterError::InvalidStream())), Err(ReadError::Failed(StarterError::InvalidStream()))));
    assert!(matches!(read_last(&[7], Ok(())), Err(ReadError::Failed(StarterError::IO(_)))));
}

#[test]
fn raw_connect() {
    let config = Config::default();
    // client -> server: head
    let mut to_server = Vec::new();
    write_head(&mut to_server, ProtocolVariant::Raw, "a", "1");
    let (head, n) = read_head(&to_server, ProtocolVariant::Raw, "a").unwrap();
    let accepted = head.1 == "1";
    let init = check_version(head, accepted);
    to_server.drain(..n);
    // server -> client: answer
    let mut to_client = Vec::new();
    write_last(&mut to_client, ProtocolVariant::Raw, "a", "1", init).unwrap();
    let ((), m) = read_last(&to_client, Ok(())).unwrap();
    to_client.drain(..m);

    let mut message = Vec::new();
    tcp_handler::wire::write_string(&mut message, "hello server in raw.");
    write_packet(&mut to_server, &message, &config).unwrap();
    let (received, _) = read_packet(&to_server, &config).unwrap();
    let (text, _) = tcp_handler::wire::read_string(&received).unwrap();
    assert_eq!("hello server in raw.", text);

    let mut message = Vec::new();
    tcp_handler::wire::write_string(&mut message, "hello client in raw.");
    write_packet(&mut to_client, &message, &config).unwrap();
    let (received, _) = read_packet(&to_client, &config).unwrap();
    let (text, _) = tcp_handler::wire::read_string(&received).unwrap();
    assert_eq!("hello client in raw.", text);
}

#[test]
fn malformed_errors_are_invalid_data_with_a_message() {
    let e = tcp_handler::common::malformed_error(tcp_handler::wire::WireError::VarintTooLong);
    assert_eq!(std::io::ErrorKind::InvalidData, e.kind());
    assert_eq!("Too long varint value.", e.to_string());
    let e = tcp_handler::common::malformed_error(tcp_handler::wire::WireError::InvalidBools(7));
    assert_eq!(std::io::ErrorKind::InvalidData, e.kind());
    assert_eq!("Invalid bools.", e.to_string());
    let e = tcp_handler::common::malformed_error(tcp_handler::wire::WireError::InvalidUtf8);
    assert_eq!(std::io::ErrorKind::InvalidData, e.kind());
    assert_eq!("Invalid utf-8 string.", e.to_string());
}

#[test]
fn refusals_are_decided_only_by_the_whole_answer() {
    let answers: Vec<Result<(), StarterError>> = vec![
        Ok(()),
        Err(StarterError::InvalidProtocol(ProtocolVariant::Raw)),
        Err(StarterError::InvalidIdentifier("x".to_string())),
        Err(StarterError::InvalidVersion("0".to_string())),
    ];
    for answer in answers {
        let mut out = Vec::new();
        let _ = write_last(&mut out, ProtocolVariant::Compression, "server-id", "2.5", answer);
        assert!(!out.is_empty());
        for k in 0..out.len() {
            assert!(matches!(read_last(&out[..k], Ok(())), Err(ReadError::Incomplete)));
        }
        let mut longer = out.clone();
        longer.extend_from_slice(&[0xFF, 0xFF]);
        assert!(!matches!(read_last(&longer, Ok(())), Err(ReadError::Incomplete)));
    }
}
