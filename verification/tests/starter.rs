use tcp_handler::common::{read_packet, write_packet, ReadError};
use tcp_handler::config::Config;
use tcp_handler::packet::{
    client_recv_with_dynamic_encrypt, client_send_with_dynamic_encrypt, recv_with_encrypt,
    send_with_encrypt, server_recv_with_dynamic_encrypt, server_send_with_dynamic_encrypt,
    server_send_with_dynamic_encrypt_with_nonce,
};
use tcp_handler::common::PacketError;
use tcp_handler::starter::{
    aes_cipher_from_decrypted, check_version, client_cipher, client_init, read_client_key, read_head,
    write_head, write_offer_packet,
    read_last, server_offer, write_last, StarterError,
};
use tcp_handler::wire::{read_string, write_string, write_u8_vec};
use rsa::traits::PublicKeyParts;

/// Runs a version-0 handshake over in-memory buffers; gives the version the
/// server's predicate saw and the client's result.
fn handshake(compression: bool, server_compression: bool, accept: &str) -> (Option<String>, Result<(), StarterError>) {
    let config = Config::default();
    let mut to_server = Vec::new();
    client_init(&mut to_server, "a", "1", compression, &config).unwrap();
    let mut seen = None;
    let init = match read_head(&to_server, "a", server_compression, false, &config) {
        Ok(((version, _rest), _)) => {
            seen = Some(version.clone());
            let ok = version == accept;
            check_version(version, ok).map(|_| ())
        }
        Err(ReadError::Failed(e)) => Err(e),
        Err(ReadError::Incomplete) => panic!("incomplete head"),
    };
    let mut to_client = Vec::new();
    let _ = write_last(&mut to_client, init);
    let client = match read_last(&to_client, Ok(())) {
        Ok(((), _)) => Ok(()),
        Err(ReadError::Failed(e)) => Err(e),
        Err(ReadError::Incomplete) => panic!("incomplete answer"),
    };
    (seen, client)
}

#[test]
fn starter_connect() {
    let (_, client) = handshake(false, false, "1");
    client.unwrap();
}

#[test]
fn connect_with_compress() {
    let (_, client) = handshake(true, true, "1");
    client.unwrap();
}

#[test]
fn get_version() {
    let (version, client) = handshake(false, false, "1");
    client.unwrap();
    assert_eq!("1", version.unwrap());
}

#[test]
fn v0_rejections_reach_the_client() {
    assert!(matches!(handshake(true, false, "1").1, Err(StarterError::ServerInvalidState())));
    assert!(matches!(handshake(false, false, "2").1, Err(StarterError::ServerInvalidVersion())));
    let config = Config::default();
    let mut to_server = Vec::new();
    client_init(&mut to_server, "x", "1", false, &config).unwrap();
    assert_eq!(vec![208, 8, 166, 104, 0, 0, 5, 0, 1, b'x', 1, b'1'], to_server);
    match read_head(&to_server, "a", false, false, &config) {
        Err(ReadError::Failed(StarterError::ClientInvalidIdentifier(s))) => assert_eq!("x", s),
        other => panic!("unexpected {:?}", other),
    }
    let mut answer = Vec::new();
    let _ = write_last::<()>(&mut answer, Err(StarterError::ClientInvalidIdentifier("x".to_string())));
    assert!(matches!(read_last(&answer, Ok(())), Err(ReadError::Failed(StarterError::ServerInvalidIdentifier()))));
}

#[test]
fn v0_head_too_large_writes_magic_only() {
    let config = Config { max_packet_size: 3, ..Config::default() };
    let mut out = Vec::new();
    assert!(matches!(client_init(&mut out, "abc", "1", false, &config), Err(StarterError::Packet(PacketError::TooLarge(7, 3)))));
    assert_eq!(vec![208, 8, 166, 104, 0, 0], out);
}

#[test]
fn raw() {
    let config = Config::default();
    let mut message = Vec::new();
    write_string(&mut message, "hello server.");
    let mut stream = Vec::new();
    write_packet(&mut stream, &message, &config).unwrap();
    let (received, _) = read_packet(&stream, &config).unwrap();
    assert_eq!("hello server.", read_string(&received).unwrap().0);
}

#[test]
fn encrypt() {
    let config = Config::default();
    let (server_cipher, client_cipher) = encrypted_handshake(false);

    let mut message = Vec::new();
    write_string(&mut message, "hello server.");
    let (bytes, client_cipher) = client_send_with_dynamic_encrypt(&message, client_cipher, &config).unwrap();
    let (payload, _) = read_packet(&bytes, &config).unwrap();
    let (received, server_cipher) = server_recv_with_dynamic_encrypt(payload, server_cipher).unwrap();
    assert_eq!("hello server.", read_string(&received).unwrap().0);
    assert_eq!(client_cipher, server_cipher);

    let mut message = Vec::new();
    write_string(&mut message, "hello client.");
    let (bytes, server_cipher) = server_send_with_dynamic_encrypt(&message, server_cipher, &config).unwrap();
    let (payload, n) = read_packet(&bytes, &config).unwrap();
    let received = client_recv_with_dynamic_encrypt(payload, &client_cipher).unwrap();
    assert_eq!("hello client.", read_string(&received).unwrap().0);
    let mut next = [0u8; 12];
    next.copy_from_slice(&bytes[n..]);
    assert_eq!(server_cipher, (client_cipher.0, next));
}

#[test]
fn server_send_appends_the_next_nonce() {
    let config = Config::default();
    let (bytes, cipher) = server_send_with_dynamic_encrypt_with_nonce(b"m", ([1u8; 32], [0u8; 12]), &config, [7u8; 12]).unwrap();
    assert_eq!([7u8; 12], cipher.1);
    assert_eq!(&[7u8; 12][..], &bytes[bytes.len() - 12..]);
    assert_eq!(1 + 1 + 16 + 12, bytes.len());
}

#[test]
fn deprecated_encrypt_pair() {
    let config = Config::default();
    let cipher = ([4u8; 32], [4u8; 12]);
    let bytes = send_with_encrypt(b"hello", &cipher, &config).unwrap();
    let (payload, _) = read_packet(&bytes, &config).unwrap();
    assert_eq!(5 + 16, payload.len());
    assert_eq!(b"hello".to_vec(), recv_with_encrypt(&payload, &cipher).unwrap());
    let other = ([5u8; 32], [4u8; 12]);
    assert!(matches!(recv_with_encrypt(&payload, &other), Err(PacketError::AES(_))));
}

#[test]
fn offer_packet_size_and_cipher_from_decrypted() {
    let config = Config { max_packet_size: 21, ..Config::default() };
    let mut out = vec![1u8];
    write_offer_packet(&mut out, &[9u8; 8], [2u8; 12], &config).unwrap();
    assert_eq!(1 + 1 + 1 + 8 + 12, out.len());
    assert_eq!(21, out[1]);
    let mut out = vec![1u8];
    assert!(matches!(
        write_offer_packet(&mut out, &[9u8; 9], [2u8; 12], &config),
        Err(StarterError::Packet(PacketError::TooLarge(22, 21)))
    ));
    assert_eq!(vec![1u8], out);

    let public_key = rsa::RsaPublicKey::from(&fixed_key());
    let small = Config { max_packet_size: 174, ..Config::default() };
    let mut out = Vec::new();
    match server_offer(&mut out, &public_key, &small) {
        Err(StarterError::Packet(PacketError::TooLarge(a, 174))) => assert_eq!(2 + 256 + 12, a),
        other => panic!("unexpected {:?}", other.map(|_| ())),
    }
    assert!(out.is_empty());

    assert!(matches!(aes_cipher_from_decrypted(Err(rsa::Error::Decryption), [0u8; 12]), Err(StarterError::RSA(_))));
    assert!(matches!(aes_cipher_from_decrypted(Ok(vec![1u8; 16]), [0u8; 12]), Err(StarterError::AES(_))));
    assert_eq!(([3u8; 32], [4u8; 12]), aes_cipher_from_decrypted(Ok(vec![3u8; 32]), [4u8; 12]).unwrap());
}


/// A fixed 2048-bit RSA key (e = 65537), so that no test waits for a key to be
/// generated.
fn fixed_key() -> rsa::RsaPrivateKey {
    let big = |parts: &[&str]| rsa::BigUint::parse_bytes(parts.concat().as_bytes(), 16).unwrap();
    let n = big(&[
        "bf02fd16d90e79f3f6011b9c09c1c40d988c717a114fc147943a5d1a1efbe469",
        "5705e520f3e1547ed7f78530d7c7fc5eb5ee34cf95449b8d72b5e3d324bb6b9f",
        "7c859e5255000d0fc2b3c5d038b7741303e4af3411df0979e8efaaa91383242b",
        "5ea4123370a63f23394c7811c0f5389ec694a072319427046ad731907917fd41",
        "f686c7c6e7f62a37e60949ca3ce36cdd0a17f93041f00f953da51e5f6204e13c",
        "e68b9b9a88657f41f17c990276f7503e13397138a7d67ff00739fe2a9bc5edd3",
        "04351321dd60251ded5c5f56fcf9bdb69c09c682df8cd7f324190051eba72b0a",
        "17a440b918585f748e2a211ddb8c30b59388fcd04e1ad064ffa4de992d2552a9",
    ]);
    let d = big(&[
        "3f71b6aec819ced801760cbd9f6004c69f4cc6c44ccbb8df1594ed27a7f2f2c3",
        "2a6c82d6972ad8ede8be06375af4ca168b473bb357591a71b9104143f887680f",
        "e9445879f051bc04e81ede2d73293c1cb4c6588b6b043219940d471a31a8f572",
        "9254dcd6c92beefcbc23721e33813ff53cf050fa9d0d20888f143b1a499e7637",
        "c7cc7f6048532503ffb9a0cc9406956491dc50297a92d78aca4c33ce7824a3ff",
        "43cd2a45481603ae676c84a1ff683ca5324776fc448ce878558f203506555018",
        "516da9e0fd3dbc6a1a890c5e74154f8ad3c2bb16c4ecbd6c54351451e9ff85d3",
        "5179267f505c51fc4edcc100fdfde30783a28e97675682f1f191dba7096a4801",
    ]);
    let p = big(&[
        "dd86a3eed1b4daabdc457d87e9c931489303a62a6e57ebfdad31bc4c4bb94b86",
        "5ee041ba115dc8852af70858408ae2904f51d66321d2431401e4b9f8a9839dfc",
        "a88be2c70a4bf5ed693e32bfef6a6055581b2f7fca1b098075342b84403110af",
        "1601cd6695c0acf6a6f56192e71dec3c7647df25960fb819499ee50fba655f21",
    ]);
    let q = big(&[
        "dcbcb131d87f0f7c8d824f567ee87234825be5d17bf3c044a7cb8fac6561ed8a",
        "68499f17da27a8628367f9add595f72a0fc660edd9745360b37cb6a53719afbc",
        "5f8ac2dba273f100a3e180e4f2cbd149e4d7bdc1b2254a0f801e3739e293bdbe",
        "8df43581183c68b92a5e6db78fde7f1e0ebdbfefe4f20abe101c3605940a2a89",
    ]);
    rsa::RsaPrivateKey::from_components(n, rsa::BigUint::from(65537u32), d, vec![p, q]).unwrap()
}

/// The modulus and public exponent of `key` as little-endian bytes.
fn key_parts(key: &rsa::RsaPrivateKey) -> (Vec<u8>, Vec<u8>) {
    (key.n().to_bytes_le(), key.e().to_bytes_le())
}

/// Runs a version-0 encrypting handshake over in-memory buffers; gives the
/// server's and the client's cipher.
fn encrypted_handshake(compression: bool) -> (([u8; 32], [u8; 12]), ([u8; 32], [u8; 12])) {
    let config = Config::default();
    let mut to_server = Vec::new();
    let private_key = fixed_key();
    let (kn, ke) = key_parts(&private_key);
    let mut parts = Vec::new();
    write_u8_vec(&mut parts, &kn);
    write_u8_vec(&mut parts, &ke);
    write_head(&mut to_server, "a", "1", compression, true, &parts, &config).unwrap();
    let ((version, rest), n) = read_head(&to_server, "a", compression, true, &config).unwrap();
    assert_eq!(to_server.len(), n);
    let ok = version == "1";
    let init = check_version(version, ok).and_then(|_| read_client_key(&rest));
    let mut to_client = Vec::new();
    let public_key = write_last(&mut to_client, init).unwrap();
    let server_cipher = server_offer(&mut to_client, &public_key, &config).unwrap();
    let ((), k) = read_last(&to_client, Ok(())).unwrap();
    let (message, l) = read_packet(&to_client[k..], &config).unwrap();
    assert_eq!(to_client.len(), k + l);
    let client_cipher = client_cipher(&private_key, &message).unwrap();
    (server_cipher, client_cipher)
}

#[test]
fn connect_with_encrypt() {
    let (s, c) = encrypted_handshake(false);
    let config = Config::default();
    let message = "tester".as_bytes();
    assert_eq!(send_with_encrypt(message, &s, &config).unwrap(), send_with_encrypt(message, &c, &config).unwrap());
}

#[test]
fn connect_with_compress_and_encrypt() {
    let (s, c) = encrypted_handshake(true);
    let config = Config::default();
    let message = "tester".as_bytes();
    assert_eq!(send_with_encrypt(message, &s, &config).unwrap(), send_with_encrypt(message, &c, &config).unwrap());
}

#[test]
fn v0_reads_ignore_bytes_that_follow() {
    let config = Config::default();
    let mut to_server = Vec::new();
    client_init(&mut to_server, "a", "1.2", true, &config).unwrap();
    let (head, n) = read_head(&to_server, "a", true, false, &config).unwrap();
    let mut longer = to_server.clone();
    longer.extend_from_slice(&[0xFF, 0xFF, 0xFF]);
    let (head2, n2) = read_head(&longer, "a", true, false, &config).unwrap();
    assert_eq!(head, head2);
    assert_eq!(n, n2);
    assert_eq!(to_server.len(), n2);
    for i in 0..to_server.len() {
        assert!(matches!(read_head(&to_server[..i], "a", true, false, &config), Err(ReadError::Incomplete)));
    }
    let mut answer = Vec::new();
    write_last::<()>(&mut answer, Ok(())).unwrap();
    answer.push(0x42);
    assert_eq!(1, read_last(&answer, Ok(())).unwrap().1);
    assert!(matches!(read_last(&[], Ok(())), Err(ReadError::Incomplete)));
}

#[test]
fn fitting_server_packet_is_sent() {
    let config = Config { max_packet_size: 5 + 16, ..Config::default() };
    let cipher = ([8u8; 32], [1u8; 12]);
    let (bytes, next) = server_send_with_dynamic_encrypt(b"hello", cipher, &config).unwrap();
    assert_eq!(1 + 5 + 16 + 12, bytes.len());
    assert_eq!(&next.1[..], &bytes[bytes.len() - 12..]);
    assert_eq!([8u8; 32], next.0);
    let small = Config { max_packet_size: 5 + 15, ..Config::default() };
    assert!(matches!(server_send_with_dynamic_encrypt(b"hello", cipher, &small), Err(PacketError::TooLarge(21, 20))));
}
