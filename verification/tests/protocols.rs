use tcp_handler::cipher::Cipher;
use tcp_handler::common::{check_version, read_head, read_last, write_last, ProtocolVariant};
use tcp_handler::handshake::{client_cipher, read_client_key, read_offer, server_offer, write_hello};
use rsa::traits::PublicKeyParts;
use tcp_handler::common::{read_packet, PacketError};
use tcp_handler::config::{Compression, Config};
use tcp_handler::protocols::{compress, compress_encrypt, encrypt};
use tcp_handler::wire::{read_string, write_string};

fn text(s: &str) -> Vec<u8> {
    let mut out = Vec::new();
    write_string(&mut out, s);
    out
}

fn packet_message(bytes: &[u8], config: &Config) -> Vec<u8> {
    let (message, n) = read_packet(bytes, config).unwrap();
    assert_eq!(bytes.len(), n);
    message
}


/// A fixed 2048-bit RSA key (e = 65537), so that no test waits for a key to be
/// generated.
fn fixed_key() -> rsa::RsaPrivateKey {
    let big = |parts: &[&str]| rsa::BigUint::parse_bytes(parts.concat().as_bytes(), 16).unwrap();
    let n = big(&[
        "bf02fd16d90e79f3f6011b9c09c1c40d988c717a114fc147943a5d1a1efbe469",
        "5705e520f3e1547ed7f78530d7c7fc5eb5ee34cf95449b8d72b5e3d324bb6b9f",
        "7c859e5255000d0fc2b3c5d038b7741303e4af3411df0979e8efaaa91383242b",
        "5ea4123370a63f23394c7811c0f5389ec694a072319427046ad731907917fd41",
        "f686c7c6e7f62a37e60949ca3ce36cdd0a17f93041f00f953da51e5f6204e13c",
        "e68b9b9a88657f41f17c990276f7503e13397138a7d67ff00739fe2a9bc5edd3",
        "04351321dd60251ded5c5f56fcf9bdb69c09c682df8cd7f324190051eba72b0a",
        "17a440b918585f748e2a211ddb8c30b59388fcd04e1ad064ffa4de992d2552a9",
    ]);
    let d = big(&[
        "3f71b6aec819ced801760cbd9f6004c69f4cc6c44ccbb8df1594ed27a7f2f2c3",
        "2a6c82d6972ad8ede8be06375af4ca168b473bb357591a71b9104143f887680f",
        "e9445879f051bc04e81ede2d73293c1cb4c6588b6b043219940d471a31a8f572",
        "9254dcd6c92beefcbc23721e33813ff53cf050fa9d0d20888f143b1a499e7637",
        "c7cc7f6048532503ffb9a0cc9406956491dc50297a92d78aca4c33ce7824a3ff",
        "43cd2a45481603ae676c84a1ff683ca5324776fc448ce878558f203506555018",
        "516da9e0fd3dbc6a1a890c5e74154f8ad3c2bb16c4ecbd6c54351451e9ff85d3",
        "5179267f505c51fc4edcc100fdfde30783a28e97675682f1f191dba7096a4801",
    ]);
    let p = big(&[
        "dd86a3eed1b4daabdc457d87e9c931489303a62a6e57ebfdad31bc4c4bb94b86",
        "5ee041ba115dc8852af70858408ae2904f51d66321d2431401e4b9f8a9839dfc",
        "a88be2c70a4bf5ed693e32bfef6a6055581b2f7fca1b098075342b84403110af",
        "1601cd6695c0acf6a6f56192e71dec3c7647df25960fb819499ee50fba655f21",
    ]);
    let q = big(&[
        "dcbcb131d87f0f7c8d824f567ee87234825be5d17bf3c044a7cb8fac6561ed8a",
        "68499f17da27a8628367f9add595f72a0fc660edd9745360b37cb6a53719afbc",
        "5f8ac2dba273f100a3e180e4f2cbd149e4d7bdc1b2254a0f801e3739e293bdbe",
        "8df43581183c68b92a5e6db78fde7f1e0ebdbfefe4f20abe101c3605940a2a89",
    ]);
    rsa::RsaPrivateKey::from_components(n, rsa::BigUint::from(65537u32), d, vec![p, q]).unwrap()
}

/// The modulus and public exponent of `key` as little-endian bytes.
fn key_parts(key: &rsa::RsaPrivateKey) -> (Vec<u8>, Vec<u8>) {
    (key.n().to_bytes_le(), key.e().to_bytes_le())
}

/// Runs the encrypting handshake of `protocol` over in-memory buffers; gives
/// the client's and the server's cipher.
fn handshake(protocol: ProtocolVariant) -> (Cipher, Cipher) {
    let private_key = fixed_key();
    let (kn, ke) = key_parts(&private_key);
    let mut hello = Vec::new();
    write_hello(&mut hello, protocol, "a", "1", &kn, &ke);
    let (head, n) = read_head(&hello, protocol, "a").unwrap();
    let accepted = head.1 == "1";
    let init = check_version(head, accepted);
    let mut to_client = Vec::new();
    write_last(&mut to_client, protocol, "a", "1", init).unwrap();
    let (public_key, _) = read_client_key(&hello[n..]).unwrap();
    let s_cipher = server_offer(&mut to_client, &public_key).unwrap();
    let ((), k) = read_last(&to_client, Ok(())).unwrap();
    let ((encrypted, nonce), _) = read_offer(&to_client[k..]).unwrap();
    let c_cipher = client_cipher(&private_key, &encrypted, nonce).unwrap().unwrap();
    (c_cipher, s_cipher)
}

fn pair() -> (Cipher, Cipher) {
    let key = [7u8; 32];
    let nonce = [3u8; 12];
    (Cipher::new(key, nonce), Cipher::new(key, nonce))
}

#[test]
fn compress_connect() {
    let config = Config::default();
    let bytes = compress::send(&text("hello server."), &config).unwrap();
    let received = compress::recv(&packet_message(&bytes, &config)).unwrap();
    assert_eq!("hello server.", read_string(&received).unwrap().0);

    let fast = Config { compression: Compression::fast(), ..Config::default() };
    let bytes = compress::send(&text("hello client."), &fast).unwrap();
    let received = compress::recv(&packet_message(&bytes, &fast)).unwrap();
    assert_eq!("hello client.", read_string(&received).unwrap().0);
}

#[test]
fn compress_shrinks_repetitive_data() {
    let config = Config::default();
    let message = vec![42u8; 4096];
    let bytes = compress::send(&message, &config).unwrap();
    let payload = packet_message(&bytes, &config);
    assert!(payload.len() < 200);
    assert_ne!(message, payload);
    assert_eq!(message, compress::recv(&payload).unwrap());
    assert!(matches!(compress::recv(&[0xFF, 0xFF, 0xFF]), Err(PacketError::IO(_))));
}

#[test]
fn compress_too_large() {
    let config = Config { max_packet_size: 2, ..Config::default() };
    assert!(matches!(compress::send(&text("hello"), &config), Err(PacketError::TooLarge(_, 2))));
}

#[test]
fn compress_encrypt_connect() {
    let config = Config::default();
    let (mut c_cipher, mut s_cipher) = handshake(ProtocolVariant::CompressEncryption);
    for _ in 0..10 {
        let bytes = compress_encrypt::send(&text("hello server in encrypt."), &mut c_cipher, &config).unwrap();
        let received = compress_encrypt::recv(packet_message(&bytes, &config), &mut s_cipher).unwrap();
        assert_eq!("hello server in encrypt.", read_string(&received).unwrap().0);

        let bytes = compress_encrypt::send(&text("hello client in encrypt."), &mut s_cipher, &config).unwrap();
        let received = compress_encrypt::recv(packet_message(&bytes, &config), &mut c_cipher).unwrap();
        assert_eq!("hello client in encrypt.", read_string(&received).unwrap().0);
    }
}

#[test]
fn encrypt_connect() {
    let config = Config::default();
    let (mut c_cipher, mut s_cipher) = pair();
    for _ in 0..3 {
        let bytes = encrypt::send(b"Hello tcp-handler encrypt.", &mut s_cipher, &config).unwrap();
        let received = encrypt::recv(packet_message(&bytes, &config), &mut c_cipher).unwrap();
        assert_eq!(b"Hello tcp-handler encrypt.".to_vec(), received);
        let bytes = encrypt::send(b"Hello tcp-handler encrypt.", &mut c_cipher, &config).unwrap();
        let received = encrypt::recv(packet_message(&bytes, &config), &mut s_cipher).unwrap();
        assert_eq!(b"Hello tcp-handler encrypt.".to_vec(), received);
    }
}

#[test]
fn encrypt_payload_is_nonce_message_and_tag() {
    let config = Config::default();
    let (mut c_cipher, _) = pair();
    let message = b"plain text".to_vec();
    let payload = packet_message(&encrypt::send_with_nonce(&message, &mut c_cipher, &config, [9u8; 12]).unwrap(), &config);
    assert_eq!(12 + message.len() + 16, payload.len());
    assert!(payload.windows(message.len()).all(|w| w != &message[..]));
}

#[test]
fn nonce_rotates_to_the_fresh_one() {
    let config = Config::default();
    let (mut c_cipher, mut s_cipher) = pair();
    let bytes = compress_encrypt::send_with_nonce(b"x", &mut c_cipher, &config, [5u8; 12]).unwrap();
    // The same ciphertext under the same state: the packet is a function of its inputs.
    let (mut other, _) = pair();
    let again = compress_encrypt::send_with_nonce(b"x", &mut other, &config, [5u8; 12]).unwrap();
    assert_eq!(bytes, again);
    compress_encrypt::recv(packet_message(&bytes, &config), &mut s_cipher).unwrap();
    // Both sides now use nonce [5; 12]: a packet made with a cipher built from it is accepted.
    let mut expected = Cipher::new([7u8; 32], [5u8; 12]);
    let next = compress_encrypt::send_with_nonce(b"y", &mut expected, &config, [6u8; 12]).unwrap();
    assert_eq!(b"y".to_vec(), compress_encrypt::recv(packet_message(&next, &config), &mut s_cipher).unwrap());
}

#[test]
fn broken_cipher_stays_broken() {
    let config = Config::default();
    let (_, mut s_cipher) = pair();
    // A packet under another key fails to decrypt and breaks the receiver's cipher.
    let mut wrong = Cipher::new([1u8; 32], [3u8; 12]);
    let bytes = compress_encrypt::send(b"x", &mut wrong, &config).unwrap();
    assert!(matches!(compress_encrypt::recv(packet_message(&bytes, &config), &mut s_cipher), Err(PacketError::AES(_))));
    assert!(s_cipher.is_broken());
    assert!(matches!(compress_encrypt::send(b"x", &mut s_cipher, &config), Err(PacketError::Broken())));
    assert!(matches!(compress_encrypt::recv(vec![0u8; 40], &mut s_cipher), Err(PacketError::Broken())));
    assert!(matches!(encrypt::send(b"x", &mut s_cipher, &config), Err(PacketError::Broken())));
}

#[test]
fn encrypt_tampered_packet_is_rejected() {
    let config = Config::default();
    let (mut c_cipher, mut s_cipher) = pair();
    let bytes = encrypt::send_with_nonce(&[], &mut c_cipher, &config, [0u8; 12]).unwrap();
    let mut payload = packet_message(&bytes, &config);
    payload[0] ^= 1;
    assert!(matches!(encrypt::recv(payload, &mut s_cipher), Err(PacketError::AES(_))));
    assert!(s_cipher.is_broken());
}

#[test]
fn encrypt_too_large_after_rotation() {
    let config = Config { max_packet_size: 8, ..Config::default() };
    let (mut c_cipher, _) = pair();
    assert!(matches!(encrypt::send_with_nonce(b"abc", &mut c_cipher, &config, [4u8; 12]), Err(PacketError::TooLarge(31, 8))));
    assert!(!c_cipher.is_broken());
}
