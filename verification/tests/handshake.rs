use tcp_handler::common::{ProtocolVariant, ReadError, StarterError};
use tcp_handler::handshake::{cipher_from_parts, read_client_key, read_offer, server_offer, write_hello, write_offer};
use tcp_handler::common::{check_version, read_head, read_last, write_last};
use tcp_handler::config::Config;
use tcp_handler::handshake::client_cipher;
use rsa::traits::PublicKeyParts;
use tcp_handler::protocols::encrypt;


/// A fixed 2048-bit RSA key (e = 65537), so that no test waits for a key to be
/// generated.
fn fixed_key() -> rsa::RsaPrivateKey {
    let big = |parts: &[&str]| rsa::BigUint::parse_bytes(parts.concat().as_bytes(), 16).unwrap();
    let n = big(&[
        "bf02fd16d90e79f3f6011b9c09c1c40d988c717a114fc147943a5d1a1efbe469",
        "5705e520f3e1547ed7f78530d7c7fc5eb5ee34cf95449b8d72b5e3d324bb6b9f",
        "7c859e5255000d0fc2b3c5d038b7741303e4af3411df0979e8efaaa91383242b",
        "5ea4123370a63f23394c7811c0f5389ec694a072319427046ad731907917fd41",
        "f686c7c6e7f62a37e60949ca3ce36cdd0a17f93041f00f953da51e5f6204e13c",
        "e68b9b9a88657f41f17c990276f7503e13397138a7d67ff00739fe2a9bc5edd3",
        "04351321dd60251ded5c5f56fcf9bdb69c09c682df8cd7f324190051eba72b0a",
        "17a440b918585f748e2a211ddb8c30b59388fcd04e1ad064ffa4de992d2552a9",
    ]);
    let d = big(&[
        "3f71b6aec819ced801760cbd9f6004c69f4cc6c44ccbb8df1594ed27a7f2f2c3",
        "2a6c82d6972ad8ede8be06375af4ca168b473bb357591a71b9104143f887680f",
        "e9445879f051bc04e81ede2d73293c1cb4c6588b6b043219940d471a31a8f572",
        "9254dcd6c92beefcbc23721e33813ff53cf050fa9d0d20888f143b1a499e7637",
        "c7cc7f6048532503ffb9a0cc9406956491dc50297a92d78aca4c33ce7824a3ff",
        "43cd2a45481603ae676c84a1ff683ca5324776fc448ce878558f203506555018",
        "516da9e0fd3dbc6a1a890c5e74154f8ad3c2bb16c4ecbd6c54351451e9ff85d3",
        "5179267f505c51fc4edcc100fdfde30783a28e97675682f1f191dba7096a4801",
    ]);
    let p = big(&[
        "dd86a3eed1b4daabdc457d87e9c931489303a62a6e57ebfdad31bc4c4bb94b86",
        "5ee041ba115dc8852af70858408ae2904f51d66321d2431401e4b9f8a9839dfc",
        "a88be2c70a4bf5ed693e32bfef6a6055581b2f7fca1b098075342b84403110af",
        "1601cd6695c0acf6a6f56192e71dec3c7647df25960fb819499ee50fba655f21",
    ]);
    let q = big(&[
        "dcbcb131d87f0f7c8d824f567ee87234825be5d17bf3c044a7cb8fac6561ed8a",
        "68499f17da27a8628367f9add595f72a0fc660edd9745360b37cb6a53719afbc",
        "5f8ac2dba273f100a3e180e4f2cbd149e4d7bdc1b2254a0f801e3739e293bdbe",
        "8df43581183c68b92a5e6db78fde7f1e0ebdbfefe4f20abe101c3605940a2a89",
    ]);
    rsa::RsaPrivateKey::from_components(n, rsa::BigUint::from(65537u32), d, vec![p, q]).unwrap()
}

/// The modulus and public exponent of `key` as little-endian bytes.
fn key_parts(key: &rsa::RsaPrivateKey) -> (Vec<u8>, Vec<u8>) {
    (key.n().to_bytes_le(), key.e().to_bytes_le())
}

#[test]
fn offer_roundtrip() {
    let mut out = Vec::new();
    write_offer(&mut out, &[1, 2, 3], &[9u8; 12]);
    assert_eq!(1 + 3 + 12, out.len());
    let ((encrypted, nonce), n) = read_offer(&out).unwrap();
    assert_eq!(vec![1, 2, 3], encrypted);
    assert_eq!([9u8; 12], nonce);
    assert_eq!(out.len(), n);
    for i in 0..out.len() {
        assert!(matches!(read_offer(&out[..i]), Err(ReadError::Incomplete)));
    }
    assert!(matches!(read_offer(&[0xFF; 19]), Err(ReadError::Failed(StarterError::IO(_)))));
}

#[test]
fn hello_parts_and_small_key() {
    // A toy RSA public key: n = 3233 = 61 * 53, e = 17, little-endian bytes.
    let n = [0xA1u8, 0x0C];
    let e = [17u8];
    let mut out = Vec::new();
    write_hello(&mut out, ProtocolVariant::Encryption, "app", "1", &n, &e);
    let (_, head_len) = read_head(&out, ProtocolVariant::Encryption, "app").unwrap();
    let rest = &out[head_len..];
    assert_eq!(vec![2, 0xA1, 0x0C, 1, 17], rest.to_vec());
    let (key, taken) = read_client_key(rest).unwrap();
    assert_eq!(rest.len(), taken);
    assert!(matches!(read_client_key(&rest[..3]), Err(ReadError::Incomplete)));

    // The key is far too small for OAEP over SHA-512: the offer fails and
    // nothing is written.
    let mut offer = vec![7u8];
    assert!(matches!(server_offer(&mut offer, &key), Err(StarterError::RSA(_))));
    assert_eq!(vec![7u8], offer);
}

#[test]
fn invalid_rsa_parts_are_rsa_errors() {
    // An even modulus is rejected when the key is made.
    let mut out = Vec::new();
    tcp_handler::wire::write_u8_vec(&mut out, &[0x10, 0x0C]);
    tcp_handler::wire::write_u8_vec(&mut out, &[17]);
    assert!(matches!(read_client_key(&out), Err(ReadError::Failed(StarterError::RSA(_)))));
}

#[test]
fn cipher_from_key_and_nonce() {
    let key = vec![5u8; 32];
    let c = cipher_from_parts(&key, [1u8; 12]);
    assert!(!c.is_broken());
}

#[test]
fn encrypted_handshake_agrees() {
    let protocol = ProtocolVariant::Encryption;
    let private_key = fixed_key();
    let (kn, ke) = key_parts(&private_key);
    let mut hello = Vec::new();
    write_hello(&mut hello, protocol, "a", "1", &kn, &ke);
    let (head, n) = read_head(&hello, protocol, "a").unwrap();
    let accepted = head.1 == "1";
    let head = check_version(head, accepted).unwrap();
    let (public_key, m) = read_client_key(&hello[n..]).unwrap();
    assert_eq!(hello.len(), n + m);

    let mut to_client = Vec::new();
    write_last(&mut to_client, protocol, "a", "1", Ok(head)).unwrap();
    let server_cipher = server_offer(&mut to_client, &public_key).unwrap();

    let ((), k) = read_last(&to_client, Ok(())).unwrap();
    let ((encrypted, nonce), l) = read_offer(&to_client[k..]).unwrap();
    assert_eq!(to_client.len(), k + l);
    let client_cipher = client_cipher(&private_key, &encrypted, nonce).unwrap().unwrap();

    // Both sides encrypt "tester" alike.
    let config = Config::default();
    let mut s = server_cipher;
    let mut c = client_cipher;
    let from_server = encrypt::send_with_nonce(b"tester", &mut s, &config, [1u8; 12]).unwrap();
    let from_client = encrypt::send_with_nonce(b"tester", &mut c, &config, [1u8; 12]).unwrap();
    assert_eq!(from_server, from_client);
}

#[test]
fn key_parts_and_offer_ignore_bytes_that_follow() {
    let mut out = Vec::new();
    tcp_handler::wire::write_u8_vec(&mut out, &[0xA1, 0x0C]);
    tcp_handler::wire::write_u8_vec(&mut out, &[17]);
    let whole = out.len();
    out.extend_from_slice(&[0xFF, 0xFF]);
    let (_, taken) = read_client_key(&out).unwrap();
    assert_eq!(whole, taken);
    for i in 0..whole {
        assert!(matches!(read_client_key(&out[..i]), Err(ReadError::Incomplete)));
    }
    let mut offer = Vec::new();
    write_offer(&mut offer, &[4, 5], &[3u8; 12]);
    let len = offer.len();
    offer.extend_from_slice(&[1, 2, 3]);
    let ((encrypted, nonce), n) = read_offer(&offer).unwrap();
    assert_eq!(vec![4, 5], encrypted);
    assert_eq!([3u8; 12], nonce);
    assert_eq!(len, n);
}

#[test]
fn client_cipher_refuses_short_offers() {
    let private_key = fixed_key();
    assert!(matches!(client_cipher(&private_key, &[], [0u8; 12]), Err(StarterError::RSA(_))));
    assert!(matches!(client_cipher(&private_key, &[7u8; 129], [0u8; 12]), Err(StarterError::RSA(_))));
    // A ciphertext of the key's length that does not decrypt is an RSA error too.
    assert!(matches!(client_cipher(&private_key, &[7u8; 256], [0u8; 12]), Err(StarterError::RSA(_))));
}

#[test]
fn cipher_from_decrypted_cases() {
    assert!(matches!(
        tcp_handler::handshake::cipher_from_decrypted(Err(rsa::Error::Decryption), [0u8; 12]),
        Err(StarterError::RSA(rsa::Error::Decryption))
    ));
    assert!(matches!(tcp_handler::handshake::cipher_from_decrypted(Ok(vec![1u8; 31]), [0u8; 12]), Ok(None)));
    let mut c = tcp_handler::handshake::cipher_from_decrypted(Ok(vec![1u8; 32]), [2u8; 12]).unwrap().unwrap();
    assert!(!c.is_broken());
    assert_eq!(Some(([1u8; 32], [2u8; 12])), c.get().ok());
}
