use totp::algorithm::Algorithm;

fn hex(bytes: &[u8]) -> String {
    bytes.iter().map(|b| format!("{:02x}", b)).collect()
}

const MSG: &[u8] = b"The quick brown fox jumps over the lazy dog";

#[test]
fn hmac_sha1_known_tag() {
    let tag = Algorithm::Sha1.hmac(b"key".to_vec(), MSG);
    assert_eq!(hex(&tag), "de7c9b85b8b78aa6bc8a7a36f70a90701c9db4d9");
}

#[test]
fn hmac_sha256_known_tag() {
    let tag = Algorithm::Sha256.hmac(b"key".to_vec(), MSG);
    assert_eq!(hex(&tag), "f7bc83f430538424b13298e6aa6fb143ef4d59a14946175997479dbc2d1a3cd8");
}

#[test]
fn hmac_sha512_known_tag() {
    let tag = Algorithm::Sha512.hmac(b"key".to_vec(), MSG);
    assert_eq!(
        hex(&tag),
        "b42af09057bac1e2d41708e48a902e09b5ff7f12ab428a4fe86653c73dd248fb82f948a549f7b791a5b41915ee4d1ec3935357e4e2317250d0372afa2ebeeb3a"
    );
}

#[test]
fn hmac_digest_lengths() {
    let long_key = vec![7u8; 200];
    for (alg, len) in [(Algorithm::Sha1, 20), (Algorithm::Sha256, 32), (Algorithm::Sha512, 64)] {
        assert_eq!(alg.hmac(Vec::new(), b"").len(), len);
        assert_eq!(alg.hmac(long_key.clone(), b"x").len(), len);
        assert_eq!(alg.digest_len(), len);
    }
}
