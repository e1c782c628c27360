use ::totp::algorithm::Algorithm;
use ::totp::codec::decode;
use ::totp::generator::{format_code, system_time, totp, truncate, ConfigError};

const RFC_SHA1: &[u8] = b"12345678901234567890";
const RFC_SHA256: &[u8] = b"12345678901234567890123456789012";
const RFC_SHA512: &[u8] = b"1234567890123456789012345678901234567890123456789012345678901234";

fn make(secret: &[u8], length: u64, algorithm: Algorithm) -> totp {
    totp::new(secret.to_vec(), 30, length, algorithm, 0, None, None).unwrap()
}

#[test]
fn rfc6238_sha1_six_digits() {
    let g = make(RFC_SHA1, 6, Algorithm::Sha1);
    let key = RFC_SHA1.to_vec();
    assert_eq!(g.otp_value(59, key.clone()), 287082);
    assert_eq!(g.otp_value(1111111109, key.clone()), 81804);
    assert_eq!(g.otp_value(1111111111, key.clone()), 50471);
    assert_eq!(g.otp_value(1234567890, key.clone()), 5924);
    assert_eq!(g.generate(59, key.clone()), "287 082");
    assert_eq!(g.generate(1111111109, key.clone()), "081 804");
    assert_eq!(g.generate(1111111111, key.clone()), "050 471");
    assert_eq!(g.generate(1234567890, key), "005 924");
}

#[test]
fn rfc6238_eight_digits_all_algorithms() {
    let cases: [(u64, u32, u32, u32); 6] = [
        (59, 94287082, 46119246, 90693936),
        (1111111109, 7081804, 68084774, 25091201),
        (1111111111, 14050471, 67062674, 99943326),
        (1234567890, 89005924, 91819424, 93441116),
        (2000000000, 69279037, 90698825, 38618901),
        (20000000000, 65353130, 77737706, 47863826),
    ];
    let g1 = make(RFC_SHA1, 8, Algorithm::Sha1);
    let g256 = make(RFC_SHA256, 8, Algorithm::Sha256);
    let g512 = make(RFC_SHA512, 8, Algorithm::Sha512);
    for (t, v1, v256, v512) in cases {
        assert_eq!(g1.otp_value(t, RFC_SHA1.to_vec()), v1);
        assert_eq!(g256.otp_value(t, RFC_SHA256.to_vec()), v256);
        assert_eq!(g512.otp_value(t, RFC_SHA512.to_vec()), v512);
    }
    assert_eq!(g1.generate(59, RFC_SHA1.to_vec()), "9428 7082");
    assert_eq!(g1.generate(1111111109, RFC_SHA1.to_vec()), "0708 1804");
}

#[test]
fn base32_secret_fixed_time() {
    let key = decode("JBSWY3DPEHPK3PXP").unwrap();
    let g = totp::new(key.clone(), 30, 6, Algorithm::Sha1, 0, None, None).unwrap();
    assert_eq!(g.otp_value(1700000000, key.clone()), 324550);
    assert_eq!(g.generate(1700000000, key), "324 550");
}

#[test]
fn generate_is_deterministic() {
    let g = make(RFC_SHA1, 6, Algorithm::Sha256);
    let a = g.generate(1234567890, RFC_SHA1.to_vec());
    let b = g.generate(1234567890, RFC_SHA1.to_vec());
    assert_eq!(a, b);
}

#[test]
fn same_window_same_code() {
    let key = decode("JBSWY3DPEHPK3PXP").unwrap();
    let g = totp::new(key.clone(), 30, 6, Algorithm::Sha1, 0, None, None).unwrap();
    assert_eq!(g.generate(30, key.clone()), g.generate(59, key.clone()));
    assert_eq!(g.generate(30, key.clone()), "996 554");
    assert_ne!(g.generate(29, key.clone()), g.generate(30, key));
}

#[test]
fn first_window_counter_zero() {
    let key = decode("JBSWY3DPEHPK3PXP").unwrap();
    let g = totp::new(key.clone(), 30, 6, Algorithm::Sha1, 0, None, None).unwrap();
    assert_eq!(g.generate(0, key.clone()), "282 760");
    assert_eq!(g.generate(29, key.clone()), "282 760");
    assert_eq!(g.otp_value(0, key), 282760);
}

#[test]
fn value_below_power_of_ten() {
    for alg in [Algorithm::Sha1, Algorithm::Sha256, Algorithm::Sha512] {
        for len in 6..=8u64 {
            let g = make(RFC_SHA1, len, alg);
            for t in [0u64, 59, 1111111109, 1234567890, u64::MAX] {
                let v = g.otp_value(t, RFC_SHA1.to_vec());
                assert!(v < 10u32.pow(len as u32));
                let code = g.generate(t, RFC_SHA1.to_vec());
                assert_eq!(code.len(), len as usize + 1);
            }
        }
    }
}

#[test]
fn new_rejects_zero_time_step() {
    let r = totp::new(vec![1], 0, 6, Algorithm::Sha1, 0, None, None);
    assert_eq!(r.err(), Some(ConfigError::ZeroTimeStep));
}

#[test]
fn new_rejects_unsupported_length() {
    let r = totp::new(vec![1], 30, 5, Algorithm::Sha1, 0, None, None);
    assert_eq!(r.err(), Some(ConfigError::UnsupportedLength));
    let r = totp::new(vec![1], 30, 9, Algorithm::Sha1, 0, None, None);
    assert_eq!(r.err(), Some(ConfigError::UnsupportedLength));
}

#[test]
fn new_keeps_configuration() {
    let g = totp::new(vec![9, 8], 60, 7, Algorithm::Sha512, 2, Some("me".to_string()), None).unwrap();
    assert_eq!(g.secret, vec![9, 8]);
    assert_eq!(g.time_step, 60);
    assert_eq!(g.length, 7);
    assert_eq!(g.algorithm, Algorithm::Sha512);
    assert_eq!(g.skew, 2);
    assert_eq!(g.label, Some("me".to_string()));
    assert_eq!(g.url, None);
}

#[test]
fn truncate_rfc4226_example() {
    let tag: Vec<u8> = vec![
        0x1f, 0x86, 0x98, 0x69, 0x0e, 0x02, 0xca, 0x16, 0x61, 0x85, 0x50, 0xef, 0x7f, 0x19, 0xda,
        0x8e, 0x94, 0x5b, 0x55, 0x5a,
    ];
    assert_eq!(truncate(&tag), 0x50ef7f19);
    let mut high = vec![0xffu8; 20];
    high[19] = 0xf0;
    assert_eq!(truncate(&high), 0x7fffffff);
}

#[test]
fn format_code_pads_and_groups() {
    assert_eq!(format_code(5924, 6), "005 924");
    assert_eq!(format_code(0, 6), "000 000");
    assert_eq!(format_code(1234567, 7), "123 4567");
    assert_eq!(format_code(94287082, 8), "9428 7082");
}

#[test]
fn generate_now_has_code_shape() {
    let g = make(RFC_SHA1, 6, Algorithm::Sha1);
    let code = g.generate_now().unwrap();
    assert_eq!(code.len(), 7);
    assert_eq!(code.as_bytes()[3], b' ');
    assert!(system_time().is_ok());
}
