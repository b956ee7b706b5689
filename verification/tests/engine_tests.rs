use scb_vka::engine::{
    stream_chunk_nonce, AadBuilder, AadPurpose, ConsumedNonce, CryptoEngine, DefaultCryptoEngine,
    KdfParams, NonceFactory, StreamChunker, StreamDecryptor, StreamEncryptor,
};
use scb_vka::error::{VaultError, VaultErrorKind};
use scb_vka::hsp::HardwareEnclave;
use scb_vka::types::{CryptoVersion, Epoch, KeyKEK, KeyMK, KeyMR, Nonce, ObjectId};

struct MockEnclave;

impl HardwareEnclave for MockEnclave {
    fn sign_with_hardware_key(&self, ur: &[u8; 64]) -> Result<[u8; 64], VaultError> {
        Ok(*ur)
    }
    fn provider_name(&self) -> &'static str {
        "Memory Mock"
    }
    fn init_hardware_keys(&self) -> Result<(), VaultError> {
        Ok(())
    }
    fn has_hardware_key(&self) -> bool {
        true
    }
    fn clear_hardware_keys(&self) -> Result<(), VaultError> {
        Ok(())
    }
}

struct FailingEnclave;

impl HardwareEnclave for FailingEnclave {
    fn sign_with_hardware_key(&self, _ur: &[u8; 64]) -> Result<[u8; 64], VaultError> {
        Err(VaultError::new(VaultErrorKind::HardwareUnavailable))
    }
    fn provider_name(&self) -> &'static str {
        "Failing"
    }
    fn init_hardware_keys(&self) -> Result<(), VaultError> {
        Ok(())
    }
    fn has_hardware_key(&self) -> bool {
        false
    }
    fn clear_hardware_keys(&self) -> Result<(), VaultError> {
        Ok(())
    }
}

fn aad(purpose: AadPurpose) -> scb_vka::engine::AadContext {
    AadBuilder::new()
        .object_id(ObjectId::new([1; 16]))
        .version(CryptoVersion::new(1))
        .epoch(Epoch::new(5))
        .purpose(purpose)
        .build()
        .unwrap()
}

#[test]
fn purpose_bytes() {
    assert_eq!(AadPurpose::Header.as_bytes(), b"header".to_vec());
    assert_eq!(AadPurpose::ObjectData.as_bytes(), b"object_data".to_vec());
    assert_eq!(AadPurpose::UserPurpose([0; 32]).as_bytes(), vec![0u8]);
    let mut p = [0u8; 32];
    p[..3].copy_from_slice(b"abc");
    p[5] = b'z';
    assert_eq!(AadPurpose::UserPurpose(p).as_bytes(), b"abc".to_vec());
    assert_eq!(AadPurpose::UserPurpose([7; 32]).as_bytes(), vec![7u8; 32]);
}

#[test]
fn aad_builder_requires_every_field() {
    let e = AadBuilder::new().object_id(ObjectId::new([1; 16])).build();
    assert_eq!(e.err().unwrap().kind, VaultErrorKind::InvalidInput);
    let e = AadBuilder::new()
        .version(CryptoVersion::new(1))
        .epoch(Epoch::new(1))
        .purpose(AadPurpose::Header)
        .build();
    assert_eq!(e.err().unwrap().kind, VaultErrorKind::InvalidInput);
    let c = aad(AadPurpose::Header);
    let mut expected = vec![1u8; 16];
    expected.extend_from_slice(&[0, 0, 0, 1]);
    expected.extend_from_slice(&[0, 0, 0, 0, 0, 0, 0, 5]);
    expected.extend_from_slice(b"header");
    assert_eq!(c.data(), expected.as_slice());
}

#[test]
fn stream_nonce_has_zero_counter() {
    for _ in 0..8 {
        let n = NonceFactory::generate().unwrap();
        assert_eq!(&n.as_bytes()[16..], &[0u8; 8]);
    }
    let a = NonceFactory::generate_random().unwrap();
    let b = NonceFactory::generate_random().unwrap();
    assert_ne!(a.to_bytes(), b.to_bytes());
}

#[test]
fn kdf_params_bounds() {
    let ok = KdfParams { memory_kib: 65536, iterations: 1, parallelism: 1 };
    assert!(ok.validate().is_ok());
    let max = KdfParams { memory_kib: 4194304, iterations: 100, parallelism: 16 };
    assert!(max.validate().is_ok());
    for bad in [
        KdfParams { memory_kib: 65535, iterations: 1, parallelism: 1 },
        KdfParams { memory_kib: 4194305, iterations: 1, parallelism: 1 },
        KdfParams { memory_kib: 65536, iterations: 0, parallelism: 1 },
        KdfParams { memory_kib: 65536, iterations: 101, parallelism: 1 },
        KdfParams { memory_kib: 65536, iterations: 1, parallelism: 0 },
        KdfParams { memory_kib: 65536, iterations: 1, parallelism: 17 },
    ] {
        assert_eq!(bad.validate().unwrap_err().kind, VaultErrorKind::ParameterOutOfRange);
    }
}

#[test]
fn object_roundtrip_and_tamper() {
    let e = DefaultCryptoEngine;
    let dek = KeyKEK::new([9; 32]);
    let a = aad(AadPurpose::ObjectData);
    let nonce = Nonce::new([3; 24]);
    let (ct, tag) = e.encrypt_object(&dek, b"attack at dawn", &a, ConsumedNonce::new(Nonce::new([3; 24]))).unwrap();
    assert_eq!(ct.len(), 14);
    assert_ne!(ct.as_slice(), b"attack at dawn");
    let pt = e.decrypt_object(&dek, nonce, &ct, &tag, &a).unwrap();
    assert_eq!(pt, b"attack at dawn".to_vec());
    let other = aad(AadPurpose::Header);
    let r = e.decrypt_object(&dek, Nonce::new([3; 24]), &ct, &tag, &other);
    assert_eq!(r.unwrap_err().kind, VaultErrorKind::AuthenticationFailed);
    let mut bad_tag = tag;
    bad_tag[0] ^= 1;
    let r = e.decrypt_object(&dek, Nonce::new([3; 24]), &ct, &bad_tag, &a);
    assert_eq!(r.unwrap_err().kind, VaultErrorKind::AuthenticationFailed);
}

#[test]
fn key_wrap_roundtrip() {
    let e = DefaultCryptoEngine;
    let kek = KeyKEK::new([1; 32]);
    let dek = e.generate_dek().unwrap();
    let a = aad(AadPurpose::UserPurpose([0; 32]));
    let w = e.wrap_dek(&kek, &dek, &a).unwrap();
    assert_eq!(&w[16..24], &[0u8; 8]);
    let back = e.unwrap_dek(&kek, &w, &a).unwrap();
    assert_eq!(back.as_bytes(), dek.as_bytes());
    let mut t = w;
    t[40] ^= 0x80;
    assert_eq!(e.unwrap_dek(&kek, &t, &a).err().unwrap().kind, VaultErrorKind::AuthenticationFailed);
    let other = KeyKEK::new([2; 32]);
    assert_eq!(e.unwrap_dek(&other, &w, &a).err().unwrap().kind, VaultErrorKind::AuthenticationFailed);
}

#[test]
fn header_mac() {
    let e = DefaultCryptoEngine;
    let mk = KeyMK::new([5; 32]);
    let m = e.compute_header_mac(&mk, b"blob").unwrap();
    assert!(e.verify_header_mac(&mk, b"blob", &m).unwrap());
    assert!(!e.verify_header_mac(&mk, b"blob!", &m).unwrap());
    assert!(!e.verify_header_mac(&KeyMK::new([6; 32]), b"blob", &m).unwrap());
}

#[test]
fn csprng_limits() {
    let e = DefaultCryptoEngine;
    assert_eq!(e.csprng(0).unwrap_err().kind, VaultErrorKind::ParameterOutOfRange);
    assert_eq!(e.csprng(65537).unwrap_err().kind, VaultErrorKind::ParameterOutOfRange);
    assert_eq!(e.csprng(65536).unwrap().len(), 65536);
    assert_eq!(e.csprng(16).unwrap().len(), 16);
}

#[test]
fn leaf_keys_depend_on_context() {
    let e = DefaultCryptoEngine;
    let mr = KeyMR::new([7; 64]);
    let (a1, b1, c1) = e.derive_leaf_keys(&mr, &[1; 16], 100);
    let (a2, b2, c2) = e.derive_leaf_keys(&mr, &[1; 16], 100);
    assert_eq!(a1.as_bytes(), a2.as_bytes());
    assert_eq!(b1.as_bytes(), b2.as_bytes());
    assert_eq!(c1.as_bytes(), c2.as_bytes());
    assert_ne!(a1.as_bytes(), b1.as_bytes());
    let (a3, _, _) = e.derive_leaf_keys(&mr, &[2; 16], 100);
    let (a4, _, _) = e.derive_leaf_keys(&mr, &[1; 16], 101);
    assert_ne!(a1.as_bytes(), a3.as_bytes());
    assert_ne!(a1.as_bytes(), a4.as_bytes());
}

#[test]
fn root_keys_through_enclave() {
    let e = DefaultCryptoEngine;
    let params = KdfParams { memory_kib: 65536, iterations: 1, parallelism: 1 };
    let salt = [4u8; 32];
    let vid = [8u8; 16];
    let (k1, m1, _) = e.derive_root_keys(b"StrongVaultPassword123!", &salt, &MockEnclave, &vid, 42, &params).unwrap();
    let ur = e.derive_user_root(b"StrongVaultPassword123!", &salt, &params).unwrap();
    let mr = KeyMR::new(*ur.as_bytes());
    let (k2, m2, _) = e.derive_leaf_keys(&mr, &vid, 42);
    assert_eq!(k1.as_bytes(), k2.as_bytes());
    assert_eq!(m1.as_bytes(), m2.as_bytes());
    let bad = KdfParams { memory_kib: 1024, iterations: 1, parallelism: 1 };
    let r = e.derive_root_keys(b"pw", &salt, &MockEnclave, &vid, 42, &bad);
    assert_eq!(r.err().unwrap().kind, VaultErrorKind::ParameterOutOfRange);
    let r = e.derive_root_keys(b"pw", &salt, &FailingEnclave, &vid, 42, &params);
    assert_eq!(r.err().unwrap().kind, VaultErrorKind::HardwareUnavailable);
}

#[test]
fn chunk_nonces_count_up() {
    let mut base = [0xAA; 24];
    base[16..].copy_from_slice(&5u64.to_le_bytes());
    let n = stream_chunk_nonce(&base, 3).unwrap();
    assert_eq!(&n[..16], &[0xAA; 16]);
    assert_eq!(&n[16..], &8u64.to_le_bytes());
    base[16..].copy_from_slice(&u64::MAX.to_le_bytes());
    assert!(stream_chunk_nonce(&base, 1).is_none());
    assert!(stream_chunk_nonce(&base, 0).is_some());
}

#[test]
fn stream_roundtrip_and_mac() {
    let dek = KeyKEK::new([3; 32]);
    let a = aad(AadPurpose::ObjectData);
    let base = [0u8; 24];
    let mut enc = StreamEncryptor::new(&dek, &a, ConsumedNonce::new(Nonce::new(base)));
    let c1 = enc.encrypt_chunk(&vec![1u8; 1024 * 1024]).unwrap();
    let c2 = enc.encrypt_chunk(b"tail").unwrap();
    assert_eq!(c1.len(), 1024 * 1024 + 16);
    assert_eq!(c2.len(), 4 + 16);
    let mac = enc.finish();

    let mut dec = StreamDecryptor::new(&dek, &a, Nonce::new(base), 1024 * 1024 + 4);
    assert_eq!(dec.next_read_len(), 1024 * 1024 + 16);
    assert_eq!(dec.decrypt_chunk(&c2).unwrap_err().kind, VaultErrorKind::IntegrityError);
    let p1 = dec.decrypt_chunk(&c1).unwrap();
    assert_eq!(p1, vec![1u8; 1024 * 1024]);
    assert_eq!(dec.next_read_len(), 20);
    let p2 = dec.decrypt_chunk(&c2).unwrap();
    assert_eq!(p2, b"tail".to_vec());
    assert!(dec.is_complete());
    assert_eq!(dec.next_read_len(), 32);
    let mut bad = mac;
    bad[0] ^= 1;
    let mut dec2 = StreamDecryptor::new(&dek, &a, Nonce::new(base), 4);
    let swapped = dec2.decrypt_chunk(&c2);
    assert_eq!(swapped.unwrap_err().kind, VaultErrorKind::AuthenticationFailed);
    assert_eq!(dec.finish(&mac).unwrap(), 1024 * 1024 + 4);
    let mut dec3 = StreamDecryptor::new(&dek, &a, Nonce::new(base), 1024 * 1024 + 4);
    dec3.decrypt_chunk(&c1).unwrap();
    dec3.decrypt_chunk(&c2).unwrap();
    assert_eq!(dec3.finish(&bad).unwrap_err().kind, VaultErrorKind::IntegrityError);
}

#[test]
fn chunk_nonces_differ_within_a_stream() {
    let mut base = [7u8; 24];
    base[16..].copy_from_slice(&5u64.to_le_bytes());
    let nonces: Vec<[u8; 24]> = (0..64u64).map(|i| stream_chunk_nonce(&base, i).unwrap()).collect();
    for a in 0..nonces.len() {
        for b in (a + 1)..nonces.len() {
            assert_ne!(nonces[a], nonces[b]);
        }
    }
    assert_eq!(&nonces[2][16..], &7u64.to_le_bytes());
}

#[test]
fn verify_pass_releases_nothing_and_checks_everything() {
    let dek = KeyKEK::new([3; 32]);
    let a = aad(AadPurpose::ObjectData);
    let base = [0u8; 24];
    let mut enc = StreamEncryptor::new(&dek, &a, ConsumedNonce::new(Nonce::new(base)));
    let c1 = enc.encrypt_chunk(&vec![7u8; 1024 * 1024]).unwrap();
    let c2 = enc.encrypt_chunk(b"end").unwrap();
    let mac = enc.finish();
    let mut check = StreamDecryptor::new(&dek, &a, Nonce::new(base), 1024 * 1024 + 3);
    check.verify_chunk(&c1).unwrap();
    check.verify_chunk(&c2).unwrap();
    assert!(check.is_complete());
    assert_eq!(check.finish(&mac).unwrap(), 1024 * 1024 + 3);
    let mut tampered = c2.clone();
    tampered[0] ^= 1;
    let mut check2 = StreamDecryptor::new(&dek, &a, Nonce::new(base), 1024 * 1024 + 3);
    check2.verify_chunk(&c1).unwrap();
    assert_eq!(check2.verify_chunk(&tampered).unwrap_err().kind, VaultErrorKind::AuthenticationFailed);
}

#[test]
fn chunker_cuts_full_chunks_and_keeps_the_rest() {
    let mut c = StreamChunker::new();
    let a = vec![1u8; 700_000];
    let b = vec![2u8; 700_000];
    assert!(c.push(&a).is_empty());
    let out = c.push(&b);
    assert_eq!(out.len(), 1);
    assert_eq!(out[0].len(), 1024 * 1024);
    assert_eq!(&out[0][..700_000], &a[..]);
    let rest = c.finish();
    assert_eq!(rest.len(), 1_400_000 - 1024 * 1024);
    assert!(rest.iter().all(|&x| x == 2));
    let mut d = StreamChunker::new();
    assert_eq!(d.push(&vec![0u8; 2 * 1024 * 1024]).len(), 2);
    assert!(d.finish().is_empty());
}

#[test]
fn wrapping_under_a_given_nonce() {
    let e = DefaultCryptoEngine;
    let kek = KeyKEK::new([1; 32]);
    let dek = KeyKEK::new([2; 32]);
    let a = aad(AadPurpose::ObjectData);
    let w = e.wrap_dek_with(&kek, &dek, &a, ConsumedNonce::new(Nonce::new([9; 24])));
    assert_eq!(&w[..24], &[9u8; 24]);
    assert_eq!(e.unwrap_dek(&kek, &w, &a).unwrap().as_bytes(), dek.as_bytes());
}
