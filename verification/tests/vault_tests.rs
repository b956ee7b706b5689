use scb_vka::config::{BLOCK_SIZE, CRYPTO_VERSION, HEADER_SLOT_A_OFFSET, HEADER_SLOT_B_OFFSET, MIN_TOTAL_BLOCKS};
use scb_vka::engine::{
    ConsumedNonce, CryptoEngine, DefaultCryptoEngine, KdfParams, NonceFactory, StreamDecryptor,
    StreamEncryptor,
};
use scb_vka::error::{VaultError, VaultErrorKind};
use scb_vka::layout::{FileTableEntry, Superblock, VaultHeader};
use scb_vka::space::SpaceManager;
use scb_vka::types::{KeyKEK, KeyMK, Nonce};
use scb_vka::vault::{
    alternate_slot, build_header_aad, calculate_data_offset, calculate_required_blocks,
    calculate_stream_sizes, contains_nul, open_header_slot, seal_header_slot, select_header_slot,
    slot_blob_size, sort_by_start_block, string_to_fixed_bytes, VaultSession,
};

struct VaultFile {
    bytes: Vec<u8>,
}

impl VaultFile {
    fn write_at(&mut self, off: u64, data: &[u8]) {
        let off = off as usize;
        if self.bytes.len() < off + data.len() {
            self.bytes.resize(off + data.len(), 0);
        }
        self.bytes[off..off + data.len()].copy_from_slice(data);
    }
    fn read_at(&self, off: u64, len: usize) -> Vec<u8> {
        let off = off as usize;
        self.bytes[off..off + len].to_vec()
    }
    /// What a copy up to end of file reads (it stops at the end).
    fn read_available(&self, off: u64, len: usize) -> Vec<u8> {
        let off = (off as usize).min(self.bytes.len());
        let end = (off + len).min(self.bytes.len());
        self.bytes[off..end].to_vec()
    }
    fn read_slot(&self, off: u64) -> Result<Vec<u8>, VaultError> {
        let mut prefix = [0u8; 8];
        prefix.copy_from_slice(&self.read_at(off, 8));
        let n = slot_blob_size(&prefix)?;
        Ok(self.read_at(off, 40 + n))
    }
}

fn keys() -> (KeyKEK, KeyMK) {
    (KeyKEK::new([0x11; 32]), KeyMK::new([0x22; 32]))
}

fn new_vault() -> (VaultFile, Superblock) {
    let crypto = DefaultCryptoEngine;
    let (kek, mk) = keys();
    let sb = Superblock::new([3; 32], [4; 16], 1_700_000_000, MIN_TOTAL_BLOCKS);
    let mut header = VaultHeader::new(CRYPTO_VERSION, 1);
    let sm = SpaceManager::new(MIN_TOTAL_BLOCKS).unwrap();
    let slot = seal_header_slot(&crypto, &kek, &mk, &mut header, &[], &sm).unwrap();
    let mut file = VaultFile { bytes: vec![0u8; (MIN_TOTAL_BLOCKS * BLOCK_SIZE as u64) as usize] };
    file.write_at(0, &sb.to_bytes());
    file.write_at(HEADER_SLOT_A_OFFSET, &slot);
    (file, sb)
}

fn unlock(file: &VaultFile, sb: &Superblock) -> Result<VaultSession, VaultError> {
    let crypto = DefaultCryptoEngine;
    let (kek, mk) = keys();
    VaultSession::unlock(
        &crypto,
        sb,
        kek,
        mk,
        file.read_slot(HEADER_SLOT_A_OFFSET),
        file.read_slot(HEADER_SLOT_B_OFFSET),
    )
}

fn add(file: &mut VaultFile, s: &mut VaultSession, ty: &str, purpose: &str, data: &[u8]) -> [u8; 16] {
    let crypto = DefaultCryptoEngine;
    let plan = s.prepare_add(&crypto, ty, purpose, data.len() as u64).unwrap();
    if let Some(len) = plan.grown_file_len {
        file.bytes.resize(len as usize, 0);
    }
    let mut pos = plan.offset;
    file.write_at(pos, &plan.wrapped_dek);
    pos += 72;
    let nonce = NonceFactory::generate().unwrap();
    file.write_at(pos, nonce.as_bytes());
    pos += 24;
    let mut enc = StreamEncryptor::new(&plan.dek, &plan.aad, ConsumedNonce::new(nonce));
    let mut written = 0u64;
    for chunk in data.chunks(1024 * 1024) {
        let out = enc.encrypt_chunk(chunk).unwrap();
        file.write_at(pos, &out);
        pos += out.len() as u64;
        written += out.len() as u64;
    }
    let mac = enc.finish();
    file.write_at(pos, &mac);
    written += 32;
    assert_eq!(written, plan.encrypted_payload_size);
    let oid = plan.object_id;
    let (slot, target) = s.finish_add(&crypto, &plan, 1_700_000_100).unwrap();
    file.write_at(target, &slot);
    s.finish_commit(target);
    file.write_at(0, &s.superblock_bytes());
    oid
}

fn read(file: &VaultFile, s: &VaultSession, oid: &[u8; 16]) -> Result<Vec<u8>, VaultError> {
    let crypto = DefaultCryptoEngine;
    let plan = s.prepare_read(&crypto, oid)?;
    let mut nonce = [0u8; 24];
    nonce.copy_from_slice(&file.read_at(plan.nonce_offset, 24));
    let mut pos = plan.nonce_offset + 24;
    let mut dec = StreamDecryptor::new(&plan.dek, &plan.aad, Nonce::new(nonce), plan.data_len);
    let mut out = Vec::new();
    while !dec.is_complete() {
        let n = dec.next_read_len();
        let chunk = file.read_at(pos, n);
        pos += n as u64;
        out.extend(dec.decrypt_chunk(&chunk)?);
    }
    let mut mac = [0u8; 32];
    mac.copy_from_slice(&file.read_at(pos, 32));
    let n = dec.finish(&mac)?;
    assert_eq!(n, out.len() as u64);
    Ok(out)
}

fn delete(file: &mut VaultFile, s: &mut VaultSession, oid: &[u8; 16]) -> Result<(), VaultError> {
    let crypto = DefaultCryptoEngine;
    let (entry, off, len) = s.take_object(oid)?;
    file.write_at(off, &vec![0u8; len]);
    s.release_blocks(&entry)?;
    let (slot, target) = s.prepare_commit(&crypto)?;
    file.write_at(target, &slot);
    s.finish_commit(target);
    Ok(())
}

#[test]
fn full_vault_lifecycle_in_memory() {
    let (mut file, sb) = new_vault();
    let mut s = unlock(&file, &sb).unwrap();
    assert_eq!(s.list_objects().unwrap().len(), 0);
    assert_eq!(s.active_slot_offset(), HEADER_SLOT_A_OFFSET);

    let payload1 = b"Hello, encrypted world!";
    let oid1 = add(&mut file, &mut s, "text/plain", "test payload 1", payload1);
    let listed = s.list_objects().unwrap();
    assert_eq!(listed.len(), 1);
    assert_eq!(listed[0].size, payload1.len() as u64);
    assert_eq!(listed[0].object_type, "text/plain");
    assert_eq!(listed[0].purpose, "test payload 1");
    assert_eq!(read(&file, &s, &oid1).unwrap(), payload1.to_vec());

    let payload2 = b"Second payload with a bit more data.";
    let oid2 = add(&mut file, &mut s, "text/plain", "test payload 2", payload2);
    delete(&mut file, &mut s, &oid1).unwrap();
    let listed = s.list_objects().unwrap();
    assert_eq!(listed.len(), 1);
    assert_eq!(listed[0].object_id, oid2);

    // Unlocking again picks the newest slot and gives back the same table.
    let s2 = unlock(&file, &sb).unwrap();
    assert_eq!(s2.header().epoch(), s.header().epoch());
    assert_eq!(read(&file, &s2, &oid2).unwrap(), payload2.to_vec());
    assert_eq!(read(&file, &s2, &oid1).unwrap_err().kind, VaultErrorKind::ObjectNotFound);

    // Vacuum into a new file.
    let crypto = DefaultCryptoEngine;
    let plan = s.plan_vacuum(&crypto).unwrap();
    let mut compacted = VaultFile { bytes: vec![0u8; (MIN_TOTAL_BLOCKS * BLOCK_SIZE as u64) as usize] };
    compacted.write_at(0, &plan.superblock);
    for m in &plan.moves {
        compacted.write_at(m.dst_offset, &file.read_available(m.src_offset, m.byte_len));
    }
    compacted.write_at(HEADER_SLOT_A_OFFSET, &plan.slot_a);
    compacted.write_at(HEADER_SLOT_B_OFFSET, &plan.slot_b);
    assert_eq!(plan.moves.len(), 1);
    assert_eq!(plan.moves[0].dst_offset, calculate_data_offset(256).unwrap());

    let sb3 = Superblock::parse(&plan.superblock).unwrap();
    assert_eq!(sb3.total_blocks(), MIN_TOTAL_BLOCKS);
    let s3 = unlock(&compacted, &sb3).unwrap();
    assert_eq!(read(&compacted, &s3, &oid2).unwrap(), payload2.to_vec());
    assert!(read(&compacted, &s3, &oid1).is_err());
    s3.lock();
}

#[test]
fn multi_chunk_object_roundtrip() {
    let (mut file, sb) = new_vault();
    let mut s = unlock(&file, &sb).unwrap();
    let data: Vec<u8> = (0..(2 * 1024 * 1024 + 1000)).map(|i| (i % 251) as u8).collect();
    let oid = add(&mut file, &mut s, "bin", "big", &data);
    assert_eq!(read(&file, &s, &oid).unwrap(), data);
    // The vault grew: its superblock records the new block count, and the
    // vault opens again with the object in it.
    let sb2 = Superblock::parse(&file.read_at(0, 8192)).unwrap();
    assert!(sb2.total_blocks() > sb.total_blocks());
    let s2 = unlock(&file, &sb2).unwrap();
    assert_eq!(read(&file, &s2, &oid).unwrap(), data);
}

#[test]
fn tampered_object_is_rejected() {
    let (mut file, sb) = new_vault();
    let mut s = unlock(&file, &sb).unwrap();
    let oid = add(&mut file, &mut s, "text", "p", b"some secret data");
    let plan = s.prepare_read(&DefaultCryptoEngine, &oid).unwrap();
    let pos = (plan.nonce_offset + 24 + 3) as usize;
    file.bytes[pos] ^= 1;
    assert_eq!(read(&file, &s, &oid).unwrap_err().kind, VaultErrorKind::AuthenticationFailed);
}

#[test]
fn wrong_keys_do_not_unlock() {
    let (file, sb) = new_vault();
    let crypto = DefaultCryptoEngine;
    let r = VaultSession::unlock(
        &crypto,
        &sb,
        KeyKEK::new([0x11; 32]),
        KeyMK::new([0x33; 32]),
        file.read_slot(HEADER_SLOT_A_OFFSET),
        file.read_slot(HEADER_SLOT_B_OFFSET),
    );
    assert_eq!(r.err().unwrap().kind, VaultErrorKind::AuthenticationFailed);
    let r2 = VaultSession::unlock(
        &crypto,
        &sb,
        KeyKEK::new([0x11; 32]),
        KeyMK::new([0x33; 32]),
        file.read_slot(HEADER_SLOT_A_OFFSET),
        Err(VaultError::new(VaultErrorKind::IoError)),
    );
    assert_eq!(r2.err().unwrap().kind, VaultErrorKind::AuthenticationFailed);
}

#[test]
fn add_input_errors() {
    let (file, sb) = new_vault();
    let mut s = unlock(&file, &sb).unwrap();
    let crypto = DefaultCryptoEngine;
    assert_eq!(s.prepare_add(&crypto, "a\0b", "p", 1).err().unwrap().kind, VaultErrorKind::InvalidInput);
    assert_eq!(s.prepare_add(&crypto, "a", "p\0", 1).err().unwrap().kind, VaultErrorKind::InvalidInput);
    assert_eq!(s.prepare_add(&crypto, "a", "p", 0).err().unwrap().kind, VaultErrorKind::ParameterOutOfRange);
    assert_eq!(
        s.prepare_add(&crypto, "a", "p", 3145728 * 4096 + 1).err().unwrap().kind,
        VaultErrorKind::ParameterOutOfRange
    );
    assert_eq!(s.take_object(&[9; 16]).err().unwrap().kind, VaultErrorKind::ObjectNotFound);
}

#[test]
fn slot_selection_and_size_prefix() {
    let (file, sb) = new_vault();
    let crypto = DefaultCryptoEngine;
    let (kek, mk) = keys();
    let a = open_header_slot(&crypto, &kek, &mk, &file.read_slot(HEADER_SLOT_A_OFFSET).unwrap(), sb.total_blocks());
    assert!(a.is_ok());
    let e = select_header_slot(Err(VaultError::new(VaultErrorKind::IoError)), Err(VaultError::new(VaultErrorKind::IntegrityError)));
    assert_eq!(e.err().unwrap().kind, VaultErrorKind::AuthenticationFailed);
    let chosen = select_header_slot(a, Err(VaultError::new(VaultErrorKind::IoError))).unwrap();
    assert_eq!(chosen.3, HEADER_SLOT_A_OFFSET);
    assert_eq!(slot_blob_size(&[0; 8]).unwrap_err().kind, VaultErrorKind::IntegrityError);
    assert_eq!(slot_blob_size(&520153u64.to_le_bytes()).unwrap_err().kind, VaultErrorKind::IntegrityError);
    assert_eq!(slot_blob_size(&520152u64.to_le_bytes()).unwrap(), 520152);
    // A flipped MAC byte is an authentication failure.
    let mut slot = file.read_slot(HEADER_SLOT_A_OFFSET).unwrap();
    slot[10] ^= 1;
    let r = open_header_slot(&crypto, &kek, &mk, &slot, sb.total_blocks());
    assert_eq!(r.err().unwrap().kind, VaultErrorKind::AuthenticationFailed);
}

#[test]
fn stream_sizes_formula() {
    // 23 bytes: one chunk, 23 + 16 + 32 = 71 sealed; 72 + 24 + 71 + 32 = 199 -> one block.
    assert_eq!(calculate_stream_sizes(23).unwrap(), (71, 1, 1));
    assert_eq!(calculate_stream_sizes(0).unwrap(), (32, 1, 0));
    // Two chunks.
    let d = 1024 * 1024 + 1;
    let (enc, blocks, chunks) = calculate_stream_sizes(d).unwrap();
    assert_eq!(chunks, 2);
    assert_eq!(enc, d + 32 + 32);
    assert_eq!(blocks, (72 + 24 + enc + 32 + 4095) / 4096);
    assert_eq!(calculate_stream_sizes(u64::MAX).unwrap_err().kind, VaultErrorKind::ParameterOutOfRange);
    assert_eq!(calculate_required_blocks(23).unwrap(), (71, 1));
}

#[test]
fn small_helpers() {
    assert_eq!(alternate_slot(HEADER_SLOT_A_OFFSET), HEADER_SLOT_B_OFFSET);
    assert_eq!(alternate_slot(HEADER_SLOT_B_OFFSET), HEADER_SLOT_A_OFFSET);
    assert_eq!(alternate_slot(0), HEADER_SLOT_A_OFFSET);
    assert_eq!(calculate_data_offset(0).unwrap(), 1024 * 1024);
    assert_eq!(calculate_data_offset(2).unwrap(), 1024 * 1024 + 8192);
    assert_eq!(calculate_data_offset(u64::MAX).unwrap_err().kind, VaultErrorKind::ParameterOutOfRange);
    let f: [u8; 4] = string_to_fixed_bytes("abcdef");
    assert_eq!(f, *b"abcd");
    let g: [u8; 8] = string_to_fixed_bytes("ab");
    assert_eq!(g, [b'a', b'b', 0, 0, 0, 0, 0, 0]);
    assert!(contains_nul("a\0"));
    assert!(!contains_nul("abc"));
    let aad = build_header_aad(1).unwrap();
    let mut expected = vec![0u8; 16];
    expected.extend_from_slice(&[0, 0, 0, 1]);
    expected.extend_from_slice(&[0; 8]);
    expected.extend_from_slice(b"header");
    assert_eq!(aad.data(), expected.as_slice());
}

#[test]
fn sort_orders_by_start_block() {
    let e = |start: u32, tag: u8| FileTableEntry::new([tag; 16], start, 1, 1, 0, [0; 32], [0; 32], [0; 72], 1);
    let v = vec![e(300, 1), e(256, 2), e(280, 3), e(256, 4)];
    let sorted = sort_by_start_block(v);
    let starts: Vec<u32> = sorted.iter().map(|x| x.start_block()).collect();
    assert_eq!(starts, vec![256, 256, 280, 300]);
    let tags: Vec<u8> = sorted.iter().map(|x| x.object_id()[0]).collect();
    assert_eq!(tags, vec![2, 4, 3, 1]);
}

struct IdentityEnclave;

impl scb_vka::hsp::HardwareEnclave for IdentityEnclave {
    fn sign_with_hardware_key(&self, ur: &[u8; 64]) -> Result<[u8; 64], VaultError> {
        Ok(*ur)
    }
    fn provider_name(&self) -> &'static str {
        "IdentityEnclave"
    }
    fn init_hardware_keys(&self) -> Result<(), VaultError> {
        Ok(())
    }
    fn has_hardware_key(&self) -> bool {
        true
    }
    fn clear_hardware_keys(&self) -> Result<(), VaultError> {
        Ok(())
    }
}

#[test]
fn vault_creation_refuses_short_passwords() {
    let crypto = DefaultCryptoEngine;
    let short = scb_vka::vault::create_vault_image(&crypto, &IdentityEnclave, b"short");
    assert_eq!(short.err().unwrap().kind, VaultErrorKind::InvalidInput);
    let bad = scb_vka::vault::unlock_keys(&crypto, &IdentityEnclave, b"password", &[0u8; 8192]);
    assert!(bad.is_err());
}

#[test]
fn failed_commit_write_is_undone() {
    let (mut file, sb) = new_vault();
    let mut s = unlock(&file, &sb).unwrap();
    let snap = s.commit_snapshot();
    let epoch = s.header().epoch();
    add(&mut file, &mut s, "t", "p", b"data");
    assert_eq!(s.list_objects().unwrap().len(), 1);
    assert_eq!(s.header().epoch(), epoch + 1);
    s.restore_commit(snap);
    assert_eq!(s.header().epoch(), epoch);
    assert!(s.list_objects().unwrap().is_empty());
    assert_eq!(s.active_slot_offset(), HEADER_SLOT_A_OFFSET);
}

#[test]
fn built_image_opens_with_its_keys() {
    let crypto = DefaultCryptoEngine;
    let (kek, mk) = keys();
    let img = scb_vka::vault::build_vault_image(&crypto, [5; 32], [6; 16], 1_700_000_000, &kek, &mk).unwrap();
    assert_eq!(img.vid, [6; 16]);
    assert_eq!(img.file_len, MIN_TOTAL_BLOCKS * BLOCK_SIZE as u64);
    let mut file = VaultFile { bytes: vec![0u8; img.file_len as usize] };
    file.write_at(0, &img.superblock);
    file.write_at(HEADER_SLOT_A_OFFSET, &img.slot_a);
    let sb = Superblock::parse(&img.superblock).unwrap();
    assert_eq!(sb.vid(), &[6; 16]);
    let s = unlock(&file, &sb).unwrap();
    assert_eq!(s.header().epoch(), 1);
    assert!(s.list_objects().unwrap().is_empty());
    let wrong = VaultSession::unlock(
        &crypto,
        &sb,
        KeyKEK::new([0x44; 32]),
        KeyMK::new([0x55; 32]),
        file.read_slot(HEADER_SLOT_A_OFFSET),
        file.read_slot(HEADER_SLOT_B_OFFSET),
    );
    assert_eq!(wrong.err().unwrap().kind, VaultErrorKind::AuthenticationFailed);
}

#[test]
fn failed_commit_changes_nothing() {
    let crypto = DefaultCryptoEngine;
    let (kek, mk) = keys();
    let sb = Superblock::new([3; 32], [4; 16], 1_700_000_000, MIN_TOTAL_BLOCKS);
    let mut header = VaultHeader::new(CRYPTO_VERSION, u64::MAX);
    let sm = SpaceManager::new(MIN_TOTAL_BLOCKS).unwrap();
    let slot = seal_header_slot(&crypto, &kek, &mk, &mut header, &[], &sm).unwrap();
    let mut file = VaultFile { bytes: vec![0u8; (MIN_TOTAL_BLOCKS * BLOCK_SIZE as u64) as usize] };
    file.write_at(0, &sb.to_bytes());
    file.write_at(HEADER_SLOT_A_OFFSET, &slot);
    let mut s = unlock(&file, &sb).unwrap();
    let before = s.header().to_bytes();
    assert_eq!(s.prepare_commit(&crypto).unwrap_err().kind, VaultErrorKind::OperationFailed);
    assert_eq!(s.header().to_bytes(), before);
    assert_eq!(s.active_slot_offset(), HEADER_SLOT_A_OFFSET);
}

#[test]
fn password_round_trip_through_the_key_schedule() {
    // The vault's own parameters take 1 GiB of Argon2id memory; the same
    // derivation with the smallest accepted parameters keeps this quick.
    let crypto = DefaultCryptoEngine;
    let params = KdfParams { memory_kib: 65536, iterations: 1, parallelism: 1 };
    let (salt, vid, ts) = ([5u8; 32], [6u8; 16], 1_700_000_000u64);
    let (kek, mk, _) =
        crypto.derive_root_keys(b"StrongVaultPassword123!", &salt, &IdentityEnclave, &vid, ts, &params).unwrap();
    let img = scb_vka::vault::build_vault_image(&crypto, salt, vid, ts, &kek, &mk).unwrap();
    let mut file = VaultFile { bytes: vec![0u8; img.file_len as usize] };
    file.write_at(0, &img.superblock);
    file.write_at(HEADER_SLOT_A_OFFSET, &img.slot_a);
    let sb = Superblock::parse(&img.superblock).unwrap();

    let (kek2, mk2, _) =
        crypto.derive_root_keys(b"StrongVaultPassword123!", sb.salt(), &IdentityEnclave, sb.vid(), sb.created_timestamp(), &params).unwrap();
    let s = VaultSession::unlock(&crypto, &sb, kek2, mk2, file.read_slot(HEADER_SLOT_A_OFFSET), file.read_slot(HEADER_SLOT_B_OFFSET)).unwrap();
    assert_eq!(s.header().epoch(), 1);

    let (kek3, mk3, _) =
        crypto.derive_root_keys(b"WrongVaultPassword123!", sb.salt(), &IdentityEnclave, sb.vid(), sb.created_timestamp(), &params).unwrap();
    let r = VaultSession::unlock(&crypto, &sb, kek3, mk3, file.read_slot(HEADER_SLOT_A_OFFSET), file.read_slot(HEADER_SLOT_B_OFFSET));
    assert_eq!(r.err().unwrap().kind, VaultErrorKind::AuthenticationFailed);
}

#[test]
fn with_functions_take_the_drawn_values() {
    let (mut file, sb) = new_vault();
    let mut s = unlock(&file, &sb).unwrap();
    let crypto = DefaultCryptoEngine;
    let plan = s
        .plan_add_with(&crypto, "t", "p", 10, [7; 16], KeyKEK::new([8; 32]), ConsumedNonce::new(Nonce::new([3; 24])))
        .unwrap();
    assert_eq!(plan.object_id, [7; 16]);
    assert_eq!(&plan.wrapped_dek[..24], &[3u8; 24]);
    assert_eq!(
        s.plan_add_with(&crypto, "t\0", "p", 10, [7; 16], KeyKEK::new([8; 32]), ConsumedNonce::new(Nonce::new([3; 24])))
            .err()
            .unwrap()
            .kind,
        VaultErrorKind::InvalidInput
    );
    let draws = scb_vka::vault::draw_seal(&crypto).unwrap();
    let (slot, target) = s.finish_add_with(&crypto, &plan, 1, draws).unwrap();
    file.write_at(target, &slot);
    s.finish_commit(target);
    assert_eq!(s.list_objects().unwrap().len(), 1);
    let draws = scb_vka::vault::draw_seal(&crypto).unwrap();
    let (slot, target) = s.prepare_commit_with(&crypto, draws).unwrap();
    assert_eq!(target, HEADER_SLOT_A_OFFSET);
    file.write_at(target, &slot);
    s.finish_commit(target);
    let s2 = unlock(&file, &sb).unwrap();
    assert_eq!(s2.list_objects().unwrap()[0].object_id, [7; 16]);
    let a = scb_vka::vault::draw_seal(&crypto).unwrap();
    let b = scb_vka::vault::draw_seal(&crypto).unwrap();
    let vp = s2.plan_vacuum_with(&crypto, a, b).unwrap();
    assert_eq!(vp.moves.len(), 1);
}
