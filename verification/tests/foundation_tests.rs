use scb_vka::codec::{read_be16, read_be32, u16_to_be, u32_to_be, u64_to_be};
use scb_vka::config::{fnv1a_hash, ERROR_DISPLAY_MSG, MIN_TOTAL_BLOCKS};
use scb_vka::error::{check_bounds_usize, VaultError, VaultErrorKind};
use scb_vka::layout::{FileTableEntry, Superblock, VaultHeader};
use scb_vka::log::{render_event, LogLevel, NullLogger, SimpleLogger, VaultEvent, VaultLogger};
use scb_vka::space::SpaceManager;
use scb_vka::types::{Epoch, KeyKEK};
use scb_vka::util::{ct_eq, parse_hex_object_id};

#[test]
fn error_message_is_opaque() {
    let e = VaultError::new(VaultErrorKind::IntegrityError);
    assert_eq!(e.message(), "vault error");
    assert_eq!(ERROR_DISPLAY_MSG, "vault error");
    assert!(check_bounds_usize(5, 1, 5).is_ok());
    assert_eq!(check_bounds_usize(6, 1, 5).unwrap_err().kind, VaultErrorKind::ParameterOutOfRange);
    assert_eq!(check_bounds_usize(0, 1, 5).unwrap_err().kind, VaultErrorKind::ParameterOutOfRange);
}

#[test]
fn fnv1a_known_values() {
    assert_eq!(fnv1a_hash(b""), 0xcbf29ce484222325);
    assert_eq!(fnv1a_hash(b"a"), 0xaf63dc4c8601ec8c);
    assert_eq!(fnv1a_hash(b"foobar"), 0x85944171f73967e8);
}

#[test]
fn big_endian_codec() {
    assert_eq!(u16_to_be(0x1234), [0x12, 0x34]);
    assert_eq!(u32_to_be(0x0102_0304), [1, 2, 3, 4]);
    assert_eq!(u64_to_be(0x0102_0304_0506_0708), vec![1, 2, 3, 4, 5, 6, 7, 8]);
    assert_eq!(read_be16(&[0xAB, 0xCD, 0], 0), 0xABCD);
    assert_eq!(read_be32(&[0, 1, 2, 3, 4], 1), 0x0102_0304);
}

#[test]
fn constant_time_equality_and_hex_ids() {
    assert!(ct_eq(b"abc", b"abc"));
    assert!(!ct_eq(b"abc", b"abd"));
    assert!(!ct_eq(b"abc", b"ab"));
    assert!(ct_eq(b"", b""));
    let id = parse_hex_object_id("ffffffffffffffffffffffffffffffff").unwrap();
    assert_eq!(id, [0xff; 16]);
    assert_eq!(parse_hex_object_id("").unwrap_err().kind, VaultErrorKind::InvalidInput);
    assert_eq!(parse_hex_object_id("00").unwrap_err().kind, VaultErrorKind::InvalidInput);
    // One optional `0x` prefix, not two.
    assert!(parse_hex_object_id(" 0x00112233445566778899aabbccddeeff\n").is_ok());
    assert_eq!(
        parse_hex_object_id("0x0x00112233445566778899aabbccddeeff").unwrap_err().kind,
        VaultErrorKind::InvalidInput
    );
}

#[test]
fn epoch_and_keys() {
    let mut e = Epoch::new(1);
    e.advance().unwrap();
    assert_eq!(e.value(), 2);
    let mut m = Epoch::new(u64::MAX);
    assert_eq!(m.advance().unwrap_err().kind, VaultErrorKind::CapacityExceeded);
    assert_eq!(m.value(), u64::MAX);
    let mut k = KeyKEK::new([7; 32]);
    let d = k.duplicate();
    k.zeroize();
    assert_eq!(k.as_bytes(), &[0u8; 32]);
    assert_eq!(d.as_bytes(), &[7u8; 32]);
}

#[test]
fn superblock_roundtrip_and_checks() {
    let sb = Superblock::new([1; 32], [2; 16], 99, MIN_TOTAL_BLOCKS);
    let bytes = sb.to_bytes();
    assert_eq!(bytes.len(), 8192);
    assert_eq!(&bytes[0..5], b"BLKBX");
    let p = Superblock::parse(&bytes).unwrap();
    assert_eq!(p.salt(), &[1; 32]);
    assert_eq!(p.vid(), &[2; 16]);
    assert_eq!(p.created_timestamp(), 99);
    assert_eq!(p.total_blocks(), MIN_TOTAL_BLOCKS);
    assert_eq!(p.crypto_version(), 1);
    let mut bad = bytes.clone();
    bad[0] = b'X';
    assert_eq!(Superblock::parse(&bad).unwrap_err().kind, VaultErrorKind::IntegrityError);
    assert_eq!(Superblock::parse(&bytes[..100]).unwrap_err().kind, VaultErrorKind::IntegrityError);
    let small = Superblock::new([1; 32], [2; 16], 99, 10);
    assert_eq!(small.validate().unwrap_err().kind, VaultErrorKind::IntegrityError);
    let mut v = bytes.clone();
    v[40] = 2;
    assert_eq!(Superblock::parse(&v).unwrap_err().kind, VaultErrorKind::InvalidInput);
}

#[test]
fn header_and_entry_roundtrip() {
    let mut h = VaultHeader::new(1, 7);
    h.update_entry_count(3);
    h.update_bitmap_size(64);
    h.increment_epoch().unwrap();
    let b = h.to_bytes();
    assert_eq!(b.len(), 56);
    let p = VaultHeader::parse(&b).unwrap();
    assert_eq!((p.entry_count(), p.bitmap_size(), p.epoch(), p.crypto_version()), (3, 64, 8, 1));
    let mut bad = b.clone();
    bad[0] = 0;
    assert_eq!(VaultHeader::parse(&bad).unwrap_err().kind, VaultErrorKind::IntegrityError);
    let mut over = b.clone();
    over[4..8].copy_from_slice(&1_000_001u32.to_le_bytes());
    assert_eq!(VaultHeader::parse(&over).unwrap_err().kind, VaultErrorKind::IntegrityError);

    let mut e = FileTableEntry::new([1; 16], 300, 2, 5000, 77, [2; 32], [3; 32], [4; 72], 8);
    let eb = e.to_bytes();
    assert_eq!(eb.len(), 256);
    let pe = FileTableEntry::parse(&eb).unwrap();
    assert_eq!(pe.object_id(), &[1; 16]);
    assert_eq!((pe.start_block(), pe.num_blocks(), pe.size(), pe.epoch()), (300, 2, 5000, 8));
    assert_eq!(pe.purpose(), &[3; 32]);
    assert_eq!(pe.object_type(), &[2; 32]);
    assert!(pe.validate_epoch(8).is_ok());
    assert_eq!(pe.validate_epoch(7).unwrap_err().kind, VaultErrorKind::IntegrityError);
    e.set_start_block(256);
    assert_eq!(e.start_block(), 256);
    e.zeroize_entry();
    assert_eq!(FileTableEntry::parse(&e.to_bytes()).unwrap_err().kind, VaultErrorKind::IntegrityError);
}

#[test]
fn space_manager_allocation() {
    let mut m = SpaceManager::new(512).unwrap();
    assert_eq!(m.bitmap_size(), 64);
    assert_eq!(m.total_blocks(), 512);
    let a = m.allocate(10).unwrap();
    assert_eq!(a, 256);
    let b = m.allocate(5).unwrap();
    assert_eq!(b, 266);
    m.deallocate(a, 10).unwrap();
    // The hint moved back: the freed run is found again.
    assert_eq!(m.allocate(10).unwrap(), 256);
    assert_eq!(m.allocate(1000).unwrap_err().kind, VaultErrorKind::VaultFull);
    assert_eq!(m.allocate(0).unwrap_err().kind, VaultErrorKind::ParameterOutOfRange);
    assert_eq!(m.deallocate(510, 5).unwrap_err().kind, VaultErrorKind::ParameterOutOfRange);
    let exported = m.export_bitmap();
    let rebuilt = SpaceManager::from_bytes(exported.clone(), 512).unwrap();
    assert_eq!(rebuilt.export_bitmap(), exported);
    assert_eq!(SpaceManager::from_bytes(vec![0; 3], 512).err().unwrap().kind, VaultErrorKind::IntegrityError);
    m.expand(1000).unwrap();
    assert_eq!(m.total_blocks(), 1512);
    assert_eq!(m.bitmap_size(), 189);
    assert_eq!(m.expand(3145728).unwrap_err().kind, VaultErrorKind::CapacityExceeded);
    assert_eq!(m.expand(u64::MAX).unwrap_err().kind, VaultErrorKind::ParameterOutOfRange);
}

#[test]
fn log_records() {
    let vid = [0xAB; 16];
    let oid = [0x01; 16];
    let r = render_event(&VaultEvent::VaultCreated { vid });
    assert_eq!(r.message, format!("Vault CREATED (VID={})", "ab".repeat(16)));
    assert!(!r.is_error);
    let r = render_event(&VaultEvent::ObjectDeleted { vid, object_id: oid });
    assert_eq!(r.message, format!("Object DELETED (VID={} OID={})", "ab".repeat(16), "01".repeat(16)));
    let r = render_event(&VaultEvent::Error { message: "boom".to_string() });
    assert!(r.is_error);
    assert_eq!(r.message, "boom");
    let mut l = SimpleLogger::new();
    assert!(l.log(&VaultEvent::VaultLocked { vid }).is_some());
    l.set_level(LogLevel::Silent);
    assert!(l.log(&VaultEvent::VaultLocked { vid }).is_none());
    assert!(NullLogger.log(&VaultEvent::VaultUnlocked { vid }).is_none());
    assert_eq!(LogLevel::default(), LogLevel::Silent);
}

#[test]
fn space_manager_first_fit() {
    // Block 256 is the only free block once the rest is taken: it is found.
    let mut sm = SpaceManager::new(512).unwrap();
    assert_eq!(sm.allocate(1).unwrap(), 256);
    assert_eq!(sm.allocate(1).unwrap(), 257);
    sm.deallocate(256, 1).unwrap();
    assert_eq!(sm.allocate(254).unwrap(), 258);
    assert_eq!(sm.allocate(1).unwrap(), 256);
    assert_eq!(sm.allocate(1).unwrap_err().kind, VaultErrorKind::VaultFull);

    // A run that ends at the last block, then a hole earlier on.
    let mut m = SpaceManager::new(266).unwrap();
    assert_eq!(m.allocate(10).unwrap(), 256);
    assert_eq!(m.allocate(1).unwrap_err().kind, VaultErrorKind::VaultFull);
    m.deallocate(258, 3).unwrap();
    assert_eq!(m.allocate(2).unwrap(), 258);
    assert_eq!(m.allocate(2).unwrap_err().kind, VaultErrorKind::VaultFull);
    assert_eq!(m.allocate(1).unwrap(), 260);
}

#[test]
fn reserved_blocks_are_never_handed_out() {
    let mut sm = SpaceManager::new(512).unwrap();
    assert_eq!(sm.deallocate(0, 1).unwrap_err().kind, VaultErrorKind::ParameterOutOfRange);
    assert_eq!(sm.deallocate(250, 6).unwrap_err().kind, VaultErrorKind::ParameterOutOfRange);
    assert_eq!(sm.allocate(1).unwrap(), 256);
}

#[test]
fn error_from_kind() {
    let e: VaultError = VaultErrorKind::IoError.into();
    assert_eq!(e.kind, VaultErrorKind::IoError);
    assert_eq!(VaultError::from(VaultErrorKind::VaultFull), VaultError::new(VaultErrorKind::VaultFull));
}

#[test]
fn printed_ids_parse_back() {
    for id in [[0u8; 16], [0xff; 16], [0x0a; 16], *b"0123456789abcdef"] {
        assert_eq!(parse_hex_object_id(&hex::encode(id)).unwrap(), id);
    }
}

#[test]
fn updated_header_parses_back() {
    let mut h = VaultHeader::new(scb_vka::config::CRYPTO_VERSION, 1);
    h.update_entry_count(5);
    h.update_bitmap_size(64);
    h.increment_epoch().unwrap();
    let parsed = VaultHeader::parse(&h.to_bytes()).unwrap();
    assert_eq!(parsed.to_bytes(), h.to_bytes());
    h.update_entry_count(1_000_001);
    assert_eq!(VaultHeader::parse(&h.to_bytes()).unwrap_err().kind, VaultErrorKind::IntegrityError);
}
