use scb_vka::error::VaultErrorKind;
use scb_vka::memory::{fill_wipe_chunk, wipe_chunk_len, wipe_pass_pattern, SecureBuffer};

#[test]
fn test_secure_buffer_bounds() {
    // Valid allocation within limit
    let buf = SecureBuffer::new(1024).expect("Failed to allocate 1KB SecureBuffer");
    assert_eq!(buf.len(), 1024);

    // Invalid allocation (exceeds MAX_SIZE)
    let too_large = SecureBuffer::MAX_SIZE + 1;
    let err = SecureBuffer::new(too_large).err().unwrap();
    assert_eq!(err.kind, VaultErrorKind::ParameterOutOfRange);
}

#[test]
fn secure_buffer_starts_zeroed_and_wipes() {
    let mut buf = SecureBuffer::new(16).unwrap();
    assert!(buf.as_slice().iter().all(|&b| b == 0));
    buf.as_mut_slice()[3] = 7;
    buf.set(4, 9);
    assert_eq!(buf.as_slice()[3], 7);
    assert_eq!(buf.as_slice()[4], 9);
    buf.wipe();
    assert!(buf.as_slice().iter().all(|&b| b == 0));
    assert_eq!(buf.len(), 16);
}

#[test]
fn wipe_passes_and_chunks() {
    assert_eq!(wipe_pass_pattern(0), None);
    assert_eq!(wipe_pass_pattern(1), Some(0));
    assert_eq!(wipe_pass_pattern(2), None);
    assert_eq!(wipe_chunk_len(10), 10);
    assert_eq!(wipe_chunk_len(65536), 65536);
    assert_eq!(wipe_chunk_len(1_000_000), 65536);
    let mut chunk = vec![0xFFu8; 512];
    fill_wipe_chunk(&mut chunk, Some(0)).unwrap();
    assert!(chunk.iter().all(|&b| b == 0));
    fill_wipe_chunk(&mut chunk, None).unwrap();
    assert!(!chunk.iter().all(|&b| b == 0));
}
