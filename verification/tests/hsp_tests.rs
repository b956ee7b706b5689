use scb_vka::hsp::{
    build_create_primary_command, build_flush_context_command, build_hmac_command,
    classify_create_primary_error, expand_master_root, map_tpm_rc, parse_create_primary_response,
    parse_generic_success, parse_hmac_response, parse_response_header, select_tcti,
    tpm_hmac_input, ur_to_p256_point, HardwareSecurityProvider, MockHSP, TpmEnclave,
    WindowsTpmEnclave, MOCK_MACHINE_SECRET,
};
use scb_vka::error::VaultErrorKind;

#[test]
fn test_tcti_detection() {
    let enclave = TpmEnclave::new();
    let tcti = enclave.get_tcti();
    // Should return a valid TCTI string
    assert!(!tcti.is_empty());
    // Should be one of the expected formats
    assert!(tcti.starts_with("device:") || tcti.starts_with("tabrmd:"));
}

#[test]
fn test_hash_to_curve_deterministic() {
    let ur = [0xAB; 64];
    let point1 = ur_to_p256_point(&ur).unwrap();
    let point2 = ur_to_p256_point(&ur).unwrap();
    assert_eq!(point1.as_slice(), point2.as_slice());
    assert_eq!(point1.len(), 65);
    assert_eq!(point1[0], 0x04);
}

#[test]
fn test_hash_to_curve_different_inputs() {
    let ur1 = [0xAB; 64];
    let ur2 = [0xCD; 64];
    let point1 = ur_to_p256_point(&ur1).unwrap();
    let point2 = ur_to_p256_point(&ur2).unwrap();
    assert_ne!(point1.as_slice(), point2.as_slice());
}

#[test]
fn test_point_validation() {
    let ur = [0xAB; 64];
    let point = ur_to_p256_point(&ur).unwrap();
    assert_eq!(point.len(), 65);
    assert_eq!(point[0], 0x04);
}

#[test]
fn tcti_selection_prefers_resource_manager() {
    assert_eq!(select_tcti(true, true), "device:/dev/tpmrm0");
    assert_eq!(select_tcti(true, false), "device:/dev/tpmrm0");
    assert_eq!(select_tcti(false, true), "device:/dev/tpm0");
    assert_eq!(select_tcti(false, false), "tabrmd:");
}

#[test]
fn provider_names() {
    assert_eq!(TpmEnclave::new().provider_name(), "TPM 2.0 (Linux)");
    assert_eq!(WindowsTpmEnclave::new().provider_name(), "TPM 2.0 (Windows TBS)");
}

#[test]
fn mock_provider_returns_fixed_secret() {
    let s = MockHSP::new().get_machine_secret().unwrap();
    assert_eq!(s, MOCK_MACHINE_SECRET);
    assert_eq!(s, [0xCA; 32]);
}

#[test]
fn create_primary_command_layout() {
    let c = build_create_primary_command().unwrap();
    let b = c.as_slice();
    assert_eq!(b.len(), 57);
    // tag, size, command code
    assert_eq!(&b[0..10], &[0x80, 0x02, 0, 0, 0, 57, 0, 0, 0x01, 0x31]);
    // owner hierarchy
    assert_eq!(&b[10..14], &[0x40, 0, 0, 0x01]);
    // empty password session
    assert_eq!(&b[14..27], &[0, 0, 0, 9, 0x40, 0, 0, 0x09, 0, 0, 0, 0, 0]);
    // object attributes
    assert_eq!(&b[39..43], &[0x00, 0x04, 0x00, 0x72]);
    // no PCR selection at the end
    assert_eq!(&b[53..57], &[0, 0, 0, 0]);
}

#[test]
fn hmac_command_layout() {
    let ur = [7u8; 64];
    let c = build_hmac_command(0x8000_0001, &ur).unwrap();
    let b = c.as_slice();
    assert_eq!(b.len(), 111);
    assert_eq!(&b[0..10], &[0x80, 0x02, 0, 0, 0, 111, 0, 0, 0x01, 0x55]);
    assert_eq!(&b[10..14], &[0x80, 0, 0, 0x01]);
    assert_eq!(&b[27..29], &[0, 80]);
    assert_eq!(&b[29..45], b"BLACKBOX_TPM_V1\0");
    assert_eq!(&b[45..109], &ur[..]);
    assert_eq!(&b[109..111], &[0, 0x0B]);
}

#[test]
fn flush_command_layout() {
    let c = build_flush_context_command(0x0102_0304).unwrap();
    assert_eq!(c.as_slice(), &[0x80, 0x01, 0, 0, 0, 14, 0, 0, 0x01, 0x65, 1, 2, 3, 4]);
}

#[test]
fn response_header_checks() {
    assert_eq!(parse_response_header(&[0u8; 9]).unwrap_err().kind, VaultErrorKind::OperationFailed);
    let ok = [0x80, 0x01, 0, 0, 0, 10, 0, 0, 0, 0];
    assert_eq!(parse_response_header(&ok).unwrap(), (0x8001, 10, 0));
    let oversized = [0x80, 0x01, 0, 0, 0, 11, 0, 0, 0, 0];
    assert_eq!(parse_response_header(&oversized).unwrap_err().kind, VaultErrorKind::OperationFailed);
    assert!(parse_generic_success(&ok).is_ok());
    let auth_fail = [0x80, 0x01, 0, 0, 0, 10, 0, 0, 0x09, 0x8E];
    assert_eq!(parse_generic_success(&auth_fail).unwrap_err().kind, VaultErrorKind::AuthenticationFailed);
    assert_eq!(map_tpm_rc(0x9A2), VaultErrorKind::AuthenticationFailed);
    assert_eq!(map_tpm_rc(0x101), VaultErrorKind::OperationFailed);
}

#[test]
fn create_primary_response_handle() {
    let good = [0x80, 0x02, 0, 0, 0, 14, 0, 0, 0, 0, 0x80, 0, 0, 0x05];
    assert_eq!(parse_create_primary_response(&good).unwrap(), 0x8000_0005);
    let zero = [0x80, 0x02, 0, 0, 0, 14, 0, 0, 0, 0, 0, 0, 0, 0];
    assert_eq!(parse_create_primary_response(&zero).unwrap_err().kind, VaultErrorKind::OperationFailed);
    let short = [0x80, 0x02, 0, 0, 0, 10, 0, 0, 0, 0];
    assert_eq!(parse_create_primary_response(&short).unwrap_err().kind, VaultErrorKind::OperationFailed);
}

#[test]
fn hmac_response_digest() {
    let mut r = vec![0x80, 0x02, 0, 0, 0, 0, 0, 0, 0, 0, 0, 0, 0, 34, 0, 32];
    r.extend((0u8..32).collect::<Vec<u8>>());
    let len = r.len() as u8;
    r[5] = len;
    let d = parse_hmac_response(&r).unwrap();
    assert_eq!(d.to_vec(), (0u8..32).collect::<Vec<u8>>());
    let mut bad = r.clone();
    bad[15] = 31;
    assert_eq!(parse_hmac_response(&bad).unwrap_err().kind, VaultErrorKind::IntegrityError);
    let mr = WindowsTpmEnclave::new().master_root_from_hmac_response(&r).unwrap();
    assert_eq!(mr, expand_master_root(&d).unwrap());
}

#[test]
fn master_root_expansion() {
    assert_eq!(expand_master_root(&[0u8; 31]).unwrap_err().kind, VaultErrorKind::IntegrityError);
    let a = expand_master_root(&[1u8; 32]).unwrap();
    let b = expand_master_root(&[2u8; 32]).unwrap();
    assert_ne!(a, b);
    assert_eq!(a, expand_master_root(&[1u8; 32]).unwrap());
}

#[test]
fn hmac_input_is_domain_then_root() {
    let ur = [9u8; 64];
    let v = tpm_hmac_input(&ur);
    assert_eq!(&v[..16], b"BLACKBOX_TPM_V1\0");
    assert_eq!(&v[16..], &ur[..]);
}

#[test]
fn create_primary_error_classification() {
    assert_eq!(classify_create_primary_error("Tss2 AuthFail"), VaultErrorKind::AuthenticationFailed);
    assert_eq!(classify_create_primary_error("TPM_RC_BAD_AUTH"), VaultErrorKind::AuthenticationFailed);
    assert_eq!(classify_create_primary_error("TPM_RC_FAILURE"), VaultErrorKind::OperationFailed);
}
