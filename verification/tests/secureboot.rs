use r_boot::secureboot::{
    authenticated_payload, build_signature_list, enrollment_writes, in_setup_mode,
    is_confirmation, notice_lines, Notice, Variable,
};

const X509: [u8; 16] = [
    0xa1, 0x59, 0xc0, 0xa5, 0xe4, 0x94, 0xa7, 0x4a, 0x87, 0xb5, 0xab, 0x15, 0x5c, 0x2b, 0xf0, 0x72,
];
const OWNER: [u8; 16] = [
    0xbe, 0xe9, 0x16, 0x29, 0xb3, 0x32, 0xf0, 0x45, 0x8a, 0xf6, 0x25, 0xab, 0x86, 0x43, 0xfd, 0xc4,
];
const PKCS7: [u8; 16] = [
    0x9d, 0xd2, 0xaf, 0x4a, 0xdf, 0x68, 0xee, 0x49, 0x8a, 0xa9, 0x34, 0x7d, 0x37, 0x56, 0x65, 0xa7,
];

#[test]
fn signature_list_wraps_one_certificate() {
    let list = build_signature_list(&[1, 2, 3]);
    let mut expected = X509.to_vec();
    expected.extend_from_slice(&47u32.to_le_bytes());
    expected.extend_from_slice(&0u32.to_le_bytes());
    expected.extend_from_slice(&19u32.to_le_bytes());
    expected.extend_from_slice(&OWNER);
    expected.extend_from_slice(&[1, 2, 3]);
    assert_eq!(list, expected);
}

#[test]
fn authenticated_payload_has_empty_pkcs7() {
    let timestamp = [7u8; 16];
    let payload = authenticated_payload(&timestamp, &[9, 9]);
    let mut expected = timestamp.to_vec();
    expected.extend_from_slice(&[24, 0, 0, 0, 0x00, 0x02, 0xf1, 0x0e]);
    expected.extend_from_slice(&PKCS7);
    expected.extend_from_slice(&[9, 9]);
    assert_eq!(payload, expected);
}

#[test]
fn enrollment_writes_pk_last() {
    let writes = enrollment_writes();
    let order: Vec<Variable> = writes.iter().map(|w| w.variable).collect();
    assert_eq!(order, vec![Variable::Db, Variable::Kek, Variable::SecureBootEnable, Variable::Pk]);
    assert_eq!(writes[0].failure, Some("firmware rejected the db update"));
    assert_eq!(writes[2].failure, None);
    assert_eq!(writes[3].failure, Some("firmware rejected the PK update"));
}

#[test]
fn confirmation_and_setup_mode() {
    assert!(is_confirmation(Some('y')));
    assert!(is_confirmation(Some('Y')));
    assert!(!is_confirmation(Some('n')));
    assert!(!is_confirmation(None));
    assert!(in_setup_mode(Some(&[1])));
    assert!(!in_setup_mode(Some(&[0])));
    assert!(!in_setup_mode(Some(&[])));
    assert!(!in_setup_mode(None));
}

#[test]
fn notices() {
    assert_eq!(notice_lines(Notice::Failed("boom")), vec!["Enrollment failed:", "boom"]);
    assert_eq!(
        notice_lines(Notice::Enrolled),
        vec!["Secure boot keys enrolled.", "Reboot for the new Platform Key to take effect."]
    );
    assert_eq!(notice_lines(Notice::NoClock).len(), 1);
    assert_eq!(notice_lines(Notice::AlreadyEnrolled).len(), 2);
    assert_eq!(notice_lines(Notice::NoCertificate)[0], "No certificate found at \\EFI\\BOOT\\db.der.");
}
