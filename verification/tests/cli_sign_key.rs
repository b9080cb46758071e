use r_boot::cli::sign_key::{
    cert_der, cert_path, check_create, check_remove, fingerprint_hex, key_path,
    serial_number_bytes, Removal,
};

#[test]
fn bundle_lives_under_the_pki_directory() {
    assert_eq!(key_path(), "/var/lib/r-boot/pki/db.key");
    assert_eq!(cert_path(), "/var/lib/r-boot/pki/db.pem");
}

#[test]
fn create_needs_root_and_force_to_overwrite() {
    assert_eq!(
        check_create(false, false, false, false).unwrap_err(),
        "sign-key create must be run as root (db.key must be root-owned and root-only readable)"
    );
    assert_eq!(
        check_create(true, false, true, false).unwrap_err(),
        "pki-bundle already exists at /var/lib/r-boot/pki (use --force to overwrite)"
    );
    assert!(check_create(true, true, true, true).is_ok());
    assert!(check_create(true, false, false, false).is_ok());
}

#[test]
fn remove_needs_force_and_a_bundle() {
    match check_remove(false, false, true) {
        Removal::NothingThere(m) => assert_eq!(m, "no pki-bundle found at /var/lib/r-boot/pki"),
        other => panic!("unexpected {other:?}"),
    }
    match check_remove(true, false, false) {
        Removal::Refused(m) => {
            assert!(m.starts_with("refusing to remove the pki-bundle at /var/lib/r-boot/pki without --force"))
        }
        other => panic!("unexpected {other:?}"),
    }
    assert!(matches!(check_remove(false, true, true), Removal::Remove));
}

#[test]
fn serial_numbers_stay_positive() {
    let serial = serial_number_bytes(&[0xff; 20]);
    assert_eq!(serial.len(), 20);
    assert_eq!(serial[0], 0x7f);
    assert!(serial[1..].iter().all(|b| *b == 0xff));
}

#[test]
fn fingerprint_text_is_lower_case_hex() {
    assert_eq!(
        fingerprint_hex(b"abc"),
        "ba7816bf8f01cfea414140de5dae2223b00361a396177a9cb410ff61f20015ad"
    );
}

#[test]
fn certificate_bytes_come_from_the_pem_block() {
    let pem = b"-----BEGIN CERTIFICATE-----\nAQID\n-----END CERTIFICATE-----\n";
    assert_eq!(cert_der("/p/db.pem", pem).unwrap(), vec![1, 2, 3]);
    let err = cert_der("/p/db.pem", b"not a pem").unwrap_err();
    assert!(err.starts_with("cannot parse /p/db.pem: "));
}
