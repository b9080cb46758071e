use r_boot::cli::status::{extract_pkcs7, fingerprint, image_signer, same_fingerprint, signer_cert};

/// A PE32+ image with a security directory pointing at a WIN_CERTIFICATE.
fn pe_with_certificate(payload: &[u8], cert_type: u16, padding: usize) -> Vec<u8> {
    let mut b = vec![0u8; 0x200];
    b[0] = b'M';
    b[1] = b'Z';
    let pe = 0x80usize;
    b[0x3c..0x40].copy_from_slice(&(pe as u32).to_le_bytes());
    b[pe..pe + 4].copy_from_slice(b"PE\0\0");
    let coff = pe + 4;
    let optional = coff + 20;
    b[coff + 16..coff + 18].copy_from_slice(&240u16.to_le_bytes());
    b[optional..optional + 2].copy_from_slice(&0x20bu16.to_le_bytes());
    let entry = optional + 112 + 32;
    let table = b.len();
    let length = 8 + payload.len();
    let size = length + padding;
    b[entry..entry + 4].copy_from_slice(&(table as u32).to_le_bytes());
    b[entry + 4..entry + 8].copy_from_slice(&(size as u32).to_le_bytes());
    b.extend_from_slice(&(length as u32).to_le_bytes());
    b.extend_from_slice(&0x0200u16.to_le_bytes());
    b.extend_from_slice(&cert_type.to_le_bytes());
    b.extend_from_slice(payload);
    b.extend(std::iter::repeat(0).take(padding));
    b
}

#[test]
fn extracts_the_certificate_table_payload_without_padding() {
    let image = pe_with_certificate(&[0x30, 0x03, 1, 2, 3], 2, 3);
    assert_eq!(extract_pkcs7(&image), Some(vec![0x30, 0x03, 1, 2, 3]));
}

#[test]
fn rejects_images_without_an_authenticode_table() {
    assert_eq!(extract_pkcs7(b""), None);
    assert_eq!(extract_pkcs7(b"ZM"), None);
    let mut image = pe_with_certificate(&[1, 2, 3], 2, 0);
    image[0x80] = b'X';
    assert_eq!(extract_pkcs7(&image), None);
    let other_type = pe_with_certificate(&[1, 2, 3], 0x0ef1, 0);
    assert_eq!(extract_pkcs7(&other_type), None);
    let mut no_table = pe_with_certificate(&[1, 2, 3], 2, 0);
    let entry = 0x80 + 4 + 20 + 112 + 32;
    no_table[entry + 4..entry + 8].copy_from_slice(&0u32.to_le_bytes());
    assert_eq!(extract_pkcs7(&no_table), None);
    let mut pe32 = pe_with_certificate(&[1, 2, 3], 2, 0);
    pe32[0x80 + 24..0x80 + 26].copy_from_slice(&0x10bu16.to_le_bytes());
    assert_eq!(extract_pkcs7(&pe32), None);
}

#[test]
fn garbage_is_not_a_signed_data_structure() {
    assert_eq!(signer_cert(&[0x30, 0x03, 1, 2, 3]), None);
    let image = pe_with_certificate(&[0x30, 0x00], 2, 0);
    assert_eq!(image_signer(&image), None);
}

#[test]
fn fingerprints_are_sha256() {
    let f = fingerprint(b"abc");
    assert_eq!(f.len(), 32);
    assert_eq!(&f[..4], &[0xba, 0x78, 0x16, 0xbf]);
    assert!(same_fingerprint(b"abc", b"abc"));
    assert!(!same_fingerprint(b"abc", b"abd"));
}
