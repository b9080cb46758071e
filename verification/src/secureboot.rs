//! Enrolling a self-issued certificate as UEFI Secure Boot's PK, KEK and
//! db while the firmware is in Setup Mode.
//!
//! In Setup Mode the firmware accepts a time-based authenticated variable
//! update with an empty signature, as long as the payload has the
//! `EFI_VARIABLE_AUTHENTICATION_2` shape: a timestamp, then a
//! `WIN_CERTIFICATE_UEFI_GUID` header. This module builds that payload and
//! the `EFI_SIGNATURE_LIST` it carries, and decides the order of the
//! variable writes; the caller talks to the firmware.

use vstd::prelude::*;

verus! {

/// `EFI_CERT_X509_GUID`.
pub const CERT_X509_GUID: &'static str = "a5c059a1-94e4-4aa7-87b5-ab155c2bf072";
/// `EFI_CERT_TYPE_PKCS7_GUID`.
pub const CERT_TYPE_PKCS7_GUID: &'static str = "4aafd29d-68df-49ee-8aa9-347d375665a7";
/// The owner stamped on the signature list entries r-boot adds.
pub const SIGNATURE_OWNER: &'static str = "2916e9be-32b3-45f0-8af6-25ab8643fdc4";
pub const WIN_CERT_TYPE_EFI_GUID: u16 = 0x0ef1;
pub const WIN_CERT_REVISION: u16 = 0x0200;

// ---------------------------------------------------------------------------
// GUIDs
// ---------------------------------------------------------------------------

/// The value of a hex digit character.
pub open spec fn hex_value(c: char) -> int {
    if '0' <= c <= '9' {
        c as int - '0' as int
    } else if 'a' <= c <= 'f' {
        c as int - 'a' as int + 10
    } else {
        c as int - 'A' as int + 10
    }
}

/// Whether `c` is a hex digit.
pub open spec fn is_hex(c: char) -> bool {
    ('0' <= c <= '9') || ('a' <= c <= 'f') || ('A' <= c <= 'F')
}

/// Where the hex pair of byte `i` of a GUID's binary form stands in its
/// text: the first three fields are little-endian.
pub open spec fn guid_pair_at(i: int) -> int {
    if i == 0 {
        6
    } else if i == 1 {
        4
    } else if i == 2 {
        2
    } else if i == 3 {
        0
    } else if i == 4 {
        11
    } else if i == 5 {
        9
    } else if i == 6 {
        16
    } else if i == 7 {
        14
    } else {
        19 + 2 * (i - 8) + if i >= 10 {
            1int
        } else {
            0int
        }
    }
}

/// A GUID in `xxxxxxxx-xxxx-xxxx-xxxx-xxxxxxxxxxxx` form.
pub open spec fn guid_text_ok(s: Seq<char>) -> bool {
    &&& s.len() == 36
    &&& s[8] == '-' && s[13] == '-' && s[18] == '-' && s[23] == '-'
    &&& forall|j: int| 0 <= j < 36 && j != 8 && j != 13 && j != 18 && j != 23 ==> #[trigger] is_hex(s[j])
}

/// The binary form of a GUID written as text.
pub open spec fn guid_bytes_spec(s: Seq<char>) -> Seq<u8> {
    Seq::new(
        16,
        |i: int| (hex_value(s[guid_pair_at(i)]) * 16 + hex_value(s[guid_pair_at(i) + 1])) as u8,
    )
}

/// `Guid::parse_or_panic(text).to_bytes()` of the `uefi` crate (from
/// `uguid`): each byte is the hex pair at its position in the text, the
/// first three fields byte-swapped to little-endian.
#[verifier::external_body]
fn guid_bytes(text: &str) -> (r: [u8; 16])
    requires
        guid_text_ok(text@),
    ensures
        r@ == guid_bytes_spec(text@),
{
    uefi::Guid::parse_or_panic(text).to_bytes()
}

/// The three GUID constants are well formed.
proof fn lemma_guid_constants()
    ensures
        guid_text_ok(CERT_X509_GUID@),
        guid_text_ok(CERT_TYPE_PKCS7_GUID@),
        guid_text_ok(SIGNATURE_OWNER@),
{
    reveal_strlit("a5c059a1-94e4-4aa7-87b5-ab155c2bf072");
    reveal_strlit("4aafd29d-68df-49ee-8aa9-347d375665a7");
    reveal_strlit("2916e9be-32b3-45f0-8af6-25ab8643fdc4");
}

// ---------------------------------------------------------------------------
// The payload
// ---------------------------------------------------------------------------

/// The little-endian bytes of a `u32`.
pub open spec fn le32_bytes(x: u32) -> Seq<u8> {
    seq![
        (x % 256) as u8,
        (x / 256 % 256) as u8,
        (x / 65536 % 256) as u8,
        (x / 16777216) as u8,
    ]
}

/// The little-endian bytes of a `u16`.
pub open spec fn le16_bytes(x: u16) -> Seq<u8> {
    seq![(x % 256) as u8, (x / 256) as u8]
}

/// Appends the little-endian bytes of a `u32`.
fn push_u32(out: &mut Vec<u8>, x: u32)
    ensures
        final(out)@ == old(out)@ + le32_bytes(x),
{
    out.push((x % 256) as u8);
    out.push((x / 256 % 256) as u8);
    out.push((x / 65536 % 256) as u8);
    out.push((x / 16777216) as u8);
    assert(out@ =~= old(out)@ + le32_bytes(x));
}

/// Appends the little-endian bytes of a `u16`.
fn push_u16(out: &mut Vec<u8>, x: u16)
    ensures
        final(out)@ == old(out)@ + le16_bytes(x),
{
    out.push((x % 256) as u8);
    out.push((x / 256) as u8);
    assert(out@ =~= old(out)@ + le16_bytes(x));
}

/// Appends bytes.
fn push_bytes(out: &mut Vec<u8>, b: &[u8])
    ensures
        final(out)@ == old(out)@ + b@,
{
    let mut i: usize = 0;
    while i < b.len()
        invariant
            i <= b@.len(),
            out@ == old(out)@ + b@.subrange(0, i as int),
        decreases b@.len() - i,
    {
        out.push(b[i]);
        assert(b@.subrange(0, i + 1) =~= b@.subrange(0, i as int).push(b@[i as int]));
        i += 1;
    }
    assert(b@.subrange(0, i as int) =~= b@);
}

/// The `EFI_VARIABLE_AUTHENTICATION_2` payload: the timestamp, a
/// `WIN_CERTIFICATE_UEFI_GUID` header of 24 bytes with the PKCS#7 cert
/// type and no signature, then the signature list.
pub open spec fn authenticated_payload_spec(timestamp: Seq<u8>, signature_list: Seq<u8>) -> Seq<u8> {
    timestamp + le32_bytes(24) + le16_bytes(WIN_CERT_REVISION) + le16_bytes(WIN_CERT_TYPE_EFI_GUID)
        + guid_bytes_spec(CERT_TYPE_PKCS7_GUID@) + signature_list
}

/// Wraps `signature_list` in an `EFI_VARIABLE_AUTHENTICATION_2` header with
/// an empty PKCS#7 blob, the shape Setup Mode accepts without checking a
/// signature.
pub fn authenticated_payload(timestamp: &[u8; 16], signature_list: &[u8]) -> (r: Vec<u8>)
    ensures
        r@ == authenticated_payload_spec(timestamp@, signature_list@),
{
    proof {
        lemma_guid_constants();
    }
    let cert_type = guid_bytes(CERT_TYPE_PKCS7_GUID);
    let hdr_length: u32 = 4 + 2 + 2 + 16;
    let mut payload: Vec<u8> = Vec::new();
    push_bytes(&mut payload, timestamp);
    push_u32(&mut payload, hdr_length);
    push_u16(&mut payload, WIN_CERT_REVISION);
    push_u16(&mut payload, WIN_CERT_TYPE_EFI_GUID);
    push_bytes(&mut payload, &cert_type);
    push_bytes(&mut payload, signature_list);
    assert(payload@ =~= authenticated_payload_spec(timestamp@, signature_list@));
    payload
}

/// A single-entry `EFI_SIGNATURE_LIST` of X.509 certificates holding
/// `cert`: the type GUID, the list size, a zero header size, the entry
/// size, then the entry (owner GUID and certificate).
pub open spec fn signature_list_spec(cert: Seq<u8>) -> Seq<u8> {
    let signature_size = (16 + (cert.len() as u32)) as u32;
    guid_bytes_spec(CERT_X509_GUID@) + le32_bytes((28 + signature_size) as u32) + le32_bytes(0)
        + le32_bytes(signature_size) + guid_bytes_spec(SIGNATURE_OWNER@) + cert
}

/// Wraps a DER certificate in a single-entry `EFI_SIGNATURE_LIST` of X.509
/// certificates, the format of PK, KEK and db entries.
pub fn build_signature_list(cert_der: &[u8]) -> (r: Vec<u8>)
    requires
        cert_der@.len() + 44 <= u32::MAX,
    ensures
        r@ == signature_list_spec(cert_der@),
{
    proof {
        lemma_guid_constants();
    }
    let signature_size: u32 = 16 + cert_der.len() as u32;
    let list_size: u32 = 16 + 4 + 4 + 4 + signature_size;
    let mut out: Vec<u8> = Vec::new();
    let x509 = guid_bytes(CERT_X509_GUID);
    push_bytes(&mut out, &x509);
    push_u32(&mut out, list_size);
    push_u32(&mut out, 0);
    push_u32(&mut out, signature_size);
    let owner = guid_bytes(SIGNATURE_OWNER);
    push_bytes(&mut out, &owner);
    push_bytes(&mut out, cert_der);
    assert(out@ =~= signature_list_spec(cert_der@));
    out
}

// ---------------------------------------------------------------------------
// Enrollment
// ---------------------------------------------------------------------------

/// A firmware variable enrollment writes.
#[derive(Clone, Copy, Debug, PartialEq, Eq, Structural)]
pub enum Variable {
    /// `db` (image security database), with the authenticated payload.
    Db,
    /// `KEK` (global), with the authenticated payload.
    Kek,
    /// `SecureBootEnable` (global), a plain non-volatile `1`.
    SecureBootEnable,
    /// `PK` (global), with the authenticated payload.
    Pk,
}

/// One write, and what a failure reports; `None` when a failure is
/// tolerated.
#[derive(Clone, Copy, Debug)]
pub struct VariableWrite {
    pub variable: Variable,
    pub failure: Option<&'static str>,
}

/// The writes of an enrollment, in order: db and KEK, then the best-effort
/// `SecureBootEnable`, and PK last, because writing PK is what leaves
/// Setup Mode. The first write that fails with a reported error ends it.
pub fn enrollment_writes() -> (r: Vec<VariableWrite>)
    ensures
        r@.len() == 4,
        r@[0] == (VariableWrite { variable: Variable::Db, failure: Some("firmware rejected the db update") }),
        r@[1] == (VariableWrite { variable: Variable::Kek, failure: Some("firmware rejected the KEK update") }),
        r@[2] == (VariableWrite { variable: Variable::SecureBootEnable, failure: None }),
        r@[3] == (VariableWrite { variable: Variable::Pk, failure: Some("firmware rejected the PK update") }),
{
    let mut r: Vec<VariableWrite> = Vec::new();
    r.push(VariableWrite { variable: Variable::Db, failure: Some("firmware rejected the db update") });
    r.push(VariableWrite { variable: Variable::Kek, failure: Some("firmware rejected the KEK update") });
    r.push(VariableWrite { variable: Variable::SecureBootEnable, failure: None });
    r.push(VariableWrite { variable: Variable::Pk, failure: Some("firmware rejected the PK update") });
    r
}

/// Whether the key that answered the confirmation prompt is `y` or `Y`.
pub fn is_confirmation(key: Option<char>) -> (r: bool)
    ensures
        r == (key == Some('y') || key == Some('Y')),
{
    match key {
        Some(c) => c == 'y' || c == 'Y',
        None => false,
    }
}

/// Whether the `SetupMode` variable, if it could be read, says Setup Mode.
pub fn in_setup_mode(value: Option<&[u8]>) -> (r: bool)
    ensures
        r == (value matches Some(v) && v@.len() > 0 && v@[0] == 1),
{
    match value {
        Some(v) => v.len() > 0 && v[0] == 1,
        None => false,
    }
}

/// What the enrollment screen says when it ends.
#[derive(Clone, Copy, Debug)]
pub enum Notice {
    /// A Platform Key is enrolled already.
    AlreadyEnrolled,
    /// There is no certificate to enroll.
    NoCertificate,
    /// The firmware clock could not be read.
    NoClock,
    /// A write failed with this message.
    Failed(&'static str),
    /// The keys were enrolled.
    Enrolled,
}

/// The lines shown for a notice.
pub fn notice_lines(n: Notice) -> (r: Vec<&'static str>)
    ensures
        n is AlreadyEnrolled ==> r@ == seq![
            "Secure boot keys are already enrolled (firmware is not in Setup Mode).",
            "Clear the existing Platform Key from firmware setup to re-enroll.",
        ],
        n is NoCertificate ==> r@ == seq![
            "No certificate found at \\EFI\\BOOT\\db.der.",
            "Rebuild with boot.loader.r-boot.sign-bootloader enabled first.",
        ],
        n is NoClock ==> r@ == seq!["Cannot read the firmware clock; aborting enrollment."],
        n is Enrolled ==> r@ == seq![
            "Secure boot keys enrolled.",
            "Reboot for the new Platform Key to take effect.",
        ],
        n matches Notice::Failed(m) ==> r@ == seq!["Enrollment failed:", m],
{
    let mut r: Vec<&'static str> = Vec::new();
    match n {
        Notice::AlreadyEnrolled => {
            r.push("Secure boot keys are already enrolled (firmware is not in Setup Mode).");
            r.push("Clear the existing Platform Key from firmware setup to re-enroll.");
        },
        Notice::NoCertificate => {
            r.push("No certificate found at \\EFI\\BOOT\\db.der.");
            r.push("Rebuild with boot.loader.r-boot.sign-bootloader enabled first.");
        },
        Notice::NoClock => {
            r.push("Cannot read the firmware clock; aborting enrollment.");
        },
        Notice::Failed(m) => {
            r.push("Enrollment failed:");
            r.push(m);
        },
        Notice::Enrolled => {
            r.push("Secure boot keys enrolled.");
            r.push("Reboot for the new Platform Key to take effect.");
        },
    }
    r
}

} // verus!
