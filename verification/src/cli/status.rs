//! `r-boot-cli status`: whether the installed boot loader carries an
//! Authenticode signature, and with which certificate.
//!
//! The PE/COFF walk to the certificate table is done here; decoding the
//! PKCS#7 structures and hashing are done by the `cms`, `der` and `sha2`
//! crates.

use vstd::prelude::*;
use cms::cert::CertificateChoices;
use cms::content_info::ContentInfo;
use cms::signed_data::SignedData;
use der::{Decode, Encode};
use sha2::{Digest, Sha256};
use crate::bytes::{le16, le32, u16_at, u32_at};

verus! {

/// `WIN_CERTIFICATE.wCertificateType` of an Authenticode PKCS#7 SignedData
/// blob.
pub const WIN_CERT_TYPE_PKCS_SIGNED_DATA: u16 = 0x0002;

/// The bytes of an optional buffer.
pub open spec fn opt_bytes(o: Option<Vec<u8>>) -> Option<Seq<u8>> {
    match o {
        Some(v) => Some(v@),
        None => None,
    }
}

/// The bytes of a list of optional buffers.
pub open spec fn opt_bytes_list(v: Seq<Option<Vec<u8>>>) -> Seq<Option<Seq<u8>>> {
    v.map_values(|o: Option<Vec<u8>>| opt_bytes(o))
}

// ---------------------------------------------------------------------------
// The certificate table of a PE/COFF file
// ---------------------------------------------------------------------------

/// Offset of the data directories in an optional header with `magic`.
pub open spec fn directories_at(optional_header: int, magic: int) -> Option<int> {
    if magic == 0x10b {
        Some(optional_header + 96)
    } else if magic == 0x20b {
        Some(optional_header + 112)
    } else {
        None
    }
}

/// The DER bytes of the Authenticode `ContentInfo` of a PE/COFF file, if it
/// has one: DOS header, PE signature, COFF header, optional header, the
/// security data directory, then the `WIN_CERTIFICATE` it points to, whose
/// own length (not the padded table size) bounds the payload.
pub open spec fn pkcs7_of(b: Seq<u8>) -> Option<Seq<u8>> {
    if b.len() < 2 || b[0] != 0x4d || b[1] != 0x5a || b.len() < 0x40 {
        None
    } else {
        let pe = le32(b, 0x3c);
        if pe + 4 > b.len() || b[pe] != 0x50 || b[pe + 1] != 0x45 || b[pe + 2] != 0 || b[pe + 3]
            != 0 {
            None
        } else {
            let coff = pe + 4;
            let opt = coff + 20;
            if coff + 18 > b.len() || opt + 2 > b.len() {
                None
            } else {
                let size_of_optional = le16(b, coff + 16);
                match directories_at(opt, le16(b, opt)) {
                    None => None,
                    Some(dirs) => {
                        let entry = dirs + 32;
                        if entry + 8 > opt + size_of_optional || entry + 8 > b.len() {
                            None
                        } else {
                            let table = le32(b, entry);
                            let size = le32(b, entry + 4);
                            if size == 0 || table + size > b.len() || size < 8 {
                                None
                            } else {
                                let length = le32(b, table);
                                if le16(b, table + 6) != WIN_CERT_TYPE_PKCS_SIGNED_DATA || length
                                    < 8 || length > size {
                                    None
                                } else {
                                    Some(b.subrange(table + 8, table + length))
                                }
                            }
                        }
                    },
                }
            }
        }
    }
}

/// Reads the little-endian `u16` at `o`, if it lies inside `b`.
fn get_u16(b: &[u8], o: u64) -> (r: Option<u16>)
    ensures
        o + 2 <= b@.len() ==> r == Some(le16(b@, o as int) as u16),
        o + 2 > b@.len() ==> r is None,
{
    let len = b.len() as u64;
    if o > len || len - o < 2 {
        return None;
    }
    Some(u16_at(b, o as usize))
}

/// Reads the little-endian `u32` at `o`, if it lies inside `b`.
fn get_u32(b: &[u8], o: u64) -> (r: Option<u32>)
    ensures
        o + 4 <= b@.len() ==> r == Some(le32(b@, o as int) as u32),
        o + 4 > b@.len() ==> r is None,
{
    let len = b.len() as u64;
    if o > len || len - o < 4 {
        return None;
    }
    Some(u32_at(b, o as usize))
}

/// The raw bytes of a PE/COFF file's Authenticode certificate table entry
/// (the PKCS#7 SignedData `ContentInfo`, DER-encoded), if present; malformed
/// input gives `None`.
pub fn extract_pkcs7(bytes: &[u8]) -> (r: Option<Vec<u8>>)
    ensures
        opt_bytes(r) == pkcs7_of(bytes@),
{
    let len = bytes.len() as u64;
    if len < 2 || bytes[0] != 0x4d || bytes[1] != 0x5a {
        return None;
    }
    let pe = match get_u32(bytes, 0x3c) {
        Some(p) => p as u64,
        None => {
            return None;
        },
    };
    if pe + 4 > len {
        return None;
    }
    let p = pe as usize;
    if bytes[p] != 0x50 || bytes[p + 1] != 0x45 || bytes[p + 2] != 0 || bytes[p + 3] != 0 {
        return None;
    }
    let coff = pe + 4;
    let size_of_optional = match get_u16(bytes, coff + 16) {
        Some(s) => s as u64,
        None => {
            return None;
        },
    };
    let opt = coff + 20;
    let magic = match get_u16(bytes, opt) {
        Some(m) => m,
        None => {
            return None;
        },
    };
    let dirs = if magic == 0x10b {
        opt + 96
    } else if magic == 0x20b {
        opt + 112
    } else {
        return None;
    };
    let entry = dirs + 32;
    if entry + 8 > opt + size_of_optional {
        return None;
    }
    let table = match get_u32(bytes, entry) {
        Some(t) => t as u64,
        None => {
            return None;
        },
    };
    let size = match get_u32(bytes, entry + 4) {
        Some(s) => s as u64,
        None => {
            return None;
        },
    };
    if size == 0 || table + size > len || size < 8 {
        return None;
    }
    let length = u32_at(bytes, table as usize) as u64;
    let kind = u16_at(bytes, (table + 6) as usize);
    if kind != WIN_CERT_TYPE_PKCS_SIGNED_DATA || length < 8 || length > size {
        return None;
    }
    let start = (table + 8) as usize;
    let end = (table + length) as usize;
    let mut out: Vec<u8> = Vec::new();
    let mut i = start;
    while i < end
        invariant
            start <= i <= end <= bytes@.len(),
            out@ == bytes@.subrange(start as int, i as int),
        decreases end - i,
    {
        out.push(bytes[i]);
        assert(bytes@.subrange(start as int, i + 1) =~= bytes@.subrange(start as int, i as int).push(
            bytes@[i as int],
        ));
        i += 1;
    }
    Some(out)
}

// ---------------------------------------------------------------------------
// The signer certificate
// ---------------------------------------------------------------------------

/// The DER encoding of the `content` of the PKCS#7 `ContentInfo` that `der`
/// encodes, if it decodes as one.
pub uninterp spec fn pkcs7_content(der: Seq<u8>) -> Option<Seq<u8>>;

/// The certificates of the `SignedData` that `der` encodes, each re-encoded
/// as DER, `None` for a choice that is not an X.509 certificate or does not
/// encode; `None` when `der` is no `SignedData` or has no certificate set.
pub uninterp spec fn signed_data_certificates(der: Seq<u8>) -> Option<Seq<Option<Seq<u8>>>>;

/// The SHA-256 digest of `data`.
pub uninterp spec fn sha256_digest(data: Seq<u8>) -> Seq<u8>;

/// Decodes `ContentInfo::from_der` and re-encodes its `content` with
/// `Encode::to_der`. The result is named: it depends on the bytes alone.
#[verifier::external_body]
fn content_info_content(pkcs7_der: &[u8]) -> (r: Option<Vec<u8>>)
    ensures
        opt_bytes(r) == pkcs7_content(pkcs7_der@),
{
    let content_info = ContentInfo::from_der(pkcs7_der).ok()?;
    content_info.content.to_der().ok()
}

/// Decodes `SignedData::from_der` and re-encodes each of its certificate
/// choices with `Encode::to_der`, in the order the set holds them. The
/// result is named: it depends on the bytes alone.
#[verifier::external_body]
fn certificate_choices(signed_data_der: &[u8]) -> (r: Option<Vec<Option<Vec<u8>>>>)
    ensures
        match r {
            Some(v) => signed_data_certificates(signed_data_der@) == Some(opt_bytes_list(v@)),
            None => signed_data_certificates(signed_data_der@) is None,
        },
{
    let signed_data = SignedData::from_der(signed_data_der).ok()?;
    let certificates = signed_data.certificates?;
    Some(certificates.0.iter().map(|choice| match choice {
        CertificateChoices::Certificate(certificate) => certificate.to_der().ok(),
        CertificateChoices::Other(_) => None,
    }).collect())
}

/// `Sha256::digest`: the digest is named, and always 32 bytes long.
#[verifier::external_body]
fn sha256(data: &[u8]) -> (r: Vec<u8>)
    ensures
        r@ == sha256_digest(data@),
        r@.len() == 32,
{
    Sha256::digest(data).to_vec()
}

/// The first choice that is a certificate.
pub open spec fn first_certificate(cs: Seq<Option<Seq<u8>>>) -> Option<Seq<u8>>
    decreases cs.len(),
{
    if cs.len() == 0 {
        None
    } else {
        match cs[0] {
            Some(c) => Some(c),
            None => first_certificate(cs.drop_first()),
        }
    }
}

/// The signer certificate of a PKCS#7 `ContentInfo`.
pub open spec fn signer_cert_of(pkcs7: Seq<u8>) -> Option<Seq<u8>> {
    match pkcs7_content(pkcs7) {
        None => None,
        Some(sd) => match signed_data_certificates(sd) {
            None => None,
            Some(cs) => first_certificate(cs),
        },
    }
}

/// The signer certificate embedded in an Authenticode PKCS#7 SignedData,
/// if one is present and well formed.
pub fn signer_cert(pkcs7_der: &[u8]) -> (r: Option<Vec<u8>>)
    ensures
        opt_bytes(r) == signer_cert_of(pkcs7_der@),
{
    let signed_data = content_info_content(pkcs7_der)?;
    let choices = certificate_choices(signed_data.as_slice())?;
    let ghost cs = opt_bytes_list(choices@);
    let mut i: usize = 0;
    assert(cs.subrange(0, cs.len() as int) =~= cs);
    while i < choices.len()
        invariant
            i <= choices@.len(),
            cs == opt_bytes_list(choices@),
            pkcs7_content(pkcs7_der@) == Some(signed_data@),
            signed_data_certificates(signed_data@) == Some(cs),
            first_certificate(cs) == first_certificate(cs.subrange(i as int, cs.len() as int)),
        decreases choices@.len() - i,
    {
        let ghost rest = cs.subrange(i as int, cs.len() as int);
        assert(rest[0] == opt_bytes(choices@[i as int]));
        assert(rest.drop_first() =~= cs.subrange(i + 1, cs.len() as int));
        if let Some(c) = &choices[i] {
            let d = c.clone();
            assert(d@ =~= c@);
            return Some(d);
        }
        i += 1;
    }
    None
}

/// The SHA-256 fingerprint of a DER certificate.
pub fn fingerprint(der: &[u8]) -> (r: Vec<u8>)
    ensures
        r@ == sha256_digest(der@),
        r@.len() == 32,
{
    sha256(der)
}

/// Whether two certificates have the same SHA-256 fingerprint.
pub fn same_fingerprint(a: &[u8], b: &[u8]) -> (r: bool)
    ensures
        r == (sha256_digest(a@) == sha256_digest(b@)),
{
    let x = fingerprint(a);
    let y = fingerprint(b);
    let mut i: usize = 0;
    while i < 32
        invariant
            x@.len() == 32,
            y@.len() == 32,
            x@ == sha256_digest(a@),
            y@ == sha256_digest(b@),
            i <= 32,
            forall|j: int| 0 <= j < i ==> x@[j] == y@[j],
        decreases 32 - i,
    {
        if x[i] != y[i] {
            assert(x@[i as int] != y@[i as int]);
            return false;
        }
        i += 1;
    }
    assert(x@ =~= y@);
    true
}

/// The signer certificate of an installed boot loader image, if it is
/// Authenticode signed.
pub fn image_signer(image: &[u8]) -> (r: Option<Vec<u8>>)
    ensures
        opt_bytes(r) == match pkcs7_of(image@) {
            Some(p) => signer_cert_of(p),
            None => None,
        },
{
    let pkcs7 = extract_pkcs7(image)?;
    signer_cert(pkcs7.as_slice())
}

} // verus!
