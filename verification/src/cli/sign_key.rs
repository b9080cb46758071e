//! The pki-bundle used to sign r-boot for UEFI secure boot: an RSA-2048 key
//! pair and a self-signed certificate, stored as `db.key` (root-only) and
//! `db.pem`. This module holds the bundle's locations, the checks that
//! guard creating and removing it, and the certificate's DER bytes and
//! fingerprint text; generating keys and certificates is the caller's part.

use vstd::prelude::*;
use crate::cli::commands::{join, join_path};
use crate::cli::status::{fingerprint, sha256_digest};
use crate::text::{concat, owned, push_char, push_str};

verus! {

pub const PKI_DIR: &'static str = "/var/lib/r-boot/pki";
pub const KEY_FILE: &'static str = "db.key";
pub const CERT_FILE: &'static str = "db.pem";
pub const VALIDITY_DAYS: i64 = 3650;
pub const RSA_KEY_BITS: usize = 2048;

/// Where the private key lives.
pub fn key_path() -> (r: String)
    ensures
        r@ == join_path(PKI_DIR@, KEY_FILE@),
{
    join(PKI_DIR, KEY_FILE)
}

/// Where the certificate lives.
pub fn cert_path() -> (r: String)
    ensures
        r@ == join_path(PKI_DIR@, CERT_FILE@),
{
    join(PKI_DIR, CERT_FILE)
}

/// Why `sign-key create` may not run.
pub open spec fn create_refusal(is_root: bool, key_exists: bool, cert_exists: bool, force: bool) -> Option<Seq<char>> {
    if !is_root {
        Some(
            "sign-key create must be run as root (db.key must be root-owned and root-only readable)"@,
        )
    } else if !force && (key_exists || cert_exists) {
        Some("pki-bundle already exists at "@ + PKI_DIR@ + " (use --force to overwrite)"@)
    } else {
        None
    }
}

/// Checks that `sign-key create` may generate a bundle: only root may, and
/// an existing bundle is only replaced with `--force`.
pub fn check_create(is_root: bool, key_exists: bool, cert_exists: bool, force: bool) -> (r: Result<(), String>)
    ensures
        match create_refusal(is_root, key_exists, cert_exists, force) {
            Some(m) => r is Err && r->Err_0@ == m,
            None => r is Ok,
        },
{
    if !is_root {
        return Err(
            owned(
                "sign-key create must be run as root (db.key must be root-owned and root-only readable)",
            ),
        );
    }
    if !force && (key_exists || cert_exists) {
        let mut m = owned("pki-bundle already exists at ");
        push_str(&mut m, PKI_DIR);
        push_str(&mut m, " (use --force to overwrite)");
        assert(m@ =~= "pki-bundle already exists at "@ + PKI_DIR@ + " (use --force to overwrite)"@);
        return Err(m);
    }
    Ok(())
}

/// What `sign-key remove` does.
#[derive(Debug)]
pub enum Removal {
    /// There is no bundle: print this and succeed.
    NothingThere(String),
    /// Refuse without `--force`, with this error.
    Refused(String),
    /// Remove the files that exist.
    Remove,
}

/// Decides `sign-key remove`: nothing to do without a bundle, and the
/// signing key is only discarded with `--force`.
pub fn check_remove(key_exists: bool, cert_exists: bool, force: bool) -> (r: Removal)
    ensures
        !key_exists && !cert_exists ==> (r matches Removal::NothingThere(m) && m@
            == "no pki-bundle found at "@ + PKI_DIR@),
        (key_exists || cert_exists) && !force ==> (r matches Removal::Refused(m) && m@
            == "refusing to remove the pki-bundle at "@ + PKI_DIR@ + refusal_reason()),
        (key_exists || cert_exists) && force ==> r matches Removal::Remove,
{
    if !key_exists && !cert_exists {
        return Removal::NothingThere(concat("no pki-bundle found at ", PKI_DIR));
    }
    if !force {
        let mut m = owned("refusing to remove the pki-bundle at ");
        push_str(&mut m, PKI_DIR);
        push_str(
            &mut m,
            " without --force: this permanently discards the secure boot signing key; anything signed with it stops being trustable once the matching certificate is dropped from the firmware's db",
        );
        assert(m@ =~= "refusing to remove the pki-bundle at "@ + PKI_DIR@ + refusal_reason());
        return Removal::Refused(m);
    }
    Removal::Remove
}

/// Why removing the bundle needs `--force`.
pub open spec fn refusal_reason() -> Seq<char> {
    " without --force: this permanently discards the secure boot signing key; anything signed with it stops being trustable once the matching certificate is dropped from the firmware's db"@
}

/// A 20-byte X.509 serial number from random bytes: the top bit of the
/// first byte is cleared so the DER INTEGER stays positive.
pub fn serial_number_bytes(random: &[u8; 20]) -> (r: Vec<u8>)
    ensures
        r@.len() == 20,
        r@[0] == random@[0] % 128,
        forall|i: int| 1 <= i < 20 ==> r@[i] == random@[i],
{
    let mut out: Vec<u8> = Vec::new();
    let mut i: usize = 0;
    while i < 20
        invariant
            i <= 20,
            random@.len() == 20,
            out@.len() == i,
            i > 0 ==> out@[0] == random@[0] % 128,
            forall|j: int| 1 <= j < i ==> out@[j] == random@[j],
        decreases 20 - i,
    {
        let b = random[i];
        if i == 0 {
            let top_cleared = b & 0x7f;
            assert(b & 0x7f == b % 128) by (bit_vector);
            out.push(top_cleared);
        } else {
            out.push(b);
        }
        i += 1;
    }
    out
}

/// The lower-case hexadecimal digit for `d < 16`.
pub open spec fn hex_digit(d: int) -> char {
    if d < 10 {
        ((d + 48) as u32) as char
    } else {
        ((d + 87) as u32) as char
    }
}

/// Two lower-case hex digits per byte (`{b:02x}` for each).
pub open spec fn hex_text(b: Seq<u8>) -> Seq<char>
    decreases b.len(),
{
    if b.len() == 0 {
        Seq::empty()
    } else {
        hex_text(b.drop_last()) + seq![hex_digit((b.last() / 16) as int), hex_digit((b.last() % 16) as int)]
    }
}

/// The hex digit character for `d < 16`.
fn hex_char(d: u8) -> (c: char)
    requires
        d < 16,
    ensures
        c == hex_digit(d as int),
{
    if d < 10 {
        ((d + 48) as u8) as char
    } else {
        ((d + 87) as u8) as char
    }
}

/// The SHA-256 fingerprint of a DER certificate in lower-case hex.
pub fn fingerprint_hex(der: &[u8]) -> (r: String)
    ensures
        r@ == hex_text(sha256_digest(der@)),
{
    let digest = fingerprint(der);
    let mut out = String::new();
    let mut i: usize = 0;
    assert(digest@.take(0) =~= Seq::<u8>::empty());
    while i < digest.len()
        invariant
            i <= digest@.len(),
            digest@ == sha256_digest(der@),
            out@ == hex_text(digest@.take(i as int)),
        decreases digest@.len() - i,
    {
        let b = digest[i];
        proof {
            let t = digest@.take(i + 1);
            assert(t.drop_last() =~= digest@.take(i as int));
            assert(t.last() == b);
        }
        push_char(&mut out, hex_char(b / 16));
        push_char(&mut out, hex_char(b % 16));
        assert(out@ =~= hex_text(digest@.take(i + 1)));
        i += 1;
    }
    assert(digest@.take(i as int) =~= digest@);
    out
}

/// The DER contents of the first PEM block of `pem`, or the text of the
/// error `parse_x509_pem` reports.
pub uninterp spec fn pem_contents(pem: Seq<u8>) -> Result<Seq<u8>, Seq<char>>;

/// `x509_parser::pem::parse_x509_pem`: the decoded contents of the first
/// PEM block, or its error's display text. The result is named: it depends
/// on the bytes alone.
#[verifier::external_body]
fn parse_pem(pem: &[u8]) -> (r: Result<Vec<u8>, String>)
    ensures
        match r {
            Ok(v) => pem_contents(pem@) == Ok::<Seq<u8>, Seq<char>>(v@),
            Err(e) => pem_contents(pem@) == Err::<Seq<u8>, Seq<char>>(e@),
        },
{
    match x509_parser::pem::parse_x509_pem(pem) {
        Ok((_, block)) => Ok(block.contents),
        Err(e) => Err(format!("{e}")),
    }
}

/// The certificate's DER bytes from the PEM file read from `path`.
pub fn cert_der(path: &str, pem: &[u8]) -> (r: Result<Vec<u8>, String>)
    ensures
        match pem_contents(pem@) {
            Ok(v) => r is Ok && r->Ok_0@ == v,
            Err(e) => r is Err && r->Err_0@ == "cannot parse "@ + path@ + ": "@ + e,
        },
{
    match parse_pem(pem) {
        Ok(contents) => Ok(contents),
        Err(e) => {
            let mut m = owned("cannot parse ");
            push_str(&mut m, path);
            push_str(&mut m, ": ");
            push_str(&mut m, e.as_str());
            assert(m@ =~= "cannot parse "@ + path@ + ": "@ + e@);
            Err(m)
        },
    }
}

} // verus!
