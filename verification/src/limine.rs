//! The Limine request backend.
//!
//! It supports a small useful subset: base revision 0, bootloader-info,
//! firmware-type, HHDM, and executable-address. Unknown requests are left
//! unanswered, as the protocol requires. The kernel file is scanned for
//! requests at 8-byte steps; each answer is a write into the copy of the
//! segment that holds the request.

use vstd::prelude::*;
use crate::bytes::{le64, u64_at};
use crate::elf::{Image, LoadedSegment};
use crate::protocol::BootProtocol;

verus! {

pub const COMMON_MAGIC_0: u64 = 0xc7b1_dd30_df4c_8b88;
pub const COMMON_MAGIC_1: u64 = 0x0a82_e883_a194_f07b;
pub const BASE_MAGIC_0: u64 = 0xf956_2b2d_5c95_a6c8;
pub const BASE_MAGIC_1: u64 = 0x6a7b_3849_4453_6bdc;
pub const BOOTLOADER_INFO_0: u64 = 0xf550_38d8_e2a1_202f;
pub const BOOTLOADER_INFO_1: u64 = 0x2794_26fc_f5f5_9740;
pub const FIRMWARE_TYPE_0: u64 = 0x8c2f_75d9_0bef_28a8;
pub const FIRMWARE_TYPE_1: u64 = 0x7045_a468_8eac_00c3;
pub const HHDM_0: u64 = 0x48dc_f1cb_8ad2_b852;
pub const HHDM_1: u64 = 0x6398_4e95_9a98_244b;
pub const EXECUTABLE_ADDRESS_0: u64 = 0x71ba_7686_3cc5_5f63;
pub const EXECUTABLE_ADDRESS_1: u64 = 0xb264_4a48_c516_a487;
pub const REQUEST_SIZE: usize = 48;
/// UEFI x86_64, in the firmware-type response.
pub const FIRMWARE_TYPE_UEFI64: u64 = 2;
/// Where the higher-half direct map of physical memory starts.
pub const HHDM_OFFSET: u64 = 0xffff_8000_0000_0000;

/// The answer to one request.
#[derive(Clone, Copy, Debug, PartialEq, Eq, Structural)]
pub enum Response {
    /// The base revision tag: revision 0 is supported (the value 0 is
    /// written over the tag's third word).
    BaseRevision,
    /// A bootloader-info response (name and version of the loader).
    BootloaderInfo,
    /// A firmware-type response.
    FirmwareType { firmware_type: u64 },
    /// An HHDM response.
    Hhdm { offset: u64 },
    /// An executable-address response.
    ExecutableAddress { physical_base: u64, virtual_base: u64 },
}

/// A write the loader must make into loaded kernel memory: the base
/// revision's zero, or the HHDM address of a response structure.
#[derive(Clone, Copy, Debug, PartialEq, Eq, Structural)]
pub struct ResponseWrite {
    /// The physical address of the 8-byte field to write.
    pub target: usize,
    pub response: Response,
}

/// The Limine protocol backend.
pub struct Limine;

// ---------------------------------------------------------------------------
// Specification
// ---------------------------------------------------------------------------

/// Whether the file region `[file_offset, file_offset + 8)` lies in segment `s`.
pub open spec fn holds(s: LoadedSegment, file_offset: int) -> bool {
    file_offset >= s.file_offset && file_offset + 8 <= s.file_offset + s.file_size
}

/// Index of the first segment holding `file_offset`, or `segs.len()`.
pub open spec fn first_holder(segs: Seq<LoadedSegment>, file_offset: int) -> int
    decreases segs.len(),
{
    if segs.len() == 0 {
        0
    } else if holds(segs[0], file_offset) {
        0
    } else {
        1 + first_holder(segs.drop_first(), file_offset)
    }
}

/// Where the field at `file_offset` was loaded (`write_at_offset`).
pub open spec fn target_of(segs: Seq<LoadedSegment>, file_offset: int) -> Result<usize, &'static str> {
    let k = first_holder(segs, file_offset);
    if k >= segs.len() {
        Err("Limine request is not in a loadable segment")
    } else if (segs[k].physical_address as usize) + (file_offset - segs[k].file_offset) > usize::MAX {
        Err("request address overflow")
    } else {
        Ok(((segs[k].physical_address as usize) + (file_offset - segs[k].file_offset)) as usize)
    }
}

/// The response a request id is answered with, if it is supported.
pub open spec fn answer(id0: u64, id1: u64, hhdm_offset: u64, physical_base: u64, virtual_base: u64) -> Option<Response> {
    if id0 == BOOTLOADER_INFO_0 && id1 == BOOTLOADER_INFO_1 {
        Some(Response::BootloaderInfo)
    } else if id0 == FIRMWARE_TYPE_0 && id1 == FIRMWARE_TYPE_1 {
        Some(Response::FirmwareType { firmware_type: FIRMWARE_TYPE_UEFI64 })
    } else if id0 == HHDM_0 && id1 == HHDM_1 {
        Some(Response::Hhdm { offset: hhdm_offset })
    } else if id0 == EXECUTABLE_ADDRESS_0 && id1 == EXECUTABLE_ADDRESS_1 {
        Some(Response::ExecutableAddress { physical_base, virtual_base })
    } else {
        None
    }
}

/// What the scan does at file offset `off`.
#[verifier::opaque]
pub open spec fn scan_at(
    b: Seq<u8>,
    segs: Seq<LoadedSegment>,
    hhdm_offset: u64,
    physical_base: u64,
    virtual_base: u64,
    off: int,
) -> Result<Option<ResponseWrite>, &'static str> {
    if le64(b, off) == BASE_MAGIC_0 && le64(b, off + 8) == BASE_MAGIC_1 {
        match target_of(segs, off + 16) {
            Ok(t) => Ok(Some(ResponseWrite { target: t, response: Response::BaseRevision })),
            Err(e) => Err(e),
        }
    } else if !(le64(b, off) == COMMON_MAGIC_0 && le64(b, off + 8) == COMMON_MAGIC_1) || off + 48
        > b.len() {
        Ok(None)
    } else {
        match answer(le64(b, off + 16) as u64, le64(b, off + 24) as u64, hhdm_offset, physical_base, virtual_base) {
            None => Ok(None),
            Some(r) => match target_of(segs, off + 40) {
                Ok(t) => Ok(Some(ResponseWrite { target: t, response: r })),
                Err(e) => Err(e),
            },
        }
    }
}

/// The writes for the first `n` scan positions (offsets `0, 8, ..`), in
/// order, up to the first request that cannot be answered, and that
/// failure.
pub open spec fn scan_upto(
    b: Seq<u8>,
    segs: Seq<LoadedSegment>,
    hhdm_offset: u64,
    physical_base: u64,
    virtual_base: u64,
    n: int,
) -> (Seq<ResponseWrite>, Option<&'static str>)
    decreases n,
{
    if n <= 0 {
        (Seq::empty(), None)
    } else {
        let prev = scan_upto(b, segs, hhdm_offset, physical_base, virtual_base, n - 1);
        if prev.1 is Some {
            prev
        } else {
            match scan_at(b, segs, hhdm_offset, physical_base, virtual_base, 8 * (n - 1)) {
                Err(e) => (prev.0, Some(e)),
                Ok(None) => prev,
                Ok(Some(x)) => (prev.0.push(x), None),
            }
        }
    }
}

/// The number of scan positions: offsets below `len - 24`, 8 apart.
pub open spec fn scan_count(len: int) -> int {
    if len > 24 {
        (len - 24 + 7) / 8
    } else {
        0
    }
}

/// The smallest physical address among the segments.
pub open spec fn min_physical(segs: Seq<LoadedSegment>) -> u64
    decreases segs.len(),
{
    if segs.len() <= 1 {
        segs[0].physical_address
    } else {
        let rest = min_physical(segs.drop_last());
        if segs.last().physical_address < rest {
            segs.last().physical_address
        } else {
            rest
        }
    }
}

/// The smallest virtual address among the segments.
pub open spec fn min_virtual(segs: Seq<LoadedSegment>) -> u64
    decreases segs.len(),
{
    if segs.len() <= 1 {
        segs[0].virtual_address
    } else {
        let rest = min_virtual(segs.drop_last());
        if segs.last().virtual_address < rest {
            segs.last().virtual_address
        } else {
            rest
        }
    }
}

/// Every segment was loaded below 4 GiB.
pub open spec fn all_below_4g(segs: Seq<LoadedSegment>) -> bool {
    forall|i: int| 0 <= i < segs.len() ==> segs[i].physical_address < 0x1_0000_0000
}

/// The writes that answer the requests in `b`, in file order, as they are
/// made until a request cannot be answered, and that failure (`None` when
/// every request was handled). A kernel loaded above 4 GiB fails before
/// any write.
pub open spec fn plan(b: Seq<u8>, segs: Seq<LoadedSegment>, hhdm_offset: u64) -> (
    Seq<ResponseWrite>,
    Option<&'static str>,
) {
    if !all_below_4g(segs) {
        (Seq::empty(), Some("this basic backend currently requires kernel allocations below 4 GiB"))
    } else {
        scan_upto(b, segs, hhdm_offset, min_physical(segs), min_virtual(segs), scan_count(b.len() as int))
    }
}

// ---------------------------------------------------------------------------
// Executable code
// ---------------------------------------------------------------------------

impl BootProtocol for Limine {
    fn prepare(
        &self,
        bytes: &[u8],
        image: &Image<'_>,
        segments: &[LoadedSegment],
        hhdm_offset: u64,
    ) -> (r: (Vec<ResponseWrite>, Option<&'static str>))
        ensures
            (r.0@, r.1) == plan(bytes@, segments@, hhdm_offset),
    {
        write_responses(bytes, image, segments, hhdm_offset)
    }
}

/// The 64-bit words of the response structure that answers a request:
/// the loader places them in memory and points the request's response
/// field at them. `None` for the base revision, whose tag gets the value 0
/// itself. `name` and `version` are the addresses of the loader's
/// NUL-terminated name and version strings.
pub open spec fn response_words_spec(r: Response, name: u64, version: u64) -> Option<Seq<u64>> {
    match r {
        Response::BaseRevision => None,
        Response::BootloaderInfo => Some(seq![0u64, name, version]),
        Response::FirmwareType { firmware_type } => Some(seq![0u64, firmware_type]),
        Response::Hhdm { offset } => Some(seq![0u64, offset]),
        Response::ExecutableAddress { physical_base, virtual_base } => Some(
            seq![0u64, physical_base, virtual_base],
        ),
    }
}

/// The words of the response structure for `r` (revision 0 first, then
/// its fields in protocol order).
pub fn response_words(r: Response, name: u64, version: u64) -> (w: Option<Vec<u64>>)
    ensures
        match w {
            Some(v) => response_words_spec(r, name, version) == Some(v@),
            None => response_words_spec(r, name, version) is None,
        },
{
    let mut v: Vec<u64> = Vec::new();
    match r {
        Response::BaseRevision => {
            return None;
        },
        Response::BootloaderInfo => {
            v.push(0);
            v.push(name);
            v.push(version);
        },
        Response::FirmwareType { firmware_type } => {
            v.push(0);
            v.push(firmware_type);
        },
        Response::Hhdm { offset } => {
            v.push(0);
            v.push(offset);
        },
        Response::ExecutableAddress { physical_base, virtual_base } => {
            v.push(0);
            v.push(physical_base);
            v.push(virtual_base);
        },
    }
    assert(response_words_spec(r, name, version) == Some(v@));
    Some(v)
}

/// Finds the requests in the kernel file and works out their answers: the
/// writes to make, in order, and the failure that stops them, if any.
pub fn write_responses(
    bytes: &[u8],
    _image: &Image<'_>,
    segments: &[LoadedSegment],
    hhdm_offset: u64,
) -> (r: (Vec<ResponseWrite>, Option<&'static str>))
    requires
        segments@.len() > 0,
        forall|i: int|
            0 <= i < segments@.len() ==> segments@[i].file_offset + segments@[i].file_size
                <= usize::MAX,
    ensures
        (r.0@, r.1) == plan(bytes@, segments@, hhdm_offset),
{
    let mut k: usize = 0;
    while k < segments.len()
        invariant
            k <= segments@.len(),
            forall|i: int| 0 <= i < k ==> segments@[i].physical_address < 0x1_0000_0000,
        decreases segments@.len() - k,
    {
        if segments[k].physical_address >= 0x1_0000_0000 {
            return (
                Vec::new(),
                Some("this basic backend currently requires kernel allocations below 4 GiB"),
            );
        }
        k += 1;
    }
    let physical_base = min_physical_of(segments);
    let virtual_base = min_virtual_of(segments);
    let len = bytes.len();
    let limit = if len > 24 {
        len - 24
    } else {
        0
    };
    let mut writes: Vec<ResponseWrite> = Vec::new();
    let mut offset: usize = 0;
    let mut n: usize = 0;
    while offset < limit
        invariant
            len == bytes@.len(),
            limit == (if len > 24 {
                len - 24
            } else {
                0
            }),
            offset == 8 * n,
            offset <= limit + 7,
            segments@.len() > 0,
            forall|i: int|
                0 <= i < segments@.len() ==> segments@[i].file_offset + segments@[i].file_size
                    <= usize::MAX,
            all_below_4g(segments@),
            physical_base == min_physical(segments@),
            virtual_base == min_virtual(segments@),
            scan_upto(bytes@, segments@, hhdm_offset, physical_base, virtual_base, n as int) == (
                writes@,
                None::<&'static str>,
            ),
        decreases limit + 8 - offset,
    {
        let step = scan_step(bytes, segments, hhdm_offset, physical_base, virtual_base, offset);
        match step {
            Err(e) => {
                proof {
                    lemma_scan_err_stays(
                        bytes@,
                        segments@,
                        hhdm_offset,
                        physical_base,
                        virtual_base,
                        n + 1,
                        scan_count(len as int),
                    );
                    assert(n + 1 <= scan_count(len as int));
                }
                return (writes, Some(e));
            },
            Ok(None) => {},
            Ok(Some(w)) => {
                writes.push(w);
            },
        }
        offset += 8;
        n += 1;
    }
    assert(n == scan_count(len as int));
    (writes, None)
}

/// `v` is the lowest virtual address of the segments: at most each
/// segment's, and one of them.
pub open spec fn lowest_virtual(segs: Seq<LoadedSegment>, v: u64) -> bool {
    &&& forall|i: int| 0 <= i < segs.len() ==> v <= #[trigger] segs[i].virtual_address
    &&& exists|i: int| 0 <= i < segs.len() && v == #[trigger] segs[i].virtual_address
}

/// `p` is the lowest physical address of the segments: at most each
/// segment's, and one of them.
pub open spec fn lowest_physical(segs: Seq<LoadedSegment>, p: u64) -> bool {
    &&& forall|i: int| 0 <= i < segs.len() ==> p <= #[trigger] segs[i].physical_address
    &&& exists|i: int| 0 <= i < segs.len() && p == #[trigger] segs[i].physical_address
}

/// The lowest addresses, as `write_responses` computes them, are the
/// lowest among the segments.
pub proof fn lemma_min_addresses(segs: Seq<LoadedSegment>)
    requires
        segs.len() > 0,
    ensures
        lowest_virtual(segs, min_virtual(segs)),
        lowest_physical(segs, min_physical(segs)),
    decreases segs.len(),
{
    if segs.len() > 1 {
        let t = segs.drop_last();
        lemma_min_addresses(t);
        assert forall|i: int| 0 <= i < segs.len() implies min_virtual(segs)
            <= #[trigger] segs[i].virtual_address by {
            if i < t.len() {
                assert(segs[i] == t[i]);
            }
        }
        assert forall|i: int| 0 <= i < segs.len() implies min_physical(segs)
            <= #[trigger] segs[i].physical_address by {
            if i < t.len() {
                assert(segs[i] == t[i]);
            }
        }
        let jv = choose|i: int| 0 <= i < t.len() && min_virtual(t) == #[trigger] t[i].virtual_address;
        let jp = choose|i: int| 0 <= i < t.len() && min_physical(t) == #[trigger] t[i].physical_address;
        assert(segs[jv] == t[jv]);
        assert(segs[jp] == t[jp]);
        assert(segs[segs.len() - 1] == segs.last());
        if min_virtual(segs) == segs.last().virtual_address {
            assert(segs[segs.len() - 1].virtual_address == min_virtual(segs));
        } else {
            assert(segs[jv].virtual_address == min_virtual(segs));
        }
        if min_physical(segs) == segs.last().physical_address {
            assert(segs[segs.len() - 1].physical_address == min_physical(segs));
        } else {
            assert(segs[jp].physical_address == min_physical(segs));
        }
    } else {
        assert(segs[0].virtual_address == min_virtual(segs));
        assert(segs[0].physical_address == min_physical(segs));
    }
}

/// What an answer the scan writes says, given the bases it was made with.
spec fn answer_fits(r: Response, h: u64, pb: u64, vb: u64) -> bool {
    match r {
        Response::ExecutableAddress { physical_base, virtual_base } => physical_base == pb
            && virtual_base == vb,
        Response::Hhdm { offset } => offset == h,
        Response::FirmwareType { firmware_type } => firmware_type == 2,
        _ => true,
    }
}

/// Every answer the scan writes carries the bases and offset it was given.
proof fn lemma_scan_answers(b: Seq<u8>, segs: Seq<LoadedSegment>, h: u64, pb: u64, vb: u64, n: int)
    ensures
        forall|k: int|
            0 <= k < scan_upto(b, segs, h, pb, vb, n).0.len() ==> answer_fits(
                #[trigger] scan_upto(b, segs, h, pb, vb, n).0[k].response,
                h,
                pb,
                vb,
            ),
    decreases n,
{
    if n > 0 {
        lemma_scan_answers(b, segs, h, pb, vb, n - 1);
        let prev = scan_upto(b, segs, h, pb, vb, n - 1);
        if prev.1 is None {
            reveal(scan_at);
            match scan_at(b, segs, h, pb, vb, 8 * (n - 1)) {
                Ok(Some(x)) => {
                    assert(answer_fits(x.response, h, pb, vb));
                    let w = prev.0.push(x);
                    assert forall|k: int| 0 <= k < w.len() implies answer_fits(
                        #[trigger] w[k].response,
                        h,
                        pb,
                        vb,
                    ) by {
                        if k < prev.0.len() {
                            assert(w[k] == prev.0[k]);
                        }
                    }
                },
                _ => {},
            }
        }
    }
}

/// The Limine answers are right for the kernel: an executable-address
/// response names the lowest physical and the lowest virtual address among
/// the loaded segments, an HHDM response names the direct-map offset, and
/// a firmware-type response says 64-bit UEFI.
pub proof fn lemma_plan_answers(b: Seq<u8>, segs: Seq<LoadedSegment>, h: u64)
    requires
        segs.len() > 0,
    ensures
        forall|k: int|
            0 <= k < plan(b, segs, h).0.len() ==> match #[trigger] plan(b, segs, h).0[k].response {
                Response::ExecutableAddress { physical_base, virtual_base } => lowest_physical(
                    segs,
                    physical_base,
                ) && lowest_virtual(segs, virtual_base),
                Response::Hhdm { offset } => offset == h,
                Response::FirmwareType { firmware_type } => firmware_type == 2,
                _ => true,
            },
{
    lemma_min_addresses(segs);
    if all_below_4g(segs) {
        let pb = min_physical(segs);
        let vb = min_virtual(segs);
        lemma_scan_answers(b, segs, h, pb, vb, scan_count(b.len() as int));
        assert forall|k: int| 0 <= k < plan(b, segs, h).0.len() implies match #[trigger] plan(
            b,
            segs,
            h,
        ).0[k].response {
            Response::ExecutableAddress { physical_base, virtual_base } => lowest_physical(
                segs,
                physical_base,
            ) && lowest_virtual(segs, virtual_base),
            Response::Hhdm { offset } => offset == h,
            Response::FirmwareType { firmware_type } => firmware_type == 2,
            _ => true,
        } by {
            assert(answer_fits(plan(b, segs, h).0[k].response, h, pb, vb));
        }
    }
}

/// Once a request cannot be answered, later ones do not matter.
proof fn lemma_scan_err_stays(
    b: Seq<u8>,
    segs: Seq<LoadedSegment>,
    h: u64,
    pb: u64,
    vb: u64,
    i: int,
    n: int,
)
    requires
        0 <= i <= n,
        scan_upto(b, segs, h, pb, vb, i).1 is Some,
    ensures
        scan_upto(b, segs, h, pb, vb, n) == scan_upto(b, segs, h, pb, vb, i),
    decreases n - i,
{
    if n > i {
        lemma_scan_err_stays(b, segs, h, pb, vb, i, n - 1);
    }
}

/// The scan at one offset.
#[verifier::rlimit(60)]
fn scan_step(
    bytes: &[u8],
    segments: &[LoadedSegment],
    hhdm_offset: u64,
    physical_base: u64,
    virtual_base: u64,
    offset: usize,
) -> (r: Result<Option<ResponseWrite>, &'static str>)
    requires
        offset + 24 < bytes@.len(),
        forall|i: int|
            0 <= i < segments@.len() ==> segments@[i].file_offset + segments@[i].file_size
                <= usize::MAX,
    ensures
        r == scan_at(bytes@, segments@, hhdm_offset, physical_base, virtual_base, offset as int),
{
    reveal(scan_at);
    let len = bytes.len();
    let first = u64_at(bytes, offset);
    let second = u64_at(bytes, offset + 8);
    if first == BASE_MAGIC_0 && second == BASE_MAGIC_1 {
        return match write_at_offset(segments, offset + 16) {
            Ok(t) => Ok(Some(ResponseWrite { target: t, response: Response::BaseRevision })),
            Err(e) => Err(e),
        };
    }
    if !(first == COMMON_MAGIC_0 && second == COMMON_MAGIC_1) || len - offset < REQUEST_SIZE {
        return Ok(None);
    }
    let id0 = u64_at(bytes, offset + 16);
    let id1 = u64_at(bytes, offset + 24);
    match answer_of(id0, id1, hhdm_offset, physical_base, virtual_base) {
        None => Ok(None),
        Some(response) => match write_at_offset(segments, offset + 40) {
            Ok(t) => Ok(Some(ResponseWrite { target: t, response })),
            Err(e) => Err(e),
        },
    }
}

/// The response to the request with id `(id0, id1)`, if it is supported.
fn answer_of(id0: u64, id1: u64, hhdm_offset: u64, physical_base: u64, virtual_base: u64) -> (r:
    Option<Response>)
    ensures
        r == answer(id0, id1, hhdm_offset, physical_base, virtual_base),
{
    if id0 == BOOTLOADER_INFO_0 && id1 == BOOTLOADER_INFO_1 {
        Some(Response::BootloaderInfo)
    } else if id0 == FIRMWARE_TYPE_0 && id1 == FIRMWARE_TYPE_1 {
        Some(Response::FirmwareType { firmware_type: FIRMWARE_TYPE_UEFI64 })
    } else if id0 == HHDM_0 && id1 == HHDM_1 {
        Some(Response::Hhdm { offset: hhdm_offset })
    } else if id0 == EXECUTABLE_ADDRESS_0 && id1 == EXECUTABLE_ADDRESS_1 {
        Some(Response::ExecutableAddress { physical_base, virtual_base })
    } else {
        None
    }
}

/// Where the field at `file_offset` of the kernel file was loaded: the
/// first segment that holds it decides.
fn write_at_offset(segments: &[LoadedSegment], file_offset: usize) -> (r: Result<usize, &'static str>)
    requires
        file_offset + 8 <= usize::MAX,
        forall|i: int|
            0 <= i < segments@.len() ==> segments@[i].file_offset + segments@[i].file_size
                <= usize::MAX,
    ensures
        r == target_of(segments@, file_offset as int),
{
    let mut k: usize = 0;
    while k < segments.len()
        invariant
            k <= segments@.len(),
            file_offset + 8 <= usize::MAX,
            forall|i: int|
                0 <= i < segments@.len() ==> segments@[i].file_offset + segments@[i].file_size
                    <= usize::MAX,
            forall|i: int| 0 <= i < k ==> !holds(segments@[i], file_offset as int),
        decreases segments@.len() - k,
    {
        let s = segments[k];
        if file_offset >= s.file_offset && file_offset + 8 <= s.file_offset + s.file_size {
            proof {
                lemma_first_holder(segments@, file_offset as int, k as int);
            }
            let base = s.physical_address as usize;
            let delta = file_offset - s.file_offset;
            if base > usize::MAX - delta {
                return Err("request address overflow");
            }
            return Ok(base + delta);
        }
        k += 1;
    }
    proof {
        lemma_first_holder(segments@, file_offset as int, k as int);
    }
    Err("Limine request is not in a loadable segment")
}

/// The first holder is the first index that holds, or the length.
proof fn lemma_first_holder(segs: Seq<LoadedSegment>, off: int, k: int)
    requires
        0 <= k <= segs.len(),
        forall|i: int| 0 <= i < k ==> !holds(segs[i], off),
        k < segs.len() ==> holds(segs[k], off),
    ensures
        first_holder(segs, off) == k,
    decreases segs.len(),
{
    if segs.len() > 0 && k > 0 {
        let t = segs.drop_first();
        assert forall|i: int| 0 <= i < k - 1 implies !holds(t[i], off) by {
            assert(t[i] == segs[i + 1]);
        }
        lemma_first_holder(t, off, k - 1);
    }
}

fn min_physical_of(segments: &[LoadedSegment]) -> (m: u64)
    requires
        segments@.len() > 0,
    ensures
        m == min_physical(segments@),
{
    let mut m = segments[0].physical_address;
    let mut k: usize = 1;
    while k < segments.len()
        invariant
            1 <= k <= segments@.len(),
            m == min_physical(segments@.subrange(0, k as int)),
        decreases segments@.len() - k,
    {
        let p = segments[k].physical_address;
        proof {
            let t = segments@.subrange(0, k + 1);
            assert(t.drop_last() == segments@.subrange(0, k as int));
            assert(t.last() == segments@[k as int]);
        }
        if p < m {
            m = p;
        }
        k += 1;
    }
    assert(segments@.subrange(0, k as int) == segments@);
    m
}

fn min_virtual_of(segments: &[LoadedSegment]) -> (m: u64)
    requires
        segments@.len() > 0,
    ensures
        m == min_virtual(segments@),
{
    let mut m = segments[0].virtual_address;
    let mut k: usize = 1;
    while k < segments.len()
        invariant
            1 <= k <= segments@.len(),
            m == min_virtual(segments@.subrange(0, k as int)),
        decreases segments@.len() - k,
    {
        let v = segments[k].virtual_address;
        proof {
            let t = segments@.subrange(0, k + 1);
            assert(t.drop_last() == segments@.subrange(0, k as int));
            assert(t.last() == segments@[k as int]);
        }
        if v < m {
            m = v;
        }
        k += 1;
    }
    assert(segments@.subrange(0, k as int) == segments@);
    m
}

/// The address through the higher-half direct map of an object the loader
/// placed at `physical`: the responses and the strings they point to.
pub fn hhdm_address(physical: u64, offset: u64) -> (r: u64)
    requires
        physical + offset <= u64::MAX,
    ensures
        r == physical + offset,
{
    physical + offset
}

} // verus!
