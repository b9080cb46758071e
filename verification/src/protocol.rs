//! The narrow pre-handoff interface that boot-protocol backends share.

use vstd::prelude::*;
use crate::elf::{Image, LoadedSegment};
use crate::limine::ResponseWrite;

verus! {

/// A boot protocol backend.
pub trait BootProtocol {
    /// Works out the protocol-owned data and request responses that must be
    /// written into the loaded kernel before boot services are exited: the
    /// writes, in order, and the failure that stops them, if any.
    /// Implementations must not retain UEFI protocol handles.
    fn prepare(
        &self,
        file: &[u8],
        image: &Image<'_>,
        segments: &[LoadedSegment],
        hhdm_offset: u64,
    ) -> (Vec<ResponseWrite>, Option<&'static str>)
        requires
            segments@.len() > 0,
            forall|i: int|
                0 <= i < segments@.len() ==> segments@[i].file_offset + segments@[i].file_size
                    <= usize::MAX,
    ;
}

} // verus!
