//! The spectrum model and the peak-completion step.
//!
//! The raw signal stays with the caller's file reader; the resolver reads
//! and writes only whether a peak list is present, how many peaks it holds,
//! and the "number of peaks" annotation.  Those fields are modelled here,
//! and the caller mirrors every change onto its own spectrum record.

use vstd::prelude::*;

verus! {

/// The fields of one spectrum that the resolver reads and writes.
#[derive(Debug, Clone, Copy, PartialEq, Eq)]
pub struct Spectrum {
    /// Number of peaks in the peak list, if one is present.
    pub peaks: Option<u64>,
    /// Value of the "number of peaks" annotation, once recorded.
    pub peak_count_param: Option<u64>,
}

/// Does completion still have to compute peaks?  Only when peaks were
/// requested at all (not metadata-only) and none are present yet.
pub open spec fn spec_needs_picking(s: Spectrum, metadata_only: bool) -> bool {
    !metadata_only && s.peaks is None
}

/// What peak completion leaves behind.  In metadata-only mode the spectrum
/// is left untouched: no peak list is populated and no fallback runs.
/// Otherwise peaks already present are kept as they are, the fallback
/// result fills the gap when there was none, and the final count is
/// recorded as the "number of peaks" annotation.
pub open spec fn spec_complete(s: Spectrum, metadata_only: bool, picked: Option<u64>) -> Spectrum {
    if metadata_only {
        s
    } else {
        let count = if s.peaks is Some {
            s.peaks
        } else {
            picked
        };
        match count {
            Some(c) => Spectrum { peaks: Some(c), peak_count_param: Some(c) },
            None => s,
        }
    }
}

/// Decide whether the peak-picking fallback must be invoked for this
/// spectrum: only when peaks were requested and the file's native data
/// yielded none.
pub fn needs_peak_picking(s: &Spectrum, metadata_only: bool) -> (r: bool)
    ensures
        r == spec_needs_picking(*s, metadata_only),
{
    !metadata_only && s.peaks.is_none()
}

/// Complete a spectrum's peak list and record the peak count annotation.
///
/// `picked` is the count the caller's peak-picking fallback produced; it
/// must be present exactly where `needs_peak_picking` asked for it.  Peaks
/// already present are never recomputed, and in metadata-only mode the
/// spectrum is left untouched.
pub fn complete_peaks(s: &mut Spectrum, metadata_only: bool, picked: Option<u64>)
    requires
        spec_needs_picking(*old(s), metadata_only) ==> picked is Some,
    ensures
        *final(s) == spec_complete(*old(s), metadata_only, picked),
{
    if metadata_only {
        return ;
    }
    let count = match s.peaks {
        Some(c) => Some(c),
        None => picked,
    };
    match count {
        Some(c) => {
            s.peaks = Some(c);
            s.peak_count_param = Some(c);
        },
        None => {},
    }
}

/// Peak completion is idempotent: completing an already completed spectrum
/// changes nothing — in particular the peak count after two completions is
/// the count after one — whatever the second fallback result is.
pub proof fn lemma_complete_peaks_idempotent(
    s: Spectrum,
    metadata_only: bool,
    p1: Option<u64>,
    p2: Option<u64>,
)
    requires
        spec_needs_picking(s, metadata_only) ==> p1 is Some,
    ensures
        spec_complete(spec_complete(s, metadata_only, p1), metadata_only, p2) == spec_complete(
            s,
            metadata_only,
            p1,
        ),
{
}

/// In metadata-only mode the extractor never invokes the peak-picking
/// fallback and leaves the spectrum without a populated peak list.
pub proof fn lemma_metadata_only_skips_picking(s: Spectrum, picked: Option<u64>)
    ensures
        !spec_needs_picking(s, true),
        spec_complete(s, true, picked) == s,
{
}

} // verus!
