//! Output assembly: the projection of a found spectrum that is handed to
//! the serializer, carrying the original identifier as its canonical `usi`
//! self-reference.

use vstd::prelude::*;

use crate::ident::Identifier;
use crate::spectrum::Spectrum;

verus! {

/// The output record.  It has no life of its own: built once from the found
/// spectrum and the identifier, then serialized by the caller.
#[derive(Debug, Clone, PartialEq, Eq)]
pub struct ProxiSpectrum {
    /// The identifier text, echoed unchanged.
    pub usi: Vec<u8>,
    /// Number of peaks in the found spectrum's peak list, if one is present.
    pub peaks: Option<u64>,
    /// The "number of peaks" annotation of the found spectrum.
    pub peak_count_param: Option<u64>,
}

fn copy_bytes(v: &Vec<u8>) -> (r: Vec<u8>)
    ensures
        r@ == v@,
{
    let mut out: Vec<u8> = Vec::new();
    let mut i: usize = 0;
    while i < v.len()
        invariant
            i <= v@.len(),
            out@ == v@.take(i as int),
        decreases v@.len() - i,
    {
        out.push(v[i]);
        i += 1;
    }
    proof {
        assert(v@.take(v@.len() as int) =~= v@);
    }
    out
}

/// Build the output record for a found spectrum: the identifier text is
/// carried over unchanged as the `usi` field, and the spectrum's fields are
/// carried over unchanged.
pub fn assemble_output(s: &Spectrum, id: &Identifier) -> (r: ProxiSpectrum)
    ensures
        r.usi@ == id.usi@,
        r.peaks == s.peaks,
        r.peak_count_param == s.peak_count_param,
{
    ProxiSpectrum { usi: copy_bytes(&id.usi), peaks: s.peaks, peak_count_param: s.peak_count_param }
}

} // verus!
