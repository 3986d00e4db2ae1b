//! The parsed, structured form of a USI, and the errors the resolver reports.

use vstd::prelude::*;

verus! {

/// Which spectrum within a run the identifier names.
///
/// `Scan` carries a 1-based ordinal scan number, `Index` a 0-based position,
/// and `NativeId` a format-native identifier, which this resolver does not
/// implement.
#[derive(Debug, Clone, PartialEq, Eq)]
pub enum Locator {
    Scan(u64),
    Index(u64),
    NativeId(Vec<u64>),
}

/// A parsed USI: the dataset directory name, the run name matched as a
/// filename prefix, the spectrum locator, and the full identifier text kept
/// for echoing into the output and into errors.
///
/// Parsed once per invocation and read-only thereafter.
#[derive(Debug, Clone, PartialEq, Eq)]
pub struct Identifier {
    /// The complete identifier string, as bytes.
    pub usi: Vec<u8>,
    /// Dataset name, used as a directory segment under each prefix.
    pub dataset: Vec<u8>,
    /// Run name, matched case-sensitively as a filename prefix.
    pub run_name: Vec<u8>,
    /// Which spectrum within the run is requested.
    pub locator: Locator,
}

/// The failures the resolver distinguishes.
#[derive(Debug, Clone, PartialEq, Eq)]
pub enum ResolveError {
    /// A dataset subdirectory under one prefix could not be listed; local to
    /// that prefix, the search continues with the next one.
    DirectoryUnavailable,
    /// The identifier uses a locator kind the extractor does not implement.
    UnsupportedLocator,
    /// No prefix and no candidate yielded a spectrum; carries the identifier
    /// text for diagnosis.
    SpectrumNotFound(Vec<u8>),
}

/// The 0-based reader position a locator asks for, if the locator kind is
/// supported.
pub open spec fn spec_target_position(loc: Locator) -> Result<u64, ResolveError> {
    match loc {
        Locator::Scan(n) => Ok(if n >= 1 { (n - 1) as u64 } else { 0u64 }),
        Locator::Index(i) => Ok(i),
        Locator::NativeId(_) => Err(ResolveError::UnsupportedLocator),
    }
}

/// Map a locator to the 0-based position to request from the reader.
///
/// A scan number `n` is 1-based, so it addresses position `n - 1`; a scan
/// number of 0 saturates to position 0 rather than going negative.  An index
/// is already 0-based and is used directly.  A native-identifier locator is
/// not supported and is rejected explicitly.
pub fn target_position(loc: &Locator) -> (r: Result<u64, ResolveError>)
    ensures
        r == spec_target_position(*loc),
{
    match loc {
        Locator::Scan(n) => {
            if *n >= 1 {
                Ok(*n - 1)
            } else {
                Ok(0)
            }
        },
        Locator::Index(i) => Ok(*i),
        Locator::NativeId(_) => Err(ResolveError::UnsupportedLocator),
    }
}

} // verus!
