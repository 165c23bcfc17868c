use vstd::prelude::*;

verus! {

/// Why an archive operation failed. Each failure ends the operation that
/// raised it; nothing is retried.
#[derive(Debug, PartialEq, Eq)]
pub enum PakError {
    /// The header or index fields contradict each other or the revision.
    MalformedHeader,
    /// The revision tag is not one this codec knows.
    UnsupportedVersion,
    /// The index is encrypted and no key material is available.
    EncryptedIndexUnavailable,
    /// No entry of the requested name is in the index.
    EntryNotFound,
    /// Reading or seeking the byte source failed; the text describes how.
    SourceIoError(String),
    /// Writing to the byte sink failed; the text describes how.
    SinkIoError(String),
}

} // verus!
