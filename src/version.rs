use vstd::prelude::*;

verus! {

/// The format revisions of a pak archive, oldest first.
///
/// The two revisions that share major number 8 differ only in how many
/// compression-method names the footer lists.
#[derive(Clone, Copy, Debug, PartialEq, Eq, Structural, PartialOrd, Ord, Hash)]
pub enum Version {
    V0,
    V1,
    V2,
    V3,
    V4,
    V5,
    V6,
    V7,
    V8A,
    V8B,
    V9,
    V10,
    V11,
}

/// The major number that an archive of this revision records in its footer.
pub open spec fn major_of(v: Version) -> u32 {
    match v {
        Version::V0 => 0,
        Version::V1 => 1,
        Version::V2 => 2,
        Version::V3 => 3,
        Version::V4 => 4,
        Version::V5 => 5,
        Version::V6 => 6,
        Version::V7 => 7,
        Version::V8A => 8,
        Version::V8B => 8,
        Version::V9 => 9,
        Version::V10 => 10,
        Version::V11 => 11,
    }
}

/// Revisions from 4 on record whether the index is encrypted.
pub open spec fn records_index_encryption(v: Version) -> bool {
    major_of(v) >= 4
}

/// Revisions from 7 on record the identifier of the encryption key.
pub open spec fn records_encryption_guid(v: Version) -> bool {
    major_of(v) >= 7
}

/// Revisions from 10 on carry a path-hash index, and with it a path-hash seed.
pub open spec fn records_path_hash_seed(v: Version) -> bool {
    major_of(v) >= 10
}

impl Version {
    pub fn major(&self) -> (r: u32)
        ensures
            r == major_of(*self),
    {
        match self {
            Version::V0 => 0,
            Version::V1 => 1,
            Version::V2 => 2,
            Version::V3 => 3,
            Version::V4 => 4,
            Version::V5 => 5,
            Version::V6 => 6,
            Version::V7 => 7,
            Version::V8A => 8,
            Version::V8B => 8,
            Version::V9 => 9,
            Version::V10 => 10,
            Version::V11 => 11,
        }
    }

    pub fn has_index_encryption_flag(&self) -> (r: bool)
        ensures
            r == records_index_encryption(*self),
    {
        self.major() >= 4
    }

    pub fn has_encryption_guid(&self) -> (r: bool)
        ensures
            r == records_encryption_guid(*self),
    {
        self.major() >= 7
    }

    pub fn has_path_hash_seed(&self) -> (r: bool)
        ensures
            r == records_path_hash_seed(*self),
    {
        self.major() >= 10
    }
}

} // verus!
