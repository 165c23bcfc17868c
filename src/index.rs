use crate::error::PakError;
use crate::order::compare_names;
use crate::version::{records_encryption_guid, records_index_encryption, records_path_hash_seed, Version};
use vstd::prelude::*;

verus! {

/// Whether the optional footer and index fields that an archive records are
/// ones that its revision can carry.
pub open spec fn fields_fit_version(
    version: Version,
    encrypted_index: bool,
    encryption_guid: Option<u128>,
    path_hash_seed: Option<u64>,
) -> bool {
    &&& encrypted_index ==> records_index_encryption(version)
    &&& encryption_guid is Some ==> records_encryption_guid(version)
    &&& path_hash_seed is Some ==> records_path_hash_seed(version)
}

/// The metadata and entry names of an opened archive. It never changes once
/// built: every method takes `&self`.
pub struct PakIndex {
    version: Version,
    mount_point: String,
    encrypted_index: bool,
    encryption_guid: Option<u128>,
    path_hash_seed: Option<u64>,
    files: Vec<String>,
}

impl PakIndex {
    pub closed spec fn spec_version(&self) -> Version {
        self.version
    }

    pub closed spec fn spec_mount_point(&self) -> Seq<char> {
        self.mount_point@
    }

    pub closed spec fn spec_encrypted_index(&self) -> bool {
        self.encrypted_index
    }

    pub closed spec fn spec_encryption_guid(&self) -> Option<u128> {
        self.encryption_guid
    }

    pub closed spec fn spec_path_hash_seed(&self) -> Option<u64> {
        self.path_hash_seed
    }

    /// The entry names, in index order.
    pub closed spec fn names(&self) -> Seq<Seq<char>> {
        self.files@.map_values(|f: String| f@)
    }

    /// Builds the index model from what an archive's footer and index hold.
    /// Fields that the revision cannot carry make the header malformed; an
    /// encrypted index cannot be read, since no key material is ever held.
    pub fn new(
        version: Version,
        mount_point: String,
        encrypted_index: bool,
        encryption_guid: Option<u128>,
        path_hash_seed: Option<u64>,
        files: Vec<String>,
    ) -> (r: Result<PakIndex, PakError>)
        ensures
            (r == Err::<PakIndex, PakError>(PakError::MalformedHeader)) <==> !fields_fit_version(
                version,
                encrypted_index,
                encryption_guid,
                path_hash_seed,
            ),
            (r == Err::<PakIndex, PakError>(PakError::EncryptedIndexUnavailable)) <==> (
            fields_fit_version(version, encrypted_index, encryption_guid, path_hash_seed)
                && encrypted_index),
            r is Ok <==> (fields_fit_version(
                version,
                encrypted_index,
                encryption_guid,
                path_hash_seed,
            ) && !encrypted_index),
            r matches Ok(ix) ==> {
                &&& ix.spec_version() == version
                &&& ix.spec_mount_point() == mount_point@
                &&& ix.spec_encrypted_index() == encrypted_index
                &&& ix.spec_encryption_guid() == encryption_guid
                &&& ix.spec_path_hash_seed() == path_hash_seed
                &&& ix.names() == files@.map_values(|f: String| f@)
            },
    {
        if encrypted_index && !version.has_index_encryption_flag() {
            return Err(PakError::MalformedHeader);
        }
        if encryption_guid.is_some() && !version.has_encryption_guid() {
            return Err(PakError::MalformedHeader);
        }
        if path_hash_seed.is_some() && !version.has_path_hash_seed() {
            return Err(PakError::MalformedHeader);
        }
        if encrypted_index {
            return Err(PakError::EncryptedIndexUnavailable);
        }
        Ok(PakIndex {
            version,
            mount_point,
            encrypted_index,
            encryption_guid,
            path_hash_seed,
            files,
        })
    }

    pub fn version(&self) -> (r: Version)
        ensures
            r == self.spec_version(),
    {
        self.version
    }

    pub fn mount_point(&self) -> (r: &str)
        ensures
            r@ == self.spec_mount_point(),
    {
        self.mount_point.as_str()
    }

    pub fn encrypted_index(&self) -> (r: bool)
        ensures
            r == self.spec_encrypted_index(),
    {
        self.encrypted_index
    }

    pub fn encryption_guid(&self) -> (r: Option<u128>)
        ensures
            r == self.spec_encryption_guid(),
    {
        self.encryption_guid
    }

    pub fn path_hash_seed(&self) -> (r: Option<u64>)
        ensures
            r == self.spec_path_hash_seed(),
    {
        self.path_hash_seed
    }

    /// The entry names, in index order.
    pub fn files(&self) -> (r: Vec<String>)
        ensures
            r@.map_values(|f: String| f@) == self.names(),
    {
        let mut r: Vec<String> = Vec::new();
        let mut i: usize = 0;
        while i < self.files.len()
            invariant
                i <= self.files.len(),
                r@.map_values(|f: String| f@) == self.names().subrange(0, i as int),
            decreases self.files.len() - i,
        {
            let f = self.files[i].clone();
            assert(f@ == self.names()[i as int]);
            let ghost prev = r@;
            r.push(f);
            assert(r@ == prev.push(f));
            assert(r@.map_values(|f: String| f@) =~= prev.map_values(|f: String| f@).push(f@));
            assert(r@.map_values(|f: String| f@) =~= self.names().subrange(0, i + 1));
            i = i + 1;
        }
        assert(self.names().subrange(0, i as int) =~= self.names());
        r
    }

    /// The position in the index of the entry named `name`; `EntryNotFound`
    /// exactly when no entry has that name.
    pub fn lookup(&self, name: &str) -> (r: Result<usize, PakError>)
        ensures
            r is Err <==> !self.names().contains(name@),
            r matches Err(e) ==> e == PakError::EntryNotFound,
            r matches Ok(i) ==> {
                &&& i < self.names().len()
                &&& self.names()[i as int] == name@
                &&& forall|j: int| 0 <= j < i ==> self.names()[j] != name@
            },
    {
        let mut i: usize = 0;
        while i < self.files.len()
            invariant
                i <= self.files.len(),
                forall|j: int| 0 <= j < i ==> self.names()[j] != name@,
            decreases self.files.len() - i,
        {
            assert(self.names()[i as int] == self.files@[i as int]@);
            match compare_names(self.files[i].as_str(), name) {
                core::cmp::Ordering::Equal => {
                    assert(self.names()[i as int] == self.files@[i as int]@);
                    assert(self.names().contains(name@));
                    return Ok(i);
                },
                _ => {},
            }
            i = i + 1;
        }
        Err(PakError::EntryNotFound)
    }
}

} // verus!
