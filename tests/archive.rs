use pak_archive::error::PakError;
use pak_archive::index::PakIndex;
use pak_archive::memory::PakMemory;
use pak_archive::order::compare_names;
use pak_archive::version::Version;
use std::cmp::Ordering;

fn staged(version: Version, entries: &[(&str, &[u8])]) -> PakMemory {
    let mut pak = PakMemory::new(version);
    for (name, data) in entries {
        pak.set_entry(name.to_string(), data.to_vec());
    }
    pak
}

fn index_of(pak: PakMemory) -> PakIndex {
    let layout = pak.into_layout();
    let names = layout.entries.iter().map(|e| e.0.clone()).collect();
    PakIndex::new(layout.version, layout.mount_point, false, None, layout.path_hash_seed, names)
        .unwrap()
}

#[test]
fn new_builder_is_empty_with_default_mount_point() {
    let layout = PakMemory::new(Version::V11).into_layout();
    assert_eq!(layout.version, Version::V11);
    assert_eq!(layout.mount_point, "../../../");
    assert_eq!(layout.path_hash_seed, None);
    assert!(layout.entries.is_empty());
}

#[test]
fn staged_entry_reads_back() {
    let pak = staged(Version::V8B, &[("x/y.uasset", &[4, 5, 6])]);
    assert_eq!(pak.get_entry("x/y.uasset"), Some(&vec![4, 5, 6]));
    assert_eq!(pak.get_entry("x/y"), None);
    assert_eq!(pak.get_entry(""), None);
}

#[test]
fn empty_name_and_empty_payload_are_entries() {
    let pak = staged(Version::V3, &[("", &[])]);
    assert_eq!(pak.get_entry(""), Some(&vec![]));
}

#[test]
fn second_set_entry_overwrites_first() {
    let pak = staged(Version::V11, &[("a", &[1]), ("a", &[2, 2])]);
    assert_eq!(pak.get_entry("a"), Some(&vec![2, 2]));
    let layout = pak.into_layout();
    assert_eq!(layout.entries, vec![("a".to_string(), vec![2, 2])]);
}

#[test]
fn layout_is_in_byte_order_of_names() {
    let pak = staged(
        Version::V11,
        &[("b/c.bin", &[9]), ("é", &[3]), ("a.txt", &[1]), ("B", &[2]), ("a", &[0])],
    );
    let names: Vec<String> = pak.into_layout().entries.into_iter().map(|e| e.0).collect();
    assert_eq!(names, vec!["B", "a", "a.txt", "b/c.bin", "é"]);
}

#[test]
fn layout_does_not_depend_on_insertion_order() {
    let one = staged(Version::V9, &[("a.txt", &[1, 2, 3]), ("b/c.bin", &[9, 9]), ("c", &[7])]);
    let two = staged(
        Version::V9,
        &[("c", &[0]), ("b/c.bin", &[9, 9]), ("a.txt", &[1, 2, 3]), ("c", &[7])],
    );
    let (one, two) = (one.into_layout(), two.into_layout());
    assert_eq!(one.entries, two.entries);
    assert_eq!(one.mount_point, two.mount_point);
    assert_eq!(one.version, two.version);
}

#[test]
fn example_archive_lists_and_finds_its_entries() {
    let pak = staged(Version::V11, &[("a.txt", &[1, 2, 3]), ("b/c.bin", &[9, 9])]);
    assert_eq!(pak.get_entry("a.txt"), Some(&vec![1, 2, 3]));
    let index = index_of(pak);
    assert_eq!(index.mount_point(), "../../../");
    assert_eq!(index.files(), vec!["a.txt".to_string(), "b/c.bin".to_string()]);
    assert_eq!(index.lookup("a.txt"), Ok(0));
    assert_eq!(index.lookup("b/c.bin"), Ok(1));
}

#[test]
fn unknown_name_is_entry_not_found() {
    let index = index_of(staged(Version::V11, &[("a.txt", &[1])]));
    assert_eq!(index.lookup("does/not/exist"), Err(PakError::EntryNotFound));
    assert_eq!(index.lookup("a.tx"), Err(PakError::EntryNotFound));
    let empty = index_of(PakMemory::new(Version::V1));
    assert_eq!(empty.lookup("does/not/exist"), Err(PakError::EntryNotFound));
    assert!(empty.files().is_empty());
}

#[test]
fn accessors_return_the_same_values_each_time() {
    let files = vec!["x".to_string(), "y".to_string()];
    let index = PakIndex::new(Version::V11, "/Game/".to_string(), false, Some(7), Some(42), files)
        .unwrap();
    for _ in 0..3 {
        assert_eq!(index.version(), Version::V11);
        assert_eq!(index.mount_point(), "/Game/");
        assert!(!index.encrypted_index());
        assert_eq!(index.encryption_guid(), Some(7));
        assert_eq!(index.path_hash_seed(), Some(42));
        assert_eq!(index.files(), vec!["x".to_string(), "y".to_string()]);
    }
}

#[test]
fn fields_the_version_cannot_carry_are_malformed() {
    let guid = PakIndex::new(Version::V6, String::new(), false, Some(1), None, vec![]);
    assert_eq!(guid.err(), Some(PakError::MalformedHeader));
    let seed = PakIndex::new(Version::V9, String::new(), false, None, Some(1), vec![]);
    assert_eq!(seed.err(), Some(PakError::MalformedHeader));
    let flag = PakIndex::new(Version::V3, String::new(), true, None, None, vec![]);
    assert_eq!(flag.err(), Some(PakError::MalformedHeader));
    assert!(PakIndex::new(Version::V7, String::new(), false, Some(1), None, vec![]).is_ok());
    assert!(PakIndex::new(Version::V10, String::new(), false, None, Some(1), vec![]).is_ok());
}

#[test]
fn encrypted_index_is_unavailable() {
    let r = PakIndex::new(Version::V4, String::new(), true, None, None, vec![]);
    assert_eq!(r.err(), Some(PakError::EncryptedIndexUnavailable));
    let r = PakIndex::new(Version::V11, String::new(), true, Some(5), Some(5), vec![]);
    assert_eq!(r.err(), Some(PakError::EncryptedIndexUnavailable));
}

#[test]
fn version_layout_decisions() {
    assert_eq!(Version::V0.major(), 0);
    assert_eq!(Version::V8A.major(), 8);
    assert_eq!(Version::V8B.major(), 8);
    assert_eq!(Version::V11.major(), 11);
    assert!(!Version::V3.has_index_encryption_flag());
    assert!(Version::V4.has_index_encryption_flag());
    assert!(!Version::V6.has_encryption_guid());
    assert!(Version::V7.has_encryption_guid());
    assert!(!Version::V9.has_path_hash_seed());
    assert!(Version::V10.has_path_hash_seed());
    assert!(Version::V8A < Version::V8B);
}

#[test]
fn names_compare_byte_by_byte() {
    assert_eq!(compare_names("a", "b"), Ordering::Less);
    assert_eq!(compare_names("a", "a"), Ordering::Equal);
    assert_eq!(compare_names("ab", "a"), Ordering::Greater);
    assert_eq!(compare_names("", "a"), Ordering::Less);
    assert_eq!(compare_names("Z", "a"), Ordering::Less);
    assert_eq!(compare_names("é", "z"), Ordering::Greater);
}
