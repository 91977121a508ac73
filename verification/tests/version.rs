use unpak::{Version, MAGIC};

#[test]
fn magic_value() {
    assert_eq!(MAGIC, 0x5A6F12E1);
}

#[test]
fn footer_sizes() {
    assert_eq!(Version::Initial.footer_size(), 44);
    assert_eq!(Version::NoTimestamps.footer_size(), 44);
    assert_eq!(Version::CompressionEncryption.footer_size(), 44);
    assert_eq!(Version::IndexEncryption.footer_size(), 45);
    assert_eq!(Version::RelativeChunkOffsets.footer_size(), 45);
    assert_eq!(Version::DeleteRecords.footer_size(), 45);
    assert_eq!(Version::EncryptionKeyUuid.footer_size(), 61);
    assert_eq!(Version::FNameBasedCompression.footer_size(), 189);
    assert_eq!(Version::FNameBasedCompression2.footer_size(), 221);
    assert_eq!(Version::FrozenIndex.footer_size(), 222);
    assert_eq!(Version::PathHashIndex.footer_size(), 221);
    assert_eq!(Version::Fnv64BugFix.footer_size(), 221);
}

#[test]
fn ordinals() {
    let ordinals: Vec<u32> = Version::iter().into_iter().map(|v| v.as_u32()).collect();
    assert_eq!(ordinals, vec![1, 2, 3, 4, 5, 6, 7, 8, 8, 9, 10, 11]);
}

#[test]
fn iter_lists_every_version_in_order() {
    let all = Version::iter();
    assert_eq!(all.len(), 12);
    assert_eq!(all[0], Version::Initial);
    assert_eq!(all[7], Version::FNameBasedCompression);
    assert_eq!(all[8], Version::FNameBasedCompression2);
    assert_eq!(all[11], Version::Fnv64BugFix);
    for (i, v) in all.iter().enumerate() {
        assert_eq!(v.position() as usize, i);
    }
}

#[test]
fn versions_compare_by_rank() {
    assert!(Version::FNameBasedCompression2.is_at_least(Version::FNameBasedCompression));
    assert!(!Version::FNameBasedCompression.is_at_least(Version::FNameBasedCompression2));
    assert!(Version::Initial.is_at_least(Version::Initial));
    assert!(!Version::Initial.is_at_least(Version::NoTimestamps));
    assert!(Version::Fnv64BugFix.is_at_least(Version::PathHashIndex));
    assert!(Version::FNameBasedCompression < Version::FNameBasedCompression2);
    for a in Version::iter() {
        for b in Version::iter() {
            assert_eq!(a.is_at_least(b), a >= b);
        }
    }
}

#[test]
fn names() {
    assert_eq!(Version::Initial.name(), "Initial");
    assert_eq!(Version::FNameBasedCompression2.name(), "FNameBasedCompression2");
    assert_eq!(Version::Fnv64BugFix.name(), "Fnv64BugFix");
    assert_eq!(format!("{:?}", Version::PathHashIndex), Version::PathHashIndex.name());
}
