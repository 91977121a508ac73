use unpak::Compression;

fn slot(name: &[u8]) -> [u8; 32] {
    let mut s = [0u8; 32];
    s[..name.len()].copy_from_slice(name);
    s
}

#[test]
fn names_are_matched_without_case() {
    assert_eq!(Compression::from_name(&slot(b"Zlib")), Compression::Zlib);
    assert_eq!(Compression::from_name(&slot(b"zlib")), Compression::Zlib);
    assert_eq!(Compression::from_name(&slot(b"ZLIB")), Compression::Zlib);
    assert_eq!(Compression::from_name(&slot(b"Gzip")), Compression::Gzip);
    assert_eq!(Compression::from_name(&slot(b"gZIP")), Compression::Gzip);
    assert_eq!(Compression::from_name(&slot(b"Oodle")), Compression::Oodle);
    assert_eq!(Compression::from_name(&slot(b"OODLE")), Compression::Oodle);
}

#[test]
fn unknown_names_are_stored() {
    assert_eq!(Compression::from_name(&slot(b"")), Compression::Stored);
    assert_eq!(Compression::from_name(&slot(b"None")), Compression::Stored);
    assert_eq!(Compression::from_name(&slot(b"LZ4")), Compression::Stored);
    assert_eq!(Compression::from_name(&slot(b"Zlibx")), Compression::Stored);
    assert_eq!(Compression::from_name(&slot(b"Zli")), Compression::Stored);
    assert_eq!(Compression::from_name(&slot(b"Zl\xe9b")), Compression::Stored);
    assert_eq!(Compression::from_name(&slot(b"z`ib")), Compression::Stored);
    assert_eq!(Compression::from_name(&slot(b"Z[ib")), Compression::Stored);
    assert_eq!(Compression::from_name(&[]), Compression::Stored);
}

#[test]
fn nul_bytes_are_padding_wherever_they_stand() {
    assert_eq!(Compression::from_name(b"\0Z\0l\0i\0b\0"), Compression::Zlib);
    assert_eq!(Compression::from_name(b"Gzip"), Compression::Gzip);
    assert_eq!(Compression::from_name(b"\0\0\0\0Oodle"), Compression::Oodle);
}

#[test]
fn default_is_stored() {
    assert_eq!(Compression::default(), Compression::Stored);
}
