use media_ingest::classify::is_image;

#[test]
fn every_extension_is_classified() {
    assert!(is_image("a.jpg"));
    assert!(is_image("a.jpeg"));
    assert!(is_image("a.dng"));
    assert!(is_image("a.pef"));
    assert!(is_image("a.nef"));
    assert!(is_image("a.cr2"));
    assert!(is_image("a.raf"));
    assert!(is_image("a.tif"));
    assert!(is_image("a.tiff"));
}

#[test]
fn case_variants_are_classified() {
    assert!(is_image("b.JPG"));
    assert!(is_image("b.JpEg"));
    assert!(is_image("b.DNG"));
    assert!(is_image("b.Pef"));
    assert!(is_image("b.NEF"));
    assert!(is_image("b.Cr2"));
    assert!(is_image("b.RAF"));
    assert!(is_image("b.TIf"));
    assert!(is_image("b.TIFF"));
}

#[test]
fn other_suffixes_are_not_classified() {
    assert!(!is_image("notes.txt"));
    assert!(!is_image("archive.zip"));
    assert!(!is_image("a.jp"));
}

#[test]
fn near_miss_is_not_classified() {
    assert!(!is_image("x.jpga"));
    assert!(!is_image("x.jpg.bak"));
    assert!(!is_image("tiff"));
}

#[test]
fn no_extension_is_not_classified() {
    assert!(!is_image("README"));
    assert!(!is_image(""));
}

#[test]
fn bare_extension_name_is_classified() {
    assert!(is_image(".jpg"));
}
