use md5::Digest;
use photostore::naming::derive_name;
use photostore::service::upload_target;

#[test]
fn derive_name_known_vector() {
    // The MD5 of "abc" is a published test vector.
    assert_eq!(
        derive_name("abc"),
        "900150983cd24fb0d6963f7d28e17f72.webp".to_string()
    );
}

#[test]
fn derive_name_matches_digest_crate() {
    let expected = format!("{:x}.webp", md5::Md5::digest("a.png".as_bytes()));
    assert_eq!(derive_name("a.png"), expected);
}

#[test]
fn derive_name_is_deterministic() {
    let first = derive_name("holiday photo.jpeg");
    let second = derive_name("holiday photo.jpeg");
    assert_eq!(first, second);
}

#[test]
fn derive_name_distinguishes_names() {
    assert_ne!(derive_name("a.png"), derive_name("b.png"));
}

#[test]
fn derive_name_is_fixed_width() {
    assert_eq!(derive_name("x").len(), 37);
    assert_eq!(derive_name("a-much-longer-original-file-name.jpeg").len(), 37);
    assert!(derive_name("x").ends_with(".webp"));
}

#[test]
fn derive_name_total_on_empty() {
    // The MD5 of the empty input is a published test vector.
    assert_eq!(
        derive_name(""),
        "d41d8cd98f00b204e9800998ecf8427e.webp".to_string()
    );
}

#[test]
fn same_original_name_collapses_to_same_target() {
    // Uploading "a.png" twice, even with different bytes, lands on one
    // path: the second write overwrites the first.
    let (folder1, path1) = upload_target("images", "pc", "a.png");
    let (folder2, path2) = upload_target("images", "pc", "a.png");
    assert_eq!(folder1, "images/pc".to_string());
    assert_eq!(folder1, folder2);
    assert_eq!(path1, path2);
    let expected = format!("images/pc/{:x}.webp", md5::Md5::digest("a.png".as_bytes()));
    assert_eq!(path1, expected);
}
