use photostore::paths::{
    contains_segment, extension, file_name, has_extension, join_path, parent_name,
    under_thumbnails, with_webp_extension,
};

#[test]
fn file_name_takes_last_segment() {
    assert_eq!(file_name("images/pc/photo.webp"), "photo.webp".to_string());
    assert_eq!(file_name("photo.webp"), "photo.webp".to_string());
    assert_eq!(file_name("/a/b/c.jpg"), "c.jpg".to_string());
    assert_eq!(file_name("a/b/"), "".to_string());
}

#[test]
fn parent_name_takes_immediate_directory() {
    assert_eq!(parent_name("images/pc/photo.webp"), "pc".to_string());
    assert_eq!(parent_name("/srv/images/mp/x.webp"), "mp".to_string());
    assert_eq!(parent_name("photo.webp"), "".to_string());
}

#[test]
fn extension_follows_last_dot_of_segment() {
    assert_eq!(extension("a/b/photo.jpg"), Some("jpg".to_string()));
    assert_eq!(extension("archive.tar.gz"), Some("gz".to_string()));
    assert_eq!(extension("noext"), None);
    // A leading dot alone names a hidden file, not an extension.
    assert_eq!(extension("a/.webp"), None);
    assert_eq!(extension("trailing."), Some("".to_string()));
}

#[test]
fn has_extension_is_exact() {
    assert!(has_extension("pc/a.jpg", "jpg"));
    assert!(!has_extension("pc/a.jpg", "jpeg"));
    assert!(!has_extension("pc/ajpg", "jpg"));
}

#[test]
fn with_webp_extension_replaces_or_appends() {
    assert_eq!(
        with_webp_extension("images/pc/photo.jpg"),
        "images/pc/photo.webp".to_string()
    );
    assert_eq!(
        with_webp_extension("photo.jpeg"),
        "photo.webp".to_string()
    );
    assert_eq!(with_webp_extension("noext"), "noext.webp".to_string());
}

#[test]
fn thumbnails_subtree_is_recognized() {
    assert!(under_thumbnails("images/thumbnails/a.webp"));
    assert!(under_thumbnails("thumbnails/a.webp"));
    assert!(under_thumbnails("images/thumbnails"));
    assert!(!under_thumbnails("images/pc/a.webp"));
}

#[test]
fn only_a_whole_segment_counts_as_the_subtree() {
    // A file merely named with the word is not inside the subtree.
    assert!(!under_thumbnails("pc/my_thumbnails.webp"));
    assert!(!under_thumbnails("images/thumbnails_old/a.webp"));
    assert!(!under_thumbnails("images/old_thumbnails/a.webp"));
}

#[test]
fn segment_search() {
    assert!(contains_segment("a/bc/d", "bc"));
    assert!(contains_segment("bc/d", "bc"));
    assert!(contains_segment("a/bc", "bc"));
    assert!(contains_segment("bc", "bc"));
    assert!(!contains_segment("a/bcd/e", "bc"));
    assert!(!contains_segment("a/xbc/e", "bc"));
    assert!(!contains_segment("abc", "abcd"));
}

#[test]
fn join_path_inserts_separator() {
    assert_eq!(join_path("images", "pc"), "images/pc".to_string());
}
