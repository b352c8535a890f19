use resource_sync::manifest::{
    category_name_str, entry_hash_well_formed, manifest_url, resource_url, Category, FileEntry,
    ResourceManifest,
};

fn entry(path: &str, hash: &str) -> FileEntry {
    FileEntry { relative_path: String::from(path), content_hash: String::from(hash) }
}

const H_EMPTY: &str = "e3b0c44298fc1c149afbf4c8996fb92427ae41e4649b934ca495991b7852b855";

#[test]
fn resource_url_exact() {
    assert_eq!(
        resource_url("https://example.com/", "1.2.3", "fonts/a.ttf"),
        "https://example.com/v1.2.3/resources/fonts/a.ttf"
    );
}

#[test]
fn manifest_url_exact() {
    assert_eq!(
        manifest_url("https://example.com/", "1.2.3"),
        "https://example.com/v1.2.3/resources/resources.json"
    );
}

#[test]
fn category_names() {
    assert_eq!(category_name_str(Category::Fonts), "fonts");
    assert_eq!(category_name_str(Category::Images), "images");
}

#[test]
fn well_formed_hash_accepted() {
    assert!(entry_hash_well_formed(&entry("a.ttf", H_EMPTY)));
}

#[test]
fn short_hash_rejected() {
    assert!(!entry_hash_well_formed(&entry("a.ttf", "abc123")));
}

#[test]
fn uppercase_hash_rejected() {
    let upper = H_EMPTY.to_uppercase();
    assert!(!entry_hash_well_formed(&entry("a.ttf", &upper)));
}

#[test]
fn non_hex_hash_rejected() {
    let bad = format!("g{}", &H_EMPTY[1..]);
    assert!(!entry_hash_well_formed(&entry("a.ttf", &bad)));
}

#[test]
fn manifest_with_unique_paths_is_well_formed() {
    let m = ResourceManifest {
        fonts: vec![entry("a.ttf", H_EMPTY), entry("b.ttf", H_EMPTY)],
        images: vec![entry("c.png", H_EMPTY)],
    };
    assert!(m.well_formed());
}

#[test]
fn manifest_with_duplicate_paths_is_rejected() {
    let m = ResourceManifest {
        fonts: vec![entry("a.ttf", H_EMPTY), entry("a.ttf", H_EMPTY)],
        images: vec![],
    };
    assert!(!m.well_formed());
}

#[test]
fn empty_manifest_is_well_formed() {
    let m = ResourceManifest { fonts: vec![], images: vec![] };
    assert!(m.well_formed());
}
