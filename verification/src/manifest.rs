//! The remote repository's description of what should exist locally: per
//! category, a list of relative paths with their expected content
//! fingerprints, together with the rules a well-formed manifest obeys and
//! the construction of the remote URLs it is served under.

use vstd::prelude::*;

verus! {

/// Mathematical model of one manifest entry: its relative path and its
/// expected fingerprint, both as character sequences.
pub struct EntryModel {
    pub path: Seq<char>,
    pub hash: Seq<char>,
}

/// One manifest entry: a path relative to the category's root directory and
/// the expected SHA-256 fingerprint of the file's content, as 64 lowercase
/// hexadecimal characters.
pub struct FileEntry {
    pub relative_path: String,
    pub content_hash: String,
}

impl View for FileEntry {
    type V = EntryModel;

    open spec fn view(&self) -> EntryModel {
        EntryModel { path: self.relative_path@, hash: self.content_hash@ }
    }
}

/// The models of a sequence of entries.
pub open spec fn entry_models(s: Seq<FileEntry>) -> Seq<EntryModel> {
    s.map_values(|e: FileEntry| e@)
}

/// Mathematical model of a manifest: the two category lists.
pub struct ManifestModel {
    pub fonts: Seq<EntryModel>,
    pub images: Seq<EntryModel>,
}

/// A parsed manifest: the expected files of each category. It is fetched
/// fresh for every sync and never persisted.
pub struct ResourceManifest {
    pub fonts: Vec<FileEntry>,
    pub images: Vec<FileEntry>,
}

impl View for ResourceManifest {
    type V = ManifestModel;

    open spec fn view(&self) -> ManifestModel {
        ManifestModel { fonts: entry_models(self.fonts@), images: entry_models(self.images@) }
    }
}

/// The asset categories, each bound to its own local root directory.
#[derive(PartialEq, Eq, Structural, Clone, Copy, Debug)]
pub enum Category {
    Fonts,
    Images,
}

/// The category's name as it appears in remote paths.
pub open spec fn category_name(c: Category) -> Seq<char> {
    match c {
        Category::Fonts => "fonts"@,
        Category::Images => "images"@,
    }
}

/// The category's name as it appears in remote paths.
pub fn category_name_str(c: Category) -> (r: &'static str)
    ensures
        r@ == category_name(c),
{
    match c {
        Category::Fonts => "fonts",
        Category::Images => "images",
    }
}

/// Whether `c` is a lowercase hexadecimal digit character.
pub open spec fn is_lower_hex_char(c: char) -> bool {
    (48 <= c as u32 && c as u32 <= 57) || (97 <= c as u32 && c as u32 <= 102)
}

/// A well-formed fingerprint: exactly 64 lowercase hexadecimal characters.
pub open spec fn valid_hash_chars(s: Seq<char>) -> bool {
    &&& s.len() == 64
    &&& forall|i: int| 0 <= i < s.len() ==> is_lower_hex_char(s[i])
}

/// No two entries of one category name the same relative path.
pub open spec fn paths_unique(s: Seq<EntryModel>) -> bool {
    forall|i: int, j: int| 0 <= i < j < s.len() ==> s[i].path != s[j].path
}

/// A well-formed category list: unique paths, well-formed fingerprints.
pub open spec fn valid_category(s: Seq<EntryModel>) -> bool {
    &&& paths_unique(s)
    &&& forall|i: int| 0 <= i < s.len() ==> valid_hash_chars(s[i].hash)
}

/// A well-formed manifest: both category lists are well-formed.
pub open spec fn valid_manifest(m: ManifestModel) -> bool {
    valid_category(m.fonts) && valid_category(m.images)
}

/// Whether the entry's fingerprint is exactly 64 lowercase hexadecimal
/// characters.
pub fn entry_hash_well_formed(e: &FileEntry) -> (r: bool)
    ensures
        r == valid_hash_chars(e@.hash),
{
    let n = e.content_hash.as_str().unicode_len();
    if n != 64 {
        return false;
    }
    let mut i: usize = 0;
    while i < n
        invariant
            n == e.content_hash@.len(),
            i <= n,
            forall|j: int| 0 <= j < i ==> is_lower_hex_char(e.content_hash@[j]),
        decreases n - i,
    {
        let c = e.content_hash.as_str().get_char(i);
        let v = c as u32;
        if !((48 <= v && v <= 57) || (97 <= v && v <= 102)) {
            return false;
        }
        i = i + 1;
    }
    true
}

/// Whether the category list is well-formed: every fingerprint 64 lowercase
/// hexadecimal characters, no relative path repeated.
pub fn category_well_formed(entries: &Vec<FileEntry>) -> (r: bool)
    ensures
        r == valid_category(entry_models(entries@)),
{
    let n = entries.len();
    let mut i: usize = 0;
    while i < n
        invariant
            n == entries@.len(),
            i <= n,
            forall|j: int| 0 <= j < i ==> valid_hash_chars(entry_models(entries@)[j].hash),
        decreases n - i,
    {
        if !entry_hash_well_formed(&entries[i]) {
            proof {
                assert(entry_models(entries@)[i as int] == entries@[i as int]@);
                assert(!valid_category(entry_models(entries@)));
            }
            return false;
        }
        i = i + 1;
    }
    let mut a: usize = 0;
    while a < n
        invariant
            n == entries@.len(),
            a <= n,
            forall|j: int| 0 <= j < n ==> valid_hash_chars(entry_models(entries@)[j].hash),
            forall|p: int, q: int|
                0 <= p < q < n && p < a ==> entry_models(entries@)[p].path != entry_models(
                    entries@,
                )[q].path,
        decreases n - a,
    {
        let mut b: usize = a + 1;
        while b < n
            invariant
                n == entries@.len(),
                a < b || b == a + 1,
                a < n,
                a + 1 <= b <= n,
                forall|q: int|
                    a < q < b ==> entry_models(entries@)[a as int].path != entry_models(
                        entries@,
                    )[q].path,
            decreases n - b,
        {
            if entries[a].relative_path == entries[b].relative_path {
                proof {
                    assert(entry_models(entries@)[a as int] == entries@[a as int]@);
                    assert(entry_models(entries@)[b as int] == entries@[b as int]@);
                    assert(!paths_unique(entry_models(entries@)));
                }
                return false;
            }
            b = b + 1;
        }
        a = a + 1;
    }
    true
}

impl ResourceManifest {
    /// Whether both category lists are well-formed.
    pub fn well_formed(&self) -> (r: bool)
        ensures
            r == valid_manifest(self@),
    {
        category_well_formed(&self.fonts) && category_well_formed(&self.images)
    }
}

/// The remote URL of a named resource: the base URL, a version segment, the
/// fixed path infix, then the name.
pub open spec fn resource_url_spec(base: Seq<char>, version: Seq<char>, name: Seq<char>) -> Seq<
    char,
> {
    base + "v"@ + version + "/resources/"@ + name
}

/// The remote URL of the manifest itself.
pub open spec fn manifest_url_spec(base: Seq<char>, version: Seq<char>) -> Seq<char> {
    resource_url_spec(base, version, "resources.json"@)
}

/// Builds the remote URL of a named resource under the given base URL and
/// version.
pub fn resource_url(base_url: &str, version: &str, name: &str) -> (r: String)
    ensures
        r@ == resource_url_spec(base_url@, version@, name@),
{
    let mut r = String::from_str(base_url);
    r.append("v");
    r.append(version);
    r.append("/resources/");
    r.append(name);
    r
}

/// Builds the remote URL the manifest is fetched from.
pub fn manifest_url(base_url: &str, version: &str) -> (r: String)
    ensures
        r@ == manifest_url_spec(base_url@, version@),
{
    resource_url(base_url, version, "resources.json")
}

} // verus!
