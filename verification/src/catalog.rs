//! The catalog data model: items, their versions, and the files each
//! version is expected to place on disk.
use vstd::prelude::*;

verus! {

/// One file belonging to a version: a template path (which may contain
/// `{placeholder}` tokens) and the expected content hash in hex. An empty
/// hash means the expectation can never be met.
pub struct FileSpec {
    /// Template path of the file.
    pub path: String,
    /// Expected content hash, hex, either byte order, any ASCII case;
    /// empty when absent.
    pub hash: String,
}

/// One released version of an item. A version with no files is never
/// considered a match.
pub struct VersionEntry {
    /// Version label.
    pub version: String,
    /// The files this version places on disk.
    pub files: Vec<FileSpec>,
    /// Release date string, `YYYY-MM-DD` or `YYYY/MM/DD`; may be empty.
    pub release_date: String,
}

/// One installable package of the catalog. Versions are stored oldest
/// first: the last entry is the newest.
pub struct CatalogItem {
    /// Unique identifier; an item with an empty id is dropped at ingest.
    pub id: String,
    /// Display name.
    pub name: String,
    /// Author name.
    pub author: String,
    /// Short description.
    pub summary: String,
    /// Item type label.
    pub item_type: String,
    /// Tag labels.
    pub tags: Vec<String>,
    /// Known versions, oldest first.
    pub versions: Vec<VersionEntry>,
}

/// A non-recursive directory listing: the names of the immediate
/// subfolders and files of one directory.
pub struct DirectorySnapshot {
    /// Names of the immediate subfolders.
    pub folders: Vec<String>,
    /// Names of the immediate files.
    pub files: Vec<String>,
}

} // verus!
