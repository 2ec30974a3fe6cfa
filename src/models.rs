//! The records that a scan produces and the groups that classification returns.
use vstd::prelude::*;

verus! {

/// One regular file of the scanned directory.
pub struct FileInfo {
    pub name: String,
    pub path: String,
    pub size: u64,
}

/// Files that share a key: an extension or an age bucket.
pub struct FileGroup {
    pub key: String,
    pub files: Vec<FileInfo>,
}

/// Why a file stands in a duplicate group.
#[derive(Clone, Copy, Debug, PartialEq, Eq, Structural)]
pub enum DuplicateType {
    /// The unmarked name of a group of numbered copies.
    Original,
    /// A name with a `" (<digits>)"` copy marker.
    Numbered,
    /// One of several files with the very same name.
    Exact,
    /// Not classified yet.
    Unknown,
}

/// A file together with the role it plays in a duplicate group.
pub struct DuplicateFile {
    pub name: String,
    pub path: String,
    pub size: u64,
    pub duplicate_type: DuplicateType,
}

/// Files recognised as copies of one another.
pub struct DuplicateGroup {
    /// The shared name (exact matches) or the shared base name (numbered copies).
    pub original_name: String,
    pub files: Vec<DuplicateFile>,
    pub total_size: u64,
}

/// The file `f` with role `t`.
pub open spec fn tagged(f: FileInfo, t: DuplicateType) -> DuplicateFile {
    DuplicateFile { name: f.name, path: f.path, size: f.size, duplicate_type: t }
}

impl DuplicateType {
    /// The role's name as it is shown to users.
    pub fn as_str(&self) -> (r: &'static str)
        ensures
            *self == DuplicateType::Original ==> r@ == "original"@,
            *self == DuplicateType::Numbered ==> r@ == "numbered"@,
            *self == DuplicateType::Exact ==> r@ == "exact"@,
            *self == DuplicateType::Unknown ==> r@ == "unknown"@,
    {
        proof {
            reveal_strlit("original");
            reveal_strlit("numbered");
            reveal_strlit("exact");
            reveal_strlit("unknown");
        }
        match self {
            DuplicateType::Original => "original",
            DuplicateType::Numbered => "numbered",
            DuplicateType::Exact => "exact",
            DuplicateType::Unknown => "unknown",
        }
    }
}

impl FileInfo {
    pub fn new(name: String, path: String, size: u64) -> (r: FileInfo)
        ensures
            r == (FileInfo { name, path, size }),
    {
        FileInfo { name, path, size }
    }

    /// A copy of this record.
    pub fn copy(&self) -> (r: FileInfo)
        ensures
            r == *self,
    {
        FileInfo { name: self.name.clone(), path: self.path.clone(), size: self.size }
    }

    /// This record with role `t`.
    pub fn tag(&self, t: DuplicateType) -> (r: DuplicateFile)
        ensures
            r == tagged(*self, t),
    {
        DuplicateFile {
            name: self.name.clone(),
            path: self.path.clone(),
            size: self.size,
            duplicate_type: t,
        }
    }
}

} // verus!
