//! The values that a comparison run works on and hands back.

use vstd::prelude::*;

verus! {

/// One regular file observed in one tree.
#[derive(Debug, Clone)]
pub struct FileEntry {
    /// Location on disk.
    pub path: String,
    /// Path relative to the tree root: the key that joins the two trees.
    pub rel_path: String,
    /// Length in bytes at scan time.
    pub size: u64,
    /// Last modification, in seconds since the Unix epoch.
    pub modified: u64,
    /// Full-content hash, present only where one was computed in a comparison.
    pub hash: Option<String>,
}

/// Mathematical value of a `FileEntry`.
pub ghost struct EntryView {
    pub path: Seq<char>,
    pub rel_path: Seq<char>,
    pub size: u64,
    pub modified: u64,
    pub hash: Option<Seq<char>>,
}

/// Mathematical value of an optional string.
pub open spec fn opt_view(o: Option<String>) -> Option<Seq<char>> {
    match o {
        Some(s) => Some(s@),
        None => None,
    }
}

impl View for FileEntry {
    type V = EntryView;

    open spec fn view(&self) -> EntryView {
        EntryView {
            path: self.path@,
            rel_path: self.rel_path@,
            size: self.size,
            modified: self.modified,
            hash: opt_view(self.hash),
        }
    }
}

/// A copy of an optional string with the same value.
pub fn copy_opt_string(o: &Option<String>) -> (r: Option<String>)
    ensures
        opt_view(r) == opt_view(*o),
{
    match o {
        Some(s) => Some(s.clone()),
        None => None,
    }
}

impl FileEntry {
    /// A new entry, with no content hash yet.
    pub fn new(path: String, rel_path: String, size: u64, modified: u64) -> (r: FileEntry)
        ensures
            r@ == (EntryView { path: path@, rel_path: rel_path@, size, modified, hash: None }),
    {
        FileEntry { path, rel_path, size, modified, hash: None }
    }

    /// A copy of this entry with the same value.
    pub fn duplicate(&self) -> (r: FileEntry)
        ensures
            r@ == self@,
    {
        FileEntry {
            path: self.path.clone(),
            rel_path: self.rel_path.clone(),
            size: self.size,
            modified: self.modified,
            hash: copy_opt_string(&self.hash),
        }
    }

    /// A copy of this entry that carries the given content hash.
    pub fn with_hash(&self, hash: String) -> (r: FileEntry)
        ensures
            r@ == (EntryView { hash: Some(hash@), ..self@ }),
    {
        FileEntry {
            path: self.path.clone(),
            rel_path: self.rel_path.clone(),
            size: self.size,
            modified: self.modified,
            hash: Some(hash),
        }
    }
}

/// Mathematical value of a sequence of entries.
pub open spec fn entries_view(s: Seq<FileEntry>) -> Seq<EntryView> {
    s.map_values(|e: FileEntry| e@)
}

/// Mathematical value of a sequence of entry pairs.
pub open spec fn pairs_view(s: Seq<(FileEntry, FileEntry)>) -> Seq<(EntryView, EntryView)> {
    s.map_values(|p: (FileEntry, FileEntry)| (p.0@, p.1@))
}

/// Whether some entry of `s` has the relative key `k`.
pub open spec fn has_key(s: Seq<EntryView>, k: Seq<char>) -> bool {
    exists|i: int| 0 <= i < s.len() && s[i].rel_path == k
}

/// Whether some pair of `s` has the relative key `k` on its source side.
pub open spec fn has_pair_key(s: Seq<(EntryView, EntryView)>, k: Seq<char>) -> bool {
    exists|i: int| 0 <= i < s.len() && s[i].0.rel_path == k
}

/// A progress or outcome event of a comparison or synchronisation run.
#[derive(Debug, Clone)]
pub enum ScanStatus {
    ScanningSource,
    ScanningDest,
    ScanningBoth,
    /// Pairs hashed so far, out of the total.
    Hashing(usize, usize),
    /// Tasks done so far, out of the total.
    Syncing(usize, usize),
    Complete,
    Error(String),
}

/// Outcome of one comparison run.
#[derive(Debug, Clone)]
pub struct CompareResult {
    /// Source entries whose key does not occur in the destination.
    pub missing_in_dest: Vec<FileEntry>,
    /// Destination entries whose key does not occur in the source.
    pub missing_in_source: Vec<FileEntry>,
    /// (source, destination) pairs that share a key but were judged unequal.
    pub different_content: Vec<(FileEntry, FileEntry)>,
}

impl CompareResult {
    /// A result with all three collections empty.
    pub fn empty() -> (r: CompareResult)
        ensures
            r.missing_in_dest@.len() == 0,
            r.missing_in_source@.len() == 0,
            r.different_content@.len() == 0,
    {
        CompareResult {
            missing_in_dest: Vec::new(),
            missing_in_source: Vec::new(),
            different_content: Vec::new(),
        }
    }
}

} // verus!
