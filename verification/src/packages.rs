//! The packages that a pusher and a puller exchange.
//!
//! Paths are relative paths, held as `String`; a set of paths is a `Vec`
//! in which nothing occurs twice.
use vstd::prelude::*;

verus! {

/// The views of a vector of strings.
pub open spec fn str_views(v: Seq<String>) -> Seq<Seq<char>> {
    v.map_values(|s: String| s@)
}

/// The views of a vector of byte vectors.
pub open spec fn bytes_views(v: Seq<Vec<u8>>) -> Seq<Seq<u8>> {
    v.map_values(|b: Vec<u8>| b@)
}

/// The views of a vector of pairs of strings.
pub open spec fn pair_views(v: Seq<(String, String)>) -> Seq<(Seq<char>, Seq<char>)> {
    v.map_values(|p: (String, String)| (p.0@, p.1@))
}

/// The set of paths that a vector holds.
pub open spec fn path_set(v: Seq<String>) -> Set<Seq<char>> {
    str_views(v).to_set()
}

/// The set of path pairs that a vector holds.
pub open spec fn pair_set(v: Seq<(String, String)>) -> Set<(Seq<char>, Seq<char>)> {
    pair_views(v).to_set()
}

/// The paths of a vector, each of which occurs once.
pub open spec fn distinct_paths(v: Seq<String>) -> bool {
    str_views(v).no_duplicates()
}

/// The pairs of a vector, each of which occurs once.
pub open spec fn distinct_pairs(v: Seq<(String, String)>) -> bool {
    pair_views(v).no_duplicates()
}

/// The records of a hash package as plain values: `paths[i]` is recorded
/// with `hashes[i]`.
#[verifier::ext_equal]
pub struct PackageView {
    pub paths: Seq<Seq<char>>,
    pub hashes: Seq<Seq<u8>>,
}

impl PackageView {
    /// The number of records: paths and hashes are paired position by
    /// position, and a path or hash with no partner is not a record.
    pub open spec fn num_records(self) -> nat {
        if self.paths.len() <= self.hashes.len() {
            self.paths.len()
        } else {
            self.hashes.len()
        }
    }
}

/// The hashes of the files of a project: `file_hashes[i]` is the hash of
/// the file at `file_paths[i]`.
#[derive(Debug)]
pub struct HashPackage {
    pub file_paths: Vec<String>,
    pub file_hashes: Vec<Vec<u8>>,
}

impl View for HashPackage {
    type V = PackageView;

    open spec fn view(&self) -> PackageView {
        PackageView { paths: self.paths(), hashes: self.hashes() }
    }
}

impl HashPackage {
    /// The paths of the records, as character sequences.
    pub open spec fn paths(&self) -> Seq<Seq<char>> {
        str_views(self.file_paths@)
    }

    /// The hashes of the records, as byte sequences.
    pub open spec fn hashes(&self) -> Seq<Seq<u8>> {
        bytes_views(self.file_hashes@)
    }

    pub fn new(file_paths: Vec<String>, file_hashes: Vec<Vec<u8>>) -> (r: Self)
        ensures
            r.file_paths@ == file_paths@,
            r.file_hashes@ == file_hashes@,
    {
        Self { file_paths, file_hashes }
    }

    /// Appends the record of the file at `path`, whose hash is `hash`.
    pub fn add_record(&mut self, path: String, hash: Vec<u8>)
        ensures
            final(self).file_paths@ == old(self).file_paths@.push(path),
            final(self).file_hashes@ == old(self).file_hashes@.push(hash),
    {
        self.file_paths.push(path);
        self.file_hashes.push(hash);
    }
}

/// The files that a puller asks for: those it lacks and those whose
/// content differs from the pusher's.
#[derive(Debug)]
pub struct RequestedFiles {
    pub new_files: Vec<String>,
    pub files_to_update: Vec<String>,
}

impl RequestedFiles {
    /// Both sets of paths hold each path once.
    pub open spec fn well_formed(&self) -> bool {
        &&& distinct_paths(self.new_files@)
        &&& distinct_paths(self.files_to_update@)
    }

    pub fn new(new_files: Vec<String>, files_to_update: Vec<String>) -> (r: Self)
        ensures
            r.new_files@ == new_files@,
            r.files_to_update@ == files_to_update@,
    {
        Self { new_files, files_to_update }
    }
}

/// What is to be done with a file.
#[derive(Debug, Clone, Copy, PartialEq, Eq, Structural)]
pub enum FileType {
    New,
    Update,
    Delete,
    Move,
}

/// A file and its content.
#[derive(Debug)]
pub struct FilePackage {
    pub path: String,
    pub file_type: FileType,
    pub content: Vec<u8>,
}

impl FilePackage {
    pub fn new(path: String, file_type: FileType, content: Vec<u8>) -> (r: Self)
        ensures
            r.path@ == path@,
            r.file_type == file_type,
            r.content@ == content@,
    {
        Self { path, file_type, content }
    }
}

/// The outcome of comparing the local files with the remote ones.
#[derive(Debug)]
pub struct GroupedFiles {
    pub new_files: Vec<String>,
    pub files_to_update: Vec<String>,
    /// Pairs `(from, to)`: the local file at `from` has the content of the
    /// remote file at `to`.
    pub files_to_move: Vec<(String, String)>,
    pub files_to_delete: Vec<String>,
}

impl GroupedFiles {
    /// Each of the four sets holds each of its elements once.
    pub open spec fn well_formed(&self) -> bool {
        &&& distinct_paths(self.new_files@)
        &&& distinct_paths(self.files_to_update@)
        &&& distinct_pairs(self.files_to_move@)
        &&& distinct_paths(self.files_to_delete@)
    }

    pub fn new(
        new_files: Vec<String>,
        files_to_update: Vec<String>,
        files_to_move: Vec<(String, String)>,
        files_to_delete: Vec<String>,
    ) -> (r: Self)
        ensures
            r.new_files@ == new_files@,
            r.files_to_update@ == files_to_update@,
            r.files_to_move@ == files_to_move@,
            r.files_to_delete@ == files_to_delete@,
    {
        Self { new_files, files_to_update, files_to_move, files_to_delete }
    }
}

/// The signal that closes a transfer.
#[derive(Debug, Clone, Copy, PartialEq, Eq, Structural)]
pub struct EndOfTransfer {}

/// The signal that opens a transfer of files: how many files follow and
/// how many bytes they hold together.
#[derive(Debug, Clone, Copy, PartialEq, Eq, Structural)]
pub struct StartOfFileTransfer {
    pub num_files: usize,
    pub total_size: u64,
}

impl StartOfFileTransfer {
    pub fn new(num_files: usize, total_size: u64) -> (r: Self)
        ensures
            r.num_files == num_files,
            r.total_size == total_size,
    {
        Self { num_files, total_size }
    }
}

/// The group a transferred file belongs to.
#[derive(Debug, Clone, Copy, PartialEq, Eq, Structural)]
pub enum FileGroup {
    New,
    Update,
    Delete,
    Move,
}

/// The signal that opens one file: its path, its group and the number of
/// chunks of its content that follow.
#[derive(Debug)]
pub struct StartOfFile {
    pub path: String,
    pub file_group: FileGroup,
    pub num_chunks: usize,
}

impl StartOfFile {
    pub fn new(path: String, file_group: FileGroup, num_chunks: usize) -> (r: Self)
        ensures
            r.path@ == path@,
            r.file_group == file_group,
            r.num_chunks == num_chunks,
    {
        Self { path, file_group, num_chunks }
    }
}

/// The signal that closes one file.
#[derive(Debug, Clone, Copy, PartialEq, Eq, Structural)]
pub struct EndOfFile {}

/// The signal that closes a transfer of files.
#[derive(Debug, Clone, Copy, PartialEq, Eq, Structural)]
pub struct EndOfFileTransfer {}

} // verus!
