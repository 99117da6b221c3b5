//! The transfer of requested files from a pusher to a puller.
//!
//! The pusher announces the transfer (number of files, total size), then
//! sends each file as a header, its content in chunks, and a closing
//! signal, and closes the transfer. The puller follows the same order with
//! the state machine of `receive_step`: the caller reads a message, parses
//! it as `expected_message` says, and performs the action that comes back.
use vstd::prelude::*;

use crate::packages::{
    str_views, EndOfFile, EndOfFileTransfer, FileGroup, RequestedFiles, StartOfFile,
    StartOfFileTransfer,
};

verus! {

/// The size of the chunks in which a file is read.
pub const FILE_READ_CHUNK_SIZE: usize = 4096;

/// The size of the chunks in which a file is announced and sent.
pub const FILE_TRANSFER_CHUNK_SIZE: usize = 4096;

/// The number of chunks of `FILE_TRANSFER_CHUNK_SIZE` bytes that hold
/// `file_size` bytes, the last chunk possibly shorter.
pub open spec fn spec_count_chunks(file_size: nat) -> nat {
    (file_size + (FILE_TRANSFER_CHUNK_SIZE - 1)) as nat / (FILE_TRANSFER_CHUNK_SIZE as nat)
}

/// The number of chunks in which a file of `file_size` bytes is sent.
pub fn count_chunks(file_size: usize) -> (r: usize)
    ensures
        r == spec_count_chunks(file_size as nat),
{
    if file_size == 0 {
        0
    } else {
        let full = file_size / FILE_TRANSFER_CHUNK_SIZE;
        let rest = file_size % FILE_TRANSFER_CHUNK_SIZE;
        if rest == 0 {
            full
        } else {
            full + 1
        }
    }
}

/// The length of the next chunk to send while `remaining` bytes of a file
/// are left: a whole chunk, or what is left if that is less.
pub open spec fn spec_next_chunk_len(remaining: nat) -> nat {
    if remaining <= FILE_TRANSFER_CHUNK_SIZE {
        remaining
    } else {
        FILE_TRANSFER_CHUNK_SIZE as nat
    }
}

/// The number of bytes that the sender reads and sends next, with
/// `remaining` bytes of the file left; sending chunks of these lengths until
/// nothing is left sends the chunks that the header announces.
pub fn next_chunk_len(remaining: u64) -> (r: usize)
    ensures
        r == spec_next_chunk_len(remaining as nat),
        remaining > 0 ==> r > 0,
{
    if remaining <= FILE_TRANSFER_CHUNK_SIZE as u64 {
        remaining as usize
    } else {
        FILE_TRANSFER_CHUNK_SIZE
    }
}

/// What the caller knows of a requested path: whether it is a regular file,
/// and its length.
#[derive(Debug, Clone, Copy, PartialEq, Eq, Structural)]
pub struct FileStat {
    pub is_file: bool,
    pub len: u64,
}

/// The sum of the lengths of the regular files among `stats`.
pub open spec fn spec_total_size(stats: Seq<FileStat>) -> nat
    decreases stats.len(),
{
    if stats.len() == 0 {
        0
    } else {
        spec_total_size(stats.drop_last()) + if stats.last().is_file {
            stats.last().len as nat
        } else {
            0
        }
    }
}

/// The number of bytes that the regular files among `stats` hold.
pub fn count_total_size(stats: &Vec<FileStat>) -> (r: u64)
    requires
        spec_total_size(stats@) <= u64::MAX,
    ensures
        r == spec_total_size(stats@),
{
    let mut total_bytes: u64 = 0;
    let mut i: usize = 0;
    while i < stats.len()
        invariant
            0 <= i <= stats@.len(),
            spec_total_size(stats@) <= u64::MAX,
            total_bytes == spec_total_size(stats@.take(i as int)),
        decreases stats@.len() - i,
    {
        proof {
            assert(stats@.take(i + 1).drop_last() =~= stats@.take(i as int));
            lemma_total_size_prefix(stats@, i + 1);
        }
        if stats[i].is_file {
            total_bytes = total_bytes + stats[i].len;
        }
        i += 1;
    }
    assert(stats@.take(i as int) =~= stats@);
    total_bytes
}

/// The total size of a prefix is at most the total size.
pub proof fn lemma_total_size_prefix(stats: Seq<FileStat>, k: int)
    requires
        0 <= k <= stats.len(),
    ensures
        spec_total_size(stats.take(k)) <= spec_total_size(stats),
    decreases stats.len() - k,
{
    if k < stats.len() {
        lemma_total_size_prefix(stats, k + 1);
        assert(stats.take(k + 1).drop_last() =~= stats.take(k));
    } else {
        assert(stats.take(k) =~= stats);
    }
}

/// How the total grows: no files hold nothing; appending a regular file of
/// `len` bytes adds exactly `len`; appending anything else adds nothing;
/// the total of two lists is the sum of their totals.
pub proof fn lemma_total_size_laws(stats: Seq<FileStat>, more: Seq<FileStat>, len: u64)
    ensures
        spec_total_size(Seq::<FileStat>::empty()) == 0,
        spec_total_size(stats.push(FileStat { is_file: true, len })) == spec_total_size(stats)
            + len,
        spec_total_size(stats.push(FileStat { is_file: false, len })) == spec_total_size(stats),
        spec_total_size(stats + more) == spec_total_size(stats) + spec_total_size(more),
    decreases more.len(),
{
    assert(stats.push(FileStat { is_file: true, len }).drop_last() =~= stats);
    assert(stats.push(FileStat { is_file: false, len }).drop_last() =~= stats);
    if more.len() == 0 {
        assert(stats + more =~= stats);
    } else {
        lemma_total_size_laws(stats, more.drop_last(), len);
        assert((stats + more).drop_last() =~= stats + more.drop_last());
        assert((stats + more).last() == more.last());
    }
}

/// The paths of the requested files in the order in which they are sent:
/// the new files, then the files to update.
pub fn files_in_send_order(requested_files: &RequestedFiles) -> (r: Vec<String>)
    ensures
        str_views(r@) == str_views(requested_files.new_files@) + str_views(
            requested_files.files_to_update@,
        ),
{
    let mut r: Vec<String> = Vec::new();
    let mut i: usize = 0;
    while i < requested_files.new_files.len()
        invariant
            0 <= i <= requested_files.new_files@.len(),
            r@ == requested_files.new_files@.take(i as int),
        decreases requested_files.new_files@.len() - i,
    {
        r.push(requested_files.new_files[i].clone());
        assert(r@ =~= requested_files.new_files@.take(i + 1));
        i += 1;
    }
    assert(requested_files.new_files@.take(i as int) =~= requested_files.new_files@);
    let mut j: usize = 0;
    while j < requested_files.files_to_update.len()
        invariant
            0 <= j <= requested_files.files_to_update@.len(),
            r@ == requested_files.new_files@ + requested_files.files_to_update@.take(j as int),
        decreases requested_files.files_to_update@.len() - j,
    {
        r.push(requested_files.files_to_update[j].clone());
        assert(r@ =~= requested_files.new_files@ + requested_files.files_to_update@.take(j + 1));
        j += 1;
    }
    assert(requested_files.files_to_update@.take(j as int) =~= requested_files.files_to_update@);
    assert(str_views(r@) =~= str_views(requested_files.new_files@) + str_views(
        requested_files.files_to_update@,
    ));
    r
}

/// The signal that opens the transfer of the requested files, whose
/// regular files hold `total_size` bytes.
pub fn start_of_transfer(requested_files: &RequestedFiles, total_size: u64) -> (r:
    StartOfFileTransfer)
    requires
        requested_files.new_files@.len() + requested_files.files_to_update@.len() <= usize::MAX,
    ensures
        r.num_files == requested_files.new_files@.len() + requested_files.files_to_update@.len(),
        r.total_size == total_size,
{
    let num_files = requested_files.files_to_update.len() + requested_files.new_files.len();
    StartOfFileTransfer::new(num_files, total_size)
}

/// The header of a sent file of `file_size` bytes. Every sent file, new or
/// to be updated, is announced in the group `New`.
pub fn start_of_file(path: &String, file_size: usize) -> (r: StartOfFile)
    ensures
        r.path@ == path@,
        r.file_group == FileGroup::New,
        r.num_chunks == spec_count_chunks(file_size as nat),
{
    StartOfFile::new(path.clone(), FileGroup::New, count_chunks(file_size))
}

} // verus!
