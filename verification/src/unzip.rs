//! Unpacking a dropped `.zip` into named files, entry by entry, with the
//! archive reader of the `zip` crate.
use std::io::Cursor;
use std::io::Read;
use vstd::prelude::*;

use zip::ZipArchive;

use crate::drop::files_view;

verus! {

/// `std::io::Cursor`, the in-memory reader an archive is opened over.
#[verifier::external_type_specification]
#[verifier::external_body]
#[verifier::reject_recursive_types(T)]
pub struct ExCursor<T>(Cursor<T>);

/// `zip::ZipArchive`, an opened archive; opaque here, known by the bytes it
/// reads.
#[verifier::external_type_specification]
#[verifier::external_body]
#[verifier::reject_recursive_types(R)]
pub struct ExZipArchive<R>(ZipArchive<R>);

/// What the `zip` crate hands out of an archive entry: whether it is a
/// directory, its name where it decodes, and its contents where they read.
pub type EntryView = (bool, Option<Seq<char>>, Option<Seq<u8>>);

/// The bytes an archive reads from.
pub uninterp spec fn archive_bytes(archive: ZipArchive<Cursor<Vec<u8>>>) -> Seq<u8>;

/// Whether `zip::ZipArchive::new` finds an archive in these bytes.
pub uninterp spec fn archive_opens(bytes: Seq<u8>) -> bool;

/// How many entries `zip::ZipArchive::len` counts in the archive read from
/// these bytes.
pub uninterp spec fn entry_count(bytes: Seq<u8>) -> usize;

/// The entry that `zip::ZipArchive::by_index` hands out at an index of the
/// archive read from these bytes, or `None` where it refuses it.
pub uninterp spec fn archive_entry(bytes: Seq<u8>, index: usize) -> Option<EntryView>;

/// The model of a handed-out entry.
pub open spec fn entry_view(entry: Option<(bool, Option<String>, Option<Vec<u8>>)>) -> Option<EntryView> {
    match entry {
        Some((dir, name, data)) => Some(
            (
                dir,
                match name {
                    Some(n) => Some(n@),
                    None => None,
                },
                match data {
                    Some(d) => Some(d@),
                    None => None,
                },
            ),
        ),
        None => None,
    }
}

/// Opens bytes held in memory as an archive with `zip::ZipArchive::new`
/// over a cursor; `None` where the crate finds no archive. Claimed: success
/// is `archive_opens` of the bytes, and the archive reads those bytes.
#[verifier::external_body]
fn open_archive(bytes: Vec<u8>) -> (r: Option<ZipArchive<Cursor<Vec<u8>>>>)
    ensures
        r is Some == archive_opens(bytes@),
        r matches Some(a) ==> archive_bytes(a) == bytes@,
{
    ZipArchive::new(Cursor::new(bytes)).ok()
}

/// The number of entries, `zip::ZipArchive::len`. Claimed: it is
/// `entry_count` of the bytes the archive reads.
#[verifier::external_body]
fn archive_len(archive: &ZipArchive<Cursor<Vec<u8>>>) -> (r: usize)
    ensures
        r == entry_count(archive_bytes(*archive)),
{
    archive.len()
}

/// The entry at an index, `zip::ZipArchive::by_index`, handed out as plain
/// values: `ZipFile::is_dir`, its name from `ZipFile::name` (`None` where it
/// does not decode) and its contents read to the end (`None` where reading
/// fails). Claimed: the result is `archive_entry` of the archive's bytes and
/// the index, and the archive still reads the same bytes.
#[verifier::external_body]
fn entry_at(archive: &mut ZipArchive<Cursor<Vec<u8>>>, index: usize) -> (r: Option<(bool, Option<String>, Option<Vec<u8>>)>)
    ensures
        archive_bytes(*final(archive)) == archive_bytes(*old(archive)),
        entry_view(r) == archive_entry(archive_bytes(*old(archive)), index),
{
    let mut entry = match archive.by_index(index) {
        Ok(e) => e,
        Err(_) => return None,
    };
    let name = match entry.name() {
        Ok(n) => Some(n.to_string()),
        Err(_) => None,
    };
    let mut data: Vec<u8> = Vec::new();
    let read = match entry.read_to_end(&mut data) {
        Ok(_) => Some(data),
        Err(_) => None,
    };
    Some((entry.is_dir(), name, read))
}

/// The file an entry unpacks to: a readable file with a name, not a
/// directory.
pub open spec fn unpacked(entry: Option<EntryView>) -> Option<(Seq<char>, Seq<u8>)> {
    match entry {
        Some((false, Some(name), Some(data))) => Some((name, data)),
        _ => None,
    }
}

/// The files unpacked from the first `k` entries of the archive read from
/// these bytes, in archive order.
pub open spec fn unpacked_files(bytes: Seq<u8>, k: int) -> Seq<(Seq<char>, Seq<u8>)>
    decreases k,
{
    if k <= 0 {
        Seq::empty()
    } else {
        let before = unpacked_files(bytes, k - 1);
        match unpacked(archive_entry(bytes, (k - 1) as usize)) {
            Some(file) => before.push(file),
            None => before,
        }
    }
}

/// Unpacks an archive into its files, in archive order, leaving out
/// directories and the entries that cannot be opened, named or read; `None`
/// where the bytes hold no archive.
pub fn unzip(bytes: Vec<u8>) -> (r: Option<Vec<(String, Vec<u8>)>>)
    ensures
        r is Some == archive_opens(bytes@),
        r matches Some(files) ==> files_view(files@) == unpacked_files(bytes@, entry_count(bytes@) as int),
{
    let ghost source = bytes@;
    let mut archive = match open_archive(bytes) {
        Some(a) => a,
        None => return None,
    };
    let count = archive_len(&archive);
    let mut out: Vec<(String, Vec<u8>)> = Vec::new();
    let mut index: usize = 0;
    while index < count
        invariant
            index <= count,
            count == entry_count(source),
            archive_bytes(archive) == source,
            files_view(out@) == unpacked_files(source, index as int),
        decreases count - index,
    {
        let entry = entry_at(&mut archive, index);
        let ghost before = out@;
        match entry {
            Some((false, Some(name), Some(data))) => {
                out.push((name, data));
                assert(files_view(out@) =~= files_view(before).push((name@, data@)));
            },
            _ => {},
        }
        index += 1;
    }
    Some(out)
}

} // verus!
