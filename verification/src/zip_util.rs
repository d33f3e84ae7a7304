//! The files of a zip archive that is held in memory.

use crate::generic_error::GenericError;
use crate::generic_error::GenericResult;
use std::io::Cursor;
use std::io::Read;
use vstd::prelude::*;
use zip::result::ZipError;
use zip::ZipArchive;

verus! {

/// `zip::ZipArchive`, an archive that has been opened. Nothing is known of
/// what is inside a value but what `archive_contents` says.
#[verifier::external_type_specification]
#[verifier::external_body]
#[verifier::reject_recursive_types(R)]
pub struct ExZipArchive<R>(ZipArchive<R>);

/// `std::io::Cursor`, which lets bytes in memory be read like a file.
#[verifier::external_type_specification]
#[verifier::external_body]
#[verifier::reject_recursive_types(T)]
pub struct ExCursor<T>(Cursor<T>);

/// `zip::result::ZipError`, the error of the zip crate. It is carried, and
/// never looked into.
#[verifier::external_type_specification]
#[verifier::external_body]
pub struct ExZipError(ZipError);

/// One file taken out of an archive.
#[derive(Debug)]
pub struct UnzippedFile {
    pub name: String,
    pub data: Vec<u8>,
}

impl View for UnzippedFile {
    type V = (Seq<char>, Seq<u8>);

    open spec fn view(&self) -> (Seq<char>, Seq<u8>) {
        (self.name@, self.data@)
    }
}

/// What an archive holds: for each of its files, in the order of its
/// directory, the name and the unpacked bytes, or nothing where the file
/// cannot be unpacked.
pub uninterp spec fn archive_contents(archive: ZipArchive<Cursor<Vec<u8>>>) -> Seq<
    Option<(Seq<char>, Seq<u8>)>,
>;

/// What the bytes of an archive hold, or nothing where they are no archive
/// that can be opened.
pub uninterp spec fn zip_contents(bytes: Seq<u8>) -> Option<Seq<Option<(Seq<char>, Seq<u8>)>>>;

/// `zip::ZipArchive::new` on the bytes, which reads the archive's
/// directory. It succeeds exactly on the bytes that `zip_contents` knows,
/// and the archive then holds what `zip_contents` says.
#[verifier::external_body]
fn open_archive(bytes: Vec<u8>) -> (opened: Result<ZipArchive<Cursor<Vec<u8>>>, ZipError>)
    ensures
        match opened {
            Ok(archive) => zip_contents(bytes@) == Some(archive_contents(archive)),
            Err(_) => zip_contents(bytes@) is None,
        },
{
    ZipArchive::new(Cursor::new(bytes))
}

/// `zip::ZipArchive::len`: the number of files in the archive's directory.
#[verifier::external_body]
fn archive_len(archive: &ZipArchive<Cursor<Vec<u8>>>) -> (len: usize)
    ensures
        len == archive_contents(*archive).len(),
{
    archive.len()
}

/// `zip::ZipArchive::by_index_decrypt` with an empty password, then the
/// file's `name` and `read_to_end`. For a file that is not encrypted this
/// does what `by_index` does, but for one case: where `by_index` panics (a
/// file that carries the extra field of AES without being marked as
/// encrypted) an error comes back. A file that is encrypted is tried with
/// the empty password. What comes back is a function of the archive and
/// the index alone, and is what `archive_contents` has at `index`; reading
/// leaves what the archive holds as it is.
#[verifier::external_body]
fn read_entry(archive: &mut ZipArchive<Cursor<Vec<u8>>>, index: usize) -> (entry: Result<
    UnzippedFile,
    ZipError,
>)
    requires
        index < archive_contents(*old(archive)).len(),
    ensures
        archive_contents(*final(archive)) == archive_contents(*old(archive)),
        match entry {
            Ok(file) => archive_contents(*old(archive))[index as int] == Some(file@),
            Err(_) => archive_contents(*old(archive))[index as int] is None,
        },
{
    let mut file = match archive.by_index_decrypt(index, &[])? {
        Ok(file) => file,
        Err(_) => return Err(ZipError::UnsupportedArchive(ZipError::PASSWORD_REQUIRED)),
    };
    let mut data = Vec::new();
    file.read_to_end(&mut data)?;
    Ok(UnzippedFile { name: file.name().to_string(), data })
}

/// The files that come out of an archive whose entries are `entries`: all
/// of them, in order, if every one can be unpacked.
pub open spec fn all_unpacked(entries: Seq<Option<(Seq<char>, Seq<u8>)>>) -> Option<
    Seq<(Seq<char>, Seq<u8>)>,
> {
    if forall|i: int| 0 <= i < entries.len() ==> (#[trigger] entries[i]) is Some {
        Some(Seq::new(entries.len(), |i: int| entries[i].unwrap()))
    } else {
        None
    }
}

/// The files that come out of the bytes of an archive.
pub open spec fn unzipped(bytes: Seq<u8>) -> Option<Seq<(Seq<char>, Seq<u8>)>> {
    match zip_contents(bytes) {
        Some(entries) => all_unpacked(entries),
        None => None,
    }
}

/// The texts of a list of files.
pub open spec fn file_views(files: Seq<UnzippedFile>) -> Seq<(Seq<char>, Seq<u8>)> {
    Seq::new(files.len(), |i: int| files[i]@)
}

/// Puts a file that was read behind those already taken out, or reports
/// that it could not be read.
pub fn keep_entry(files: &mut Vec<UnzippedFile>, entry: Result<UnzippedFile, ZipError>) -> (done:
    GenericResult<()>)
    ensures
        match entry {
            Ok(file) => done is Ok && final(files)@ == old(files)@.push(file),
            Err(_) => (done matches Err(e) && e == GenericError::IOFailure) && final(files)@ == old(
                files,
            )@,
        },
{
    match entry {
        Ok(file) => {
            files.push(file);
            Ok(())
        },
        Err(_) => Err(GenericError::IOFailure),
    }
}

/// Takes every file out of a zip archive, in the order of the archive's
/// directory. Fails if the bytes are no archive that can be opened, or if
/// one of the files cannot be unpacked.
pub fn unzip_file(zip_file: Vec<u8>) -> (files: GenericResult<Vec<UnzippedFile>>)
    ensures
        match unzipped(zip_file@) {
            Some(contents) => files matches Ok(v) && file_views(v@) == contents,
            None => files matches Err(e) && e == GenericError::IOFailure,
        },
{
    let mut archive = match open_archive(zip_file) {
        Ok(archive) => archive,
        Err(_) => {
            return Err(GenericError::IOFailure);
        },
    };
    let ghost entries = archive_contents(archive);
    let mut result: Vec<UnzippedFile> = Vec::new();
    let count: usize = archive_len(&archive);
    let mut i: usize = 0;
    while i < count
        invariant
            i <= count,
            count == entries.len(),
            archive_contents(archive) == entries,
            zip_contents(zip_file@) == Some(entries),
            result@.len() == i,
            forall|k: int| 0 <= k < i ==> entries[k] == Some((#[trigger] result@[k])@),
        decreases count - i,
    {
        let entry = read_entry(&mut archive, i);
        match keep_entry(&mut result, entry) {
            Ok(()) => {},
            Err(e) => {
                assert(entries[i as int] is None);
                return Err(e);
            },
        }
        i += 1;
    }
    assert forall|k: int| 0 <= k < entries.len() implies (#[trigger] entries[k]) is Some by {
        assert(entries[k] == Some(result@[k]@));
    }
    assert(file_views(result@) =~= all_unpacked(entries).unwrap());
    Ok(result)
}

} // verus!
