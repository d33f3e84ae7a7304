//! From the bytes of a downloaded archive to rows in the dataset.
//!
//! An archive is unpacked, each of its files is decoded from Shift_JIS, and
//! the lines of the files are taken in. The first step that fails ends the
//! run.

use crate::aggregate::process_csv_files;
use crate::encording_util::decodable_len;
use crate::encording_util::shift_jis_text;
use crate::encording_util::sjis_to_uft8;
use crate::model::aggregated;
use crate::model::registry_lines;
use crate::model::ZipDatasetView;
use crate::row::CSVType;
use crate::store::ZipDataset;
use crate::text::views;
use crate::zip_util::file_views;
use crate::zip_util::unzip_file;
use crate::zip_util::unzipped;
use vstd::prelude::*;

verus! {

/// How the taking in of one registry ended.
#[derive(Clone, Copy, Debug, PartialEq, Eq, Structural)]
pub enum RegistryOutcome {
    /// The archive could not be unpacked. The dataset is untouched.
    UnzipFailed,
    /// A file of the archive could not be decoded. The dataset is untouched.
    ConvertFailed,
    /// A line was refused. The rows before it are in the dataset.
    ProcessFailed,
    /// Every line of every file is in the dataset.
    Completed,
}

/// The texts of the files of an archive, if each is short enough to be
/// decoded.
pub open spec fn decoded_texts(files: Seq<(Seq<char>, Seq<u8>)>) -> Option<Seq<Seq<char>>> {
    if forall|i: int| 0 <= i < files.len() ==> (#[trigger] files[i]).1.len() <= decodable_len() {
        Some(Seq::new(files.len(), |i: int| shift_jis_text(files[i].1)))
    } else {
        None
    }
}

/// How taking in the archive `archive` ends, and the dataset that it
/// leaves.
pub open spec fn registry_outcome(
    dataset: ZipDatasetView,
    archive: Seq<u8>,
    type_seletor: CSVType,
) -> (RegistryOutcome, ZipDatasetView) {
    match unzipped(archive) {
        None => (RegistryOutcome::UnzipFailed, dataset),
        Some(files) => match decoded_texts(files) {
            None => (RegistryOutcome::ConvertFailed, dataset),
            Some(texts) => {
                let run = aggregated(dataset, registry_lines(texts), type_seletor);
                if run.complete {
                    (RegistryOutcome::Completed, run.dataset)
                } else {
                    (RegistryOutcome::ProcessFailed, run.dataset)
                }
            },
        },
    }
}

/// Takes the registry in the archive `archive` into `entire_zip_data`.
pub fn process_zipdata(type_seletor: CSVType, archive: Vec<u8>, entire_zip_data: &mut ZipDataset) -> (outcome:
    RegistryOutcome)
    requires
        old(entire_zip_data).wf(),
    ensures
        final(entire_zip_data).wf(),
        outcome == registry_outcome(old(entire_zip_data)@, archive@, type_seletor).0,
        final(entire_zip_data)@ == registry_outcome(
            old(entire_zip_data)@,
            archive@,
            type_seletor,
        ).1,
{
    let ghost packed = archive@;
    let files = match unzip_file(archive) {
        Ok(files) => files,
        Err(_) => {
            return RegistryOutcome::UnzipFailed;
        },
    };
    let ghost contents = file_views(files@);
    let mut texts: Vec<String> = Vec::new();
    let mut i: usize = 0;
    while i < files.len()
        invariant
            i <= files.len(),
            *entire_zip_data == *old(entire_zip_data),
            entire_zip_data.wf(),
            packed == archive@,
            unzipped(packed) == Some(contents),
            contents == file_views(files@),
            texts@.len() == i,
            forall|k: int| 0 <= k < i ==> (#[trigger] contents[k]).1.len() <= decodable_len(),
            forall|k: int| 0 <= k < i ==> (#[trigger] texts@[k])@ == shift_jis_text(contents[k].1),
        decreases files.len() - i,
    {
        assert(contents[i as int] == files@[i as int]@);
        match sjis_to_uft8(&files[i].data) {
            Ok(text) => {
                texts.push(text);
            },
            Err(_) => {
                assert(contents[i as int].1.len() > decodable_len());
                return RegistryOutcome::ConvertFailed;
            },
        }
        i += 1;
    }
    assert(views(texts@) =~= decoded_texts(contents).unwrap());
    match process_csv_files(type_seletor, &texts, entire_zip_data) {
        Ok(()) => RegistryOutcome::Completed,
        Err(_) => RegistryOutcome::ProcessFailed,
    }
}

/// Takes the nationwide registry in the archive `archive` into
/// `entire_zip_data`.
pub fn process_ken_all_zipdata(archive: Vec<u8>, entire_zip_data: &mut ZipDataset) -> (outcome:
    RegistryOutcome)
    requires
        old(entire_zip_data).wf(),
    ensures
        final(entire_zip_data).wf(),
        outcome == registry_outcome(old(entire_zip_data)@, archive@, CSVType::CsvtKenAll).0,
        final(entire_zip_data)@ == registry_outcome(
            old(entire_zip_data)@,
            archive@,
            CSVType::CsvtKenAll,
        ).1,
{
    process_zipdata(CSVType::CsvtKenAll, archive, entire_zip_data)
}

/// Takes the office registry in the archive `archive` into
/// `entire_zip_data`.
pub fn process_jigyosyo_zipdata(archive: Vec<u8>, entire_zip_data: &mut ZipDataset) -> (outcome:
    RegistryOutcome)
    requires
        old(entire_zip_data).wf(),
    ensures
        final(entire_zip_data).wf(),
        outcome == registry_outcome(old(entire_zip_data)@, archive@, CSVType::CsvtJigyosho).0,
        final(entire_zip_data)@ == registry_outcome(
            old(entire_zip_data)@,
            archive@,
            CSVType::CsvtJigyosho,
        ).1,
{
    process_zipdata(CSVType::CsvtJigyosho, archive, entire_zip_data)
}

} // verus!
