//! Taking a whole registry into the dataset, line by line.

use crate::generic_error::GenericError;
use crate::generic_error::GenericResult;
use crate::model::aggregated;
use crate::model::lemma_aggregated_stops;
use crate::model::registry_lines;
use crate::row::normalize_chars;
use crate::row::CSVType;
use crate::store::ZipDataset;
use crate::text::lines_of;
use crate::text::to_chars;
use crate::text::views;
use vstd::prelude::*;

verus! {

/// Takes `lines` into `result`, one after the other and in their order.
/// Stops at the first line that has too few fields or too short a postal
/// code: the rows before it stay in `result`, and the run has failed.
pub fn aggregate_lines(
    type_seletor: CSVType,
    lines: &Vec<Vec<char>>,
    result: &mut ZipDataset,
) -> (done: GenericResult<()>)
    requires
        old(result).wf(),
    ensures
        final(result).wf(),
        final(result)@ == aggregated(old(result)@, views(lines@), type_seletor).dataset,
        done is Ok <==> aggregated(old(result)@, views(lines@), type_seletor).complete,
        done matches Err(e) ==> e == GenericError::MalformedRow,
{
    let ghost all = views(lines@);
    let mut i: usize = 0;
    assert(all.take(0) =~= Seq::empty());
    while i < lines.len()
        invariant
            i <= lines.len(),
            all == views(lines@),
            result.wf(),
            aggregated(old(result)@, all.take(i as int), type_seletor).complete,
            result@ == aggregated(old(result)@, all.take(i as int), type_seletor).dataset,
        decreases lines.len() - i,
    {
        assert(all.take(i + 1).drop_last() == all.take(i as int));
        assert(all.take(i + 1).last() == lines@[i as int]@);
        assert(all[i as int] == lines@[i as int]@);
        let row = match normalize_chars(&lines[i], type_seletor) {
            Ok(row) => row,
            Err(e) => {
                proof {
                    lemma_aggregated_stops(old(result)@, all, type_seletor, i as int);
                }
                return Err(e);
            },
        };
        match result.add_row(row, type_seletor) {
            Ok(()) => {},
            Err(e) => {
                proof {
                    lemma_aggregated_stops(old(result)@, all, type_seletor, i as int);
                }
                return Err(e);
            },
        }
        i += 1;
    }
    assert(all.take(i as int) == all);
    Ok(())
}

/// Takes a registry into `result`. `files` holds the text of each file of
/// the registry; their lines are taken in file by file and, within a file,
/// from top to bottom. Stops at the first line that has too few fields or
/// too short a postal code: the rows before it stay in `result`, and the
/// run has failed.
pub fn process_csv_files(
    type_seletor: CSVType,
    files: &Vec<String>,
    result: &mut ZipDataset,
) -> (done: GenericResult<()>)
    requires
        old(result).wf(),
    ensures
        final(result).wf(),
        final(result)@ == aggregated(
            old(result)@,
            registry_lines(views(files@)),
            type_seletor,
        ).dataset,
        done is Ok <==> aggregated(
            old(result)@,
            registry_lines(views(files@)),
            type_seletor,
        ).complete,
        done matches Err(e) ==> e == GenericError::MalformedRow,
{
    let ghost texts = views(files@);
    let mut lines: Vec<Vec<char>> = Vec::new();
    let mut i: usize = 0;
    assert(texts.take(0) =~= Seq::empty());
    assert(views(lines@) =~= Seq::empty());
    while i < files.len()
        invariant
            i <= files.len(),
            texts == views(files@),
            views(lines@) == registry_lines(texts.take(i as int)),
        decreases files.len() - i,
    {
        let chars = to_chars(files[i].as_str());
        let mut more = lines_of(&chars);
        proof {
            assert(texts.take(i + 1).drop_last() == texts.take(i as int));
            assert(texts.take(i + 1).last() == files@[i as int]@);
            assert(views(lines@ + more@) =~= views(lines@) + views(more@));
        }
        lines.append(&mut more);
        i += 1;
    }
    assert(texts.take(i as int) == texts);
    aggregate_lines(type_seletor, &lines, result)
}

} // verus!
