//! What holds of every dataset, whatever rows it is built from: a pair keeps
//! the code it was given, and an entry keeps the code it was made with.

use crate::emit::document_name;
use crate::emit::step_for;
use crate::emit::upper_zipcode_text;
use crate::model::accepted;
use crate::model::aggregated;
use crate::model::Aggregation;
use crate::model::lemma_aggregated_wf;
use crate::model::lemma_complete_iff_all_accepted;
use crate::model::pair_of;
use crate::model::payload;
use crate::model::OneLowerZipStoreView;
use crate::model::OneUpperZipStoreView;
use crate::model::PrefAndMunicView;
use crate::model::ZipDatasetView;
use crate::row::clean_town_area;
use crate::row::normalized;
use crate::registry::registry_outcome;
use crate::row::strip_quotes;
use crate::text::lemma_remove_all_adds_nothing;
use crate::text::lemma_remove_all_of_char;
use crate::text::remove_all;
use crate::text::split;
use crate::row::CSVType;
use crate::row::ZipRowView;
use crate::text::index_of;
use crate::text::lemma_index_of;
use crate::text::lemma_index_of_bounds;
use crate::text::lemma_index_of_push;
use vstd::prelude::*;

verus! {

/// The first occurrence of `x` in `s` is its first occurrence in every
/// sequence that starts with `s`.
pub proof fn lemma_index_of_extended<T>(s: Seq<T>, longer: Seq<T>, x: T)
    requires
        s.is_prefix_of(longer),
        s.contains(x),
    ensures
        longer.contains(x),
        index_of(longer, x) == index_of(s, x),
{
    lemma_index_of_bounds(s, x);
    let i = index_of(s, x);
    assert forall|j: int| 0 <= j < i implies longer[j] != x by {
        assert(longer[j] == s[j]);
    }
    assert(longer[i] == s[i]);
    lemma_index_of(longer, x, i);
}

/// The store of `upper_zipcode` after one more row: the store it was, with
/// the row added if the row belongs there.
pub proof fn lemma_store_after_row(
    dataset: ZipDatasetView,
    row: ZipRowView,
    type_seletor: CSVType,
    upper_zipcode: Seq<char>,
)
    requires
        dataset.wf(),
    ensures
        upper_zipcode == row.zip_code.take(3) ==> dataset.with_row(row, type_seletor).store(
            upper_zipcode,
        ) == Some(
            dataset.store_or_empty(upper_zipcode).with_row(
                row.zip_code.skip(3),
                row,
                type_seletor,
            ),
        ),
        upper_zipcode != row.zip_code.take(3) ==> dataset.with_row(row, type_seletor).store(
            upper_zipcode,
        ) == dataset.store(upper_zipcode),
{
    let upper = row.zip_code.take(3);
    lemma_index_of_bounds(dataset.upper_zipcodes, upper);
    lemma_index_of_bounds(dataset.upper_zipcodes, upper_zipcode);
    lemma_index_of_push(dataset.upper_zipcodes, upper, upper_zipcode);
}

/// One more row only adds to the pairs of a store: the pairs that
/// `upper_zipcode` had are the first of those it has afterwards. The pair of
/// the row is among the pairs of the row's own store afterwards, under the
/// code that the row resolved to.
pub proof fn lemma_row_keeps_pairs(
    dataset: ZipDatasetView,
    row: ZipRowView,
    type_seletor: CSVType,
    upper_zipcode: Seq<char>,
)
    requires
        dataset.wf(),
    ensures
        dataset.store_or_empty(upper_zipcode).pref_and_munics.is_prefix_of(
            dataset.with_row(row, type_seletor).store_or_empty(upper_zipcode).pref_and_munics,
        ),
        upper_zipcode == row.zip_code.take(3) ==> {
            let after = dataset.with_row(row, type_seletor).store_or_empty(upper_zipcode);
            &&& after.pref_and_munics.contains(pair_of(row))
            &&& after.code_for(pair_of(row)) == dataset.resolved_code(row)
        },
{
    lemma_store_after_row(dataset, row, type_seletor, upper_zipcode);
    let before = dataset.store_or_empty(upper_zipcode);
    let pair = pair_of(row);
    lemma_index_of_bounds(before.pref_and_munics, pair);
    lemma_index_of_push(before.pref_and_munics, pair, pair);
    if upper_zipcode == row.zip_code.take(3) {
        let after = before.with_row(row.zip_code.skip(3), row, type_seletor);
        assert(after.pref_and_munics == before.allocated(pair).pref_and_munics);
        if !before.pref_and_munics.contains(pair) {
            assert(before.pref_and_munics.push(pair)[before.pref_and_munics.len() as int] == pair);
        }
    }
}

/// Whatever lines are taken in between, the pairs that a store has after
/// the first `a` lines are the first of those it has after the first `b`.
pub proof fn lemma_lines_keep_pairs(
    dataset: ZipDatasetView,
    lines: Seq<Seq<char>>,
    type_seletor: CSVType,
    a: int,
    b: int,
    upper_zipcode: Seq<char>,
)
    requires
        dataset.wf(),
        0 <= a <= b <= lines.len(),
    ensures
        aggregated(dataset, lines.take(a), type_seletor).dataset.store_or_empty(
            upper_zipcode,
        ).pref_and_munics.is_prefix_of(
            aggregated(dataset, lines.take(b), type_seletor).dataset.store_or_empty(
                upper_zipcode,
            ).pref_and_munics,
        ),
    decreases b - a,
{
    if a < b {
        lemma_lines_keep_pairs(dataset, lines, type_seletor, a, b - 1, upper_zipcode);
        assert(lines.take(b).drop_last() == lines.take(b - 1));
        let before = aggregated(dataset, lines.take(b - 1), type_seletor);
        lemma_aggregated_wf(dataset, lines.take(b - 1), type_seletor);
        if before.complete && accepted(lines.take(b).last(), type_seletor) {
            lemma_row_keeps_pairs(
                before.dataset,
                normalized(lines.take(b).last(), type_seletor).unwrap(),
                type_seletor,
                upper_zipcode,
            );
        }
    }
}

/// A code, once given, is kept: a pair that has a code under an upper
/// postal code has the same code there after any further lines, of either
/// registry, whether or not that run goes through.
pub proof fn lemma_codes_are_kept(
    dataset: ZipDatasetView,
    lines: Seq<Seq<char>>,
    type_seletor: CSVType,
    upper_zipcode: Seq<char>,
    pair: PrefAndMunicView,
)
    requires
        dataset.wf(),
        dataset.store_or_empty(upper_zipcode).pref_and_munics.contains(pair),
    ensures
        aggregated(dataset, lines, type_seletor).dataset.store_or_empty(upper_zipcode).code_for(
            pair,
        ) == dataset.store_or_empty(upper_zipcode).code_for(pair),
        aggregated(dataset, lines, type_seletor).dataset.store_or_empty(upper_zipcode).pair(
            dataset.store_or_empty(upper_zipcode).code_for(pair),
        ) == Some(pair),
{
    lemma_lines_keep_pairs(dataset, lines, type_seletor, 0, lines.len() as int, upper_zipcode);
    assert(lines.take(0) =~= Seq::empty());
    assert(lines.take(lines.len() as int) == lines);
    let before = dataset.store_or_empty(upper_zipcode).pref_and_munics;
    let after = aggregated(dataset, lines, type_seletor).dataset.store_or_empty(
        upper_zipcode,
    ).pref_and_munics;
    lemma_index_of_extended(before, after, pair);
    lemma_index_of_bounds(after, pair);
}

/// Codes are stable. Within one run, two rows with the same upper postal
/// code and the same prefecture and municipality resolve to the same code,
/// whatever rows stand before, between and after them.
pub proof fn lemma_code_stability(
    dataset: ZipDatasetView,
    lines: Seq<Seq<char>>,
    type_seletor: CSVType,
    i: int,
    j: int,
)
    requires
        dataset.wf(),
        0 <= i <= j < lines.len(),
        forall|k: int| 0 <= k <= j ==> accepted(#[trigger] lines[k], type_seletor),
        normalized(lines[i], type_seletor).unwrap().zip_code.take(3) == normalized(
            lines[j],
            type_seletor,
        ).unwrap().zip_code.take(3),
        pair_of(normalized(lines[i], type_seletor).unwrap()) == pair_of(
            normalized(lines[j], type_seletor).unwrap(),
        ),
    ensures
        aggregated(dataset, lines.take(i), type_seletor).dataset.resolved_code(
            normalized(lines[i], type_seletor).unwrap(),
        ) == aggregated(dataset, lines.take(j), type_seletor).dataset.resolved_code(
            normalized(lines[j], type_seletor).unwrap(),
        ),
{
    if i < j {
        let first = normalized(lines[i], type_seletor).unwrap();
        let upper = first.zip_code.take(3);
        let at_i = aggregated(dataset, lines.take(i), type_seletor);
        let after_i = aggregated(dataset, lines.take(i + 1), type_seletor);
        let at_j = aggregated(dataset, lines.take(j), type_seletor);
        assert(lines.take(i + 1).drop_last() == lines.take(i));
        assert(lines.take(i + 1).last() == lines[i]);
        lemma_complete_iff_all_accepted(dataset, lines.take(i), type_seletor);
        assert(at_i.complete);
        assert(after_i.dataset == at_i.dataset.with_row(first, type_seletor));
        lemma_aggregated_wf(dataset, lines.take(i), type_seletor);
        lemma_row_keeps_pairs(at_i.dataset, first, type_seletor, upper);
        lemma_lines_keep_pairs(dataset, lines, type_seletor, i + 1, j, upper);
        lemma_index_of_extended(
            after_i.dataset.store_or_empty(upper).pref_and_munics,
            at_j.dataset.store_or_empty(upper).pref_and_munics,
            pair_of(first),
        );
    }
}

/// An entry keeps the code it was made with: the first row wins. After one
/// more row, whatever its pair, an entry that was there has the code it had,
/// and its addresses are those it had, with the address of the row behind
/// them if the row has its postal code.
pub proof fn lemma_entry_keeps_code(
    store: OneUpperZipStoreView,
    lower_zipcode: Seq<char>,
    row: ZipRowView,
    type_seletor: CSVType,
    known: Seq<char>,
)
    requires
        store.wf(),
        store.entry(known) is Some,
    ensures
        store.with_row(lower_zipcode, row, type_seletor).entry(known) is Some,
        store.with_row(lower_zipcode, row, type_seletor).entry(known).unwrap().code
            == store.entry(known).unwrap().code,
        store.with_row(lower_zipcode, row, type_seletor).entry(known).unwrap().address == if known
            == lower_zipcode {
            store.entry(known).unwrap().address.push(payload(row, type_seletor))
        } else {
            store.entry(known).unwrap().address
        },
{
    lemma_index_of_bounds(store.lower_zipcodes, known);
    lemma_index_of_bounds(store.lower_zipcodes, lower_zipcode);
    lemma_index_of_push(store.lower_zipcodes, lower_zipcode, known);
}

/// The first row wins over a whole run too: an entry that the dataset has
/// keeps its code whatever lines are taken in, of either registry and with
/// whatever pairs, and the addresses it had stay the first of its
/// addresses, in their order.
pub proof fn lemma_entries_are_kept(
    dataset: ZipDatasetView,
    lines: Seq<Seq<char>>,
    type_seletor: CSVType,
    upper_zipcode: Seq<char>,
    lower_zipcode: Seq<char>,
)
    requires
        dataset.wf(),
        dataset.store(upper_zipcode) is Some,
        dataset.store(upper_zipcode).unwrap().entry(lower_zipcode) is Some,
    ensures
        ({
            let before = dataset.store(upper_zipcode).unwrap().entry(lower_zipcode).unwrap();
            let after = aggregated(dataset, lines, type_seletor).dataset.store(upper_zipcode);
            &&& after is Some
            &&& after.unwrap().entry(lower_zipcode) is Some
            &&& after.unwrap().entry(lower_zipcode).unwrap().code == before.code
            &&& before.address.is_prefix_of(after.unwrap().entry(lower_zipcode).unwrap().address)
        }),
    decreases lines.len(),
{
    if lines.len() > 0 {
        let front = lines.drop_last();
        lemma_entries_are_kept(dataset, front, type_seletor, upper_zipcode, lower_zipcode);
        lemma_aggregated_wf(dataset, front, type_seletor);
        let run = aggregated(dataset, front, type_seletor);
        if run.complete && accepted(lines.last(), type_seletor) {
            let row = normalized(lines.last(), type_seletor).unwrap();
            let store = run.dataset.store(upper_zipcode).unwrap();
            lemma_index_of_bounds(run.dataset.upper_zipcodes, upper_zipcode);
            assert(store.wf());
            lemma_store_after_row(run.dataset, row, type_seletor, upper_zipcode);
            if upper_zipcode == row.zip_code.take(3) {
                lemma_entry_keeps_code(
                    store,
                    row.zip_code.skip(3),
                    row,
                    type_seletor,
                    lower_zipcode,
                );
            }
        }
    }
}

/// A lower postal code that the store does not know gets an entry with the
/// code that the row resolves to, and the address of the row alone.
pub proof fn lemma_new_entry_takes_code(
    store: OneUpperZipStoreView,
    lower_zipcode: Seq<char>,
    row: ZipRowView,
    type_seletor: CSVType,
)
    requires
        store.wf(),
        store.entry(lower_zipcode) is None,
    ensures
        store.with_row(lower_zipcode, row, type_seletor).entry(lower_zipcode) == Some(
            OneLowerZipStoreView {
                code: store.code_for(pair_of(row)),
                address: seq![payload(row, type_seletor)],
            },
        ),
{
    lemma_index_of_bounds(store.lower_zipcodes, lower_zipcode);
    lemma_index_of_push(store.lower_zipcodes, lower_zipcode, lower_zipcode);
}

/// A field without its quotes holds no double quote, and a field that had
/// none is left as it is.
pub proof fn lemma_strip_quotes(field: Seq<char>)
    ensures
        !strip_quotes(field).contains('"'),
        !field.contains('"') ==> strip_quotes(field) == field,
{
    reveal_strlit("\"");
    assert("\""@ =~= seq!['"']);
    lemma_remove_all_of_char(field, '"');
}

/// A cleaned town area holds no bracket, holds no character that the town
/// area did not hold, and is empty for the text that says that nothing is
/// listed.
pub proof fn lemma_clean_town_area(town_area: Seq<char>)
    ensures
        !clean_town_area(town_area).contains('（'),
        !clean_town_area(town_area).contains('）'),
        forall|c: char| clean_town_area(town_area).contains(c) ==> town_area.contains(c),
        clean_town_area("以下に掲載がない場合"@) == Seq::<char>::empty(),
{
    reveal_strlit("（");
    reveal_strlit("）");
    assert("（"@ =~= seq!['（']);
    assert("）"@ =~= seq!['）']);
    let listed = if town_area == "以下に掲載がない場合"@ {
        Seq::<char>::empty()
    } else {
        town_area
    };
    let step1 = remove_all(listed, "（その他）"@);
    let step2 = remove_all(step1, "（次のビルを除く）"@);
    let step3 = remove_all(step2, "（地階・階層不明）"@);
    let step4 = remove_all(step3, "（"@);
    let step5 = remove_all(step4, "）"@);
    assert(step5 == clean_town_area(town_area));
    lemma_remove_all_of_char(step3, '（');
    lemma_remove_all_of_char(step4, '）');
    if step5.contains('（') {
        lemma_remove_all_adds_nothing(step4, "）"@, '（');
    }
    assert forall|c: char| clean_town_area(town_area).contains(c) implies town_area.contains(
        c,
    ) by {
        lemma_remove_all_adds_nothing(step4, "）"@, c);
        lemma_remove_all_adds_nothing(step3, "（"@, c);
        lemma_remove_all_adds_nothing(step2, "（地階・階層不明）"@, c);
        lemma_remove_all_adds_nothing(step1, "（次のビルを除く）"@, c);
        lemma_remove_all_adds_nothing(listed, "（その他）"@, c);
    }
    let nothing = Seq::<char>::empty();
    assert(remove_all(nothing, "（その他）"@) == nothing);
    assert(remove_all(nothing, "（次のビルを除く）"@) == nothing);
    assert(remove_all(nothing, "（地階・階層不明）"@) == nothing);
    assert(remove_all(nothing, "（"@) == nothing);
    assert(remove_all(nothing, "）"@) == nothing);
}

/// No field of a row holds a double quote, in either layout.
pub proof fn lemma_row_has_no_quotes(line: Seq<char>, type_seletor: CSVType)
    requires
        normalized(line, type_seletor) is Some,
    ensures
        ({
            let row = normalized(line, type_seletor).unwrap();
            &&& !row.zip_code.contains('"')
            &&& !row.prefecture.contains('"')
            &&& !row.municipalitie.contains('"')
            &&& !row.town_area.contains('"')
            &&& !row.house_number.contains('"')
            &&& !row.jigyosho.contains('"')
        }),
{
    let columns = split(line, ',');
    assert forall|i: int| 0 <= i < columns.len() implies !strip_quotes(
        #[trigger] columns[i],
    ).contains('"') by {
        lemma_strip_quotes(columns[i]);
    }
    let town = match type_seletor {
        CSVType::CsvtKenAll => strip_quotes(columns[8]),
        CSVType::CsvtJigyosho => strip_quotes(columns[5]),
    };
    lemma_clean_town_area(town);
    assert(!Seq::<char>::empty().contains('"'));
}

/// Lines taken in in two runs give what they give in one: the second run
/// goes on from the dataset that the first has left, and adds nothing if
/// the first has stopped.
pub proof fn lemma_aggregated_in_two_runs(
    dataset: ZipDatasetView,
    first: Seq<Seq<char>>,
    second: Seq<Seq<char>>,
    type_seletor: CSVType,
)
    ensures
        aggregated(dataset, first + second, type_seletor) == if aggregated(
            dataset,
            first,
            type_seletor,
        ).complete {
            aggregated(aggregated(dataset, first, type_seletor).dataset, second, type_seletor)
        } else {
            Aggregation {
                dataset: aggregated(dataset, first, type_seletor).dataset,
                complete: false,
            }
        },
    decreases second.len(),
{
    if second.len() == 0 {
        assert(first + second == first);
    } else {
        assert((first + second).drop_last() == first + second.drop_last());
        assert((first + second).last() == second.last());
        lemma_aggregated_in_two_runs(dataset, first, second.drop_last(), type_seletor);
    }
}

/// The dataset that the two registries leave, the nationwide one taken in
/// first and the office registry after it, whether or not either run goes
/// through.
pub open spec fn after_both(
    start: ZipDatasetView,
    ken_all: Seq<u8>,
    jigyosyo: Seq<u8>,
) -> ZipDatasetView {
    registry_outcome(
        registry_outcome(start, ken_all, CSVType::CsvtKenAll).1,
        jigyosyo,
        CSVType::CsvtJigyosho,
    ).1
}

/// What is written depends on the two archives alone. Two
/// runs that start from the same dataset and take in the same archives
/// leave the same dataset, and give the same step, document or none, for
/// every upper postal code.
pub proof fn lemma_two_runs_agree(
    start: ZipDatasetView,
    ken_all: Seq<u8>,
    jigyosyo: Seq<u8>,
    first: ZipDatasetView,
    second: ZipDatasetView,
    zip_number: int,
)
    requires
        first == after_both(start, ken_all, jigyosyo),
        second == after_both(start, ken_all, jigyosyo),
    ensures
        first == second,
        step_for(first, zip_number) == step_for(second, zip_number),
{
}

/// No two of the upper postal codes 000 to 999 are written alike, so no
/// two documents have the same name.
pub proof fn lemma_document_names_differ(a: int, b: int)
    requires
        0 <= a <= 999,
        0 <= b <= 999,
        a != b,
    ensures
        upper_zipcode_text(a) != upper_zipcode_text(b),
        document_name(upper_zipcode_text(a)) != document_name(upper_zipcode_text(b)),
{
    let x = upper_zipcode_text(a);
    let y = upper_zipcode_text(b);
    if x == y {
        assert(x[0] == y[0]);
        assert(x[1] == y[1]);
        assert(x[2] == y[2]);
        assert(a / 100 == b / 100);
        assert(a / 10 % 10 == b / 10 % 10);
        assert(a % 10 == b % 10);
    }
    if document_name(x) == document_name(y) {
        assert(document_name(x).take(3) =~= x);
        assert(document_name(y).take(3) =~= y);
    }
}

/// An upper postal code without rows gives no document: whatever lines
/// are taken in, an upper postal code that no accepted line has, and that
/// the dataset did not have before, has no store afterwards.
pub proof fn lemma_no_rows_no_store(
    dataset: ZipDatasetView,
    lines: Seq<Seq<char>>,
    type_seletor: CSVType,
    upper_zipcode: Seq<char>,
)
    requires
        dataset.wf(),
        dataset.store(upper_zipcode) is None,
        forall|i: int|
            0 <= i < lines.len() && accepted(#[trigger] lines[i], type_seletor) ==> normalized(
                lines[i],
                type_seletor,
            ).unwrap().zip_code.take(3) != upper_zipcode,
    ensures
        aggregated(dataset, lines, type_seletor).dataset.store(upper_zipcode) is None,
    decreases lines.len(),
{
    if lines.len() > 0 {
        let front = lines.drop_last();
        assert forall|i: int|
            0 <= i < front.len() && accepted(#[trigger] front[i], type_seletor) implies normalized(
            front[i],
            type_seletor,
        ).unwrap().zip_code.take(3) != upper_zipcode by {
            assert(front[i] == lines[i]);
        }
        lemma_no_rows_no_store(dataset, front, type_seletor, upper_zipcode);
        let before = aggregated(dataset, front, type_seletor);
        if before.complete && accepted(lines.last(), type_seletor) {
            assert(lines.last() == lines[lines.len() - 1]);
            lemma_aggregated_wf(dataset, front, type_seletor);
            lemma_store_after_row(
                before.dataset,
                normalized(lines.last(), type_seletor).unwrap(),
                type_seletor,
                upper_zipcode,
            );
        }
    }
}

} // verus!
