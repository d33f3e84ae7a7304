//! The dataset as mathematics: what a store holds, and what one more row
//! makes of it.
//!
//! A store of one upper postal code lists its prefecture and municipality
//! pairs in the order in which they were first seen; the code of a pair is
//! its position, counted from one. Lower postal codes stand in the order in
//! which they were first seen too, each beside its own entry.

use crate::row::normalized;
use crate::row::CSVType;
use crate::row::ZipRowView;
use crate::text::index_of;
use crate::text::lemma_index_of_bounds;
use crate::text::lemma_index_of_push;
use crate::text::split_lines;
use vstd::prelude::*;

verus! {

/// A prefecture and a municipality.
pub struct PrefAndMunicView {
    pub pref: Seq<char>,
    pub munic: Seq<char>,
}

/// What is known of one lower postal code: the code of a pair, and the
/// addresses in the order in which their rows came.
pub struct OneLowerZipStoreView {
    pub code: int,
    pub address: Seq<Seq<Seq<char>>>,
}

/// Everything under one upper postal code.
pub struct OneUpperZipStoreView {
    pub pref_and_munics: Seq<PrefAndMunicView>,
    pub lower_zipcodes: Seq<Seq<char>>,
    pub address: Seq<OneLowerZipStoreView>,
}

/// The whole dataset: upper postal codes, each beside its store.
pub struct ZipDatasetView {
    pub upper_zipcodes: Seq<Seq<char>>,
    pub stores: Seq<OneUpperZipStoreView>,
}

/// The pair that a row names.
pub open spec fn pair_of(row: ZipRowView) -> PrefAndMunicView {
    PrefAndMunicView { pref: row.prefecture, munic: row.municipalitie }
}

/// The address that a row adds: the town area alone for the nationwide
/// registry; town area, house number and office name for the office
/// registry.
pub open spec fn payload(row: ZipRowView, type_seletor: CSVType) -> Seq<Seq<char>> {
    match type_seletor {
        CSVType::CsvtKenAll => seq![row.town_area],
        CSVType::CsvtJigyosho => seq![row.town_area, row.house_number, row.jigyosho],
    }
}

impl OneUpperZipStoreView {
    /// The store that holds nothing.
    pub open spec fn empty() -> OneUpperZipStoreView {
        OneUpperZipStoreView {
            pref_and_munics: Seq::empty(),
            lower_zipcodes: Seq::empty(),
            address: Seq::empty(),
        }
    }

    /// No pair and no lower postal code occurs twice, every entry names the
    /// code of a pair of this store, and every address has one part or
    /// three.
    pub open spec fn wf(self) -> bool {
        &&& self.pref_and_munics.no_duplicates()
        &&& self.lower_zipcodes.no_duplicates()
        &&& self.lower_zipcodes.len() == self.address.len()
        &&& forall|i: int|
            0 <= i < self.address.len() ==> 1 <= (#[trigger] self.address[i]).code
                <= self.pref_and_munics.len()
        &&& forall|i: int, k: int|
            0 <= i < self.address.len() && 0 <= k < self.address[i].address.len() ==> {
                let parts = #[trigger] self.address[i].address[k];
                parts.len() == 1 || parts.len() == 3
            }
    }

    /// The pair with the given code, if the store has assigned that code.
    pub open spec fn pair(self, code: int) -> Option<PrefAndMunicView> {
        if 1 <= code <= self.pref_and_munics.len() {
            Some(self.pref_and_munics[code - 1])
        } else {
            None
        }
    }

    /// The entry of a lower postal code, if the store has one.
    pub open spec fn entry(self, lower_zipcode: Seq<char>) -> Option<OneLowerZipStoreView> {
        let at = index_of(self.lower_zipcodes, lower_zipcode);
        if 0 <= at < self.lower_zipcodes.len() && at < self.address.len() {
            Some(self.address[at])
        } else {
            None
        }
    }

    /// The code that `pair` resolves to: the code it has, or else the next
    /// free one, which is the number of pairs plus one.
    pub open spec fn code_for(self, pair: PrefAndMunicView) -> int {
        index_of(self.pref_and_munics, pair) + 1
    }

    /// The store once `pair` has a code: unchanged if it had one.
    pub open spec fn allocated(self, pair: PrefAndMunicView) -> OneUpperZipStoreView {
        if self.pref_and_munics.contains(pair) {
            self
        } else {
            OneUpperZipStoreView {
                pref_and_munics: self.pref_and_munics.push(pair),
                lower_zipcodes: self.lower_zipcodes,
                address: self.address,
            }
        }
    }

    /// The store with `item` added under `lower_zipcode`. A new entry takes
    /// `code`; an entry that exists keeps the code it has.
    pub open spec fn with_item(
        self,
        lower_zipcode: Seq<char>,
        code: int,
        item: Seq<Seq<char>>,
    ) -> OneUpperZipStoreView {
        let at = index_of(self.lower_zipcodes, lower_zipcode);
        if 0 <= at < self.lower_zipcodes.len() {
            OneUpperZipStoreView {
                pref_and_munics: self.pref_and_munics,
                lower_zipcodes: self.lower_zipcodes,
                address: self.address.update(
                    at,
                    OneLowerZipStoreView {
                        code: self.address[at].code,
                        address: self.address[at].address.push(item),
                    },
                ),
            }
        } else {
            OneUpperZipStoreView {
                pref_and_munics: self.pref_and_munics,
                lower_zipcodes: self.lower_zipcodes.push(lower_zipcode),
                address: self.address.push(OneLowerZipStoreView { code, address: seq![item] }),
            }
        }
    }

    /// The store with one more row, whose lower postal code is
    /// `lower_zipcode`.
    pub open spec fn with_row(
        self,
        lower_zipcode: Seq<char>,
        row: ZipRowView,
        type_seletor: CSVType,
    ) -> OneUpperZipStoreView {
        self.allocated(pair_of(row)).with_item(
            lower_zipcode,
            self.code_for(pair_of(row)),
            payload(row, type_seletor),
        )
    }
}

impl ZipDatasetView {
    /// The dataset that holds nothing.
    pub open spec fn empty() -> ZipDatasetView {
        ZipDatasetView { upper_zipcodes: Seq::empty(), stores: Seq::empty() }
    }

    /// No upper postal code occurs twice, and each has a store that is well
    /// formed.
    pub open spec fn wf(self) -> bool {
        &&& self.upper_zipcodes.no_duplicates()
        &&& self.upper_zipcodes.len() == self.stores.len()
        &&& forall|i: int| 0 <= i < self.stores.len() ==> (#[trigger] self.stores[i]).wf()
    }

    /// The store of an upper postal code, if the dataset has one.
    pub open spec fn store(self, upper_zipcode: Seq<char>) -> Option<OneUpperZipStoreView> {
        let at = index_of(self.upper_zipcodes, upper_zipcode);
        if 0 <= at < self.upper_zipcodes.len() && at < self.stores.len() {
            Some(self.stores[at])
        } else {
            None
        }
    }

    /// The store of an upper postal code, or the empty store.
    pub open spec fn store_or_empty(self, upper_zipcode: Seq<char>) -> OneUpperZipStoreView {
        match self.store(upper_zipcode) {
            Some(store) => store,
            None => OneUpperZipStoreView::empty(),
        }
    }

    /// The code that `row` resolves to when it is added to this dataset.
    pub open spec fn resolved_code(self, row: ZipRowView) -> int {
        self.store_or_empty(row.zip_code.take(3)).code_for(pair_of(row))
    }

    /// The dataset with one more row. The first three characters of the
    /// postal code choose the store, which is made if it is not there; the
    /// rest is the lower postal code.
    pub open spec fn with_row(self, row: ZipRowView, type_seletor: CSVType) -> ZipDatasetView {
        let upper = row.zip_code.take(3);
        let lower = row.zip_code.skip(3);
        let at = index_of(self.upper_zipcodes, upper);
        if 0 <= at < self.upper_zipcodes.len() {
            ZipDatasetView {
                upper_zipcodes: self.upper_zipcodes,
                stores: self.stores.update(at, self.stores[at].with_row(lower, row, type_seletor)),
            }
        } else {
            ZipDatasetView {
                upper_zipcodes: self.upper_zipcodes.push(upper),
                stores: self.stores.push(
                    OneUpperZipStoreView::empty().with_row(lower, row, type_seletor),
                ),
            }
        }
    }
}

/// Whether a line can be taken in: it has the fields of its layout, and a
/// postal code of three characters or more.
pub open spec fn accepted(line: Seq<char>, type_seletor: CSVType) -> bool {
    match normalized(line, type_seletor) {
        Some(row) => row.zip_code.len() >= 3,
        None => false,
    }
}

/// What a run over some lines leaves: the dataset, and whether every line
/// was taken in.
pub struct Aggregation {
    pub dataset: ZipDatasetView,
    pub complete: bool,
}

/// The outcome of taking in `lines` one after the other, starting from
/// `dataset`. The run stops at the first line that is not accepted: the
/// rows before it stay in the dataset, that line and those after it add
/// nothing.
pub open spec fn aggregated(
    dataset: ZipDatasetView,
    lines: Seq<Seq<char>>,
    type_seletor: CSVType,
) -> Aggregation
    decreases lines.len(),
{
    if lines.len() == 0 {
        Aggregation { dataset, complete: true }
    } else {
        let before = aggregated(dataset, lines.drop_last(), type_seletor);
        if before.complete && accepted(lines.last(), type_seletor) {
            Aggregation {
                dataset: before.dataset.with_row(
                    normalized(lines.last(), type_seletor).unwrap(),
                    type_seletor,
                ),
                complete: true,
            }
        } else {
            Aggregation { dataset: before.dataset, complete: false }
        }
    }
}

/// Resolving a pair gives a code of the store as it is afterwards, and
/// that code names the pair.
pub proof fn lemma_allocated(store: OneUpperZipStoreView, pair: PrefAndMunicView)
    requires
        store.wf(),
    ensures
        store.allocated(pair).wf(),
        store.allocated(pair).pair(store.code_for(pair)) == Some(pair),
        store.allocated(pair).code_for(pair) == store.code_for(pair),
{
    lemma_index_of_bounds(store.pref_and_munics, pair);
    lemma_index_of_push(store.pref_and_munics, pair, pair);
    if !store.pref_and_munics.contains(pair) {
        let pairs = store.pref_and_munics.push(pair);
        assert forall|i: int, j: int| 0 <= i < pairs.len() && 0 <= j < pairs.len() && i != j
            implies pairs[i] != pairs[j] by {
            if i < store.pref_and_munics.len() {
                assert(store.pref_and_munics.contains(pairs[i]));
            }
            if j < store.pref_and_munics.len() {
                assert(store.pref_and_munics.contains(pairs[j]));
            }
        }
    }
}

/// Adding an address keeps a store well formed.
pub proof fn lemma_with_item(
    store: OneUpperZipStoreView,
    lower_zipcode: Seq<char>,
    code: int,
    item: Seq<Seq<char>>,
)
    requires
        store.wf(),
        1 <= code <= store.pref_and_munics.len(),
        item.len() == 1 || item.len() == 3,
    ensures
        store.with_item(lower_zipcode, code, item).wf(),
{
    lemma_index_of_bounds(store.lower_zipcodes, lower_zipcode);
    let after = store.with_item(lower_zipcode, code, item);
    let at = index_of(store.lower_zipcodes, lower_zipcode);
    if at < store.lower_zipcodes.len() {
        assert forall|i: int| 0 <= i < after.address.len() implies 1 <= (
        #[trigger] after.address[i]).code <= after.pref_and_munics.len() by {
            assert(after.address[i].code == store.address[i].code);
        }
        assert forall|i: int, k: int|
            0 <= i < after.address.len() && 0 <= k < after.address[i].address.len() implies {
            let parts = #[trigger] after.address[i].address[k];
            parts.len() == 1 || parts.len() == 3
        } by {
            if i == at && k == store.address[at].address.len() {
            } else {
                assert(after.address[i].address[k] == store.address[i].address[k]);
            }
        }
    } else {
        let keys = store.lower_zipcodes.push(lower_zipcode);
        assert forall|i: int, j: int| 0 <= i < keys.len() && 0 <= j < keys.len() && i != j
            implies keys[i] != keys[j] by {
            if i < store.lower_zipcodes.len() {
                assert(store.lower_zipcodes.contains(keys[i]));
            }
            if j < store.lower_zipcodes.len() {
                assert(store.lower_zipcodes.contains(keys[j]));
            }
        }
        assert forall|i: int| 0 <= i < after.address.len() implies 1 <= (
        #[trigger] after.address[i]).code <= after.pref_and_munics.len() by {
            if i < store.address.len() {
                assert(after.address[i] == store.address[i]);
            }
        }
        assert forall|i: int, k: int|
            0 <= i < after.address.len() && 0 <= k < after.address[i].address.len() implies {
            let parts = #[trigger] after.address[i].address[k];
            parts.len() == 1 || parts.len() == 3
        } by {
            if i < store.address.len() {
                assert(after.address[i].address[k] == store.address[i].address[k]);
            }
        }
    }
}

/// One more row keeps a store well formed.
pub proof fn lemma_store_with_row(
    store: OneUpperZipStoreView,
    lower_zipcode: Seq<char>,
    row: ZipRowView,
    type_seletor: CSVType,
)
    requires
        store.wf(),
    ensures
        store.with_row(lower_zipcode, row, type_seletor).wf(),
{
    lemma_allocated(store, pair_of(row));
    lemma_index_of_bounds(store.pref_and_munics, pair_of(row));
    lemma_with_item(
        store.allocated(pair_of(row)),
        lower_zipcode,
        store.code_for(pair_of(row)),
        payload(row, type_seletor),
    );
}

/// One more row keeps a dataset well formed.
pub proof fn lemma_dataset_with_row(dataset: ZipDatasetView, row: ZipRowView, type_seletor: CSVType)
    requires
        dataset.wf(),
    ensures
        dataset.with_row(row, type_seletor).wf(),
{
    let upper = row.zip_code.take(3);
    let lower = row.zip_code.skip(3);
    let at = index_of(dataset.upper_zipcodes, upper);
    let after = dataset.with_row(row, type_seletor);
    lemma_index_of_bounds(dataset.upper_zipcodes, upper);
    if at < dataset.upper_zipcodes.len() {
        lemma_store_with_row(dataset.stores[at], lower, row, type_seletor);
        assert forall|i: int| 0 <= i < after.stores.len() implies (#[trigger] after.stores[i]).wf() by {
            if i != at {
                assert(after.stores[i] == dataset.stores[i]);
            }
        }
    } else {
        lemma_store_with_row(OneUpperZipStoreView::empty(), lower, row, type_seletor);
        let keys = dataset.upper_zipcodes.push(upper);
        assert forall|i: int, j: int| 0 <= i < keys.len() && 0 <= j < keys.len() && i != j
            implies keys[i] != keys[j] by {
            if i < dataset.upper_zipcodes.len() {
                assert(dataset.upper_zipcodes.contains(keys[i]));
            }
            if j < dataset.upper_zipcodes.len() {
                assert(dataset.upper_zipcodes.contains(keys[j]));
            }
        }
        assert forall|i: int| 0 <= i < after.stores.len() implies (#[trigger] after.stores[i]).wf() by {
            if i < dataset.stores.len() {
                assert(after.stores[i] == dataset.stores[i]);
            }
        }
    }
}

/// Taking in lines keeps a dataset well formed, whether or not the run
/// goes through.
pub proof fn lemma_aggregated_wf(
    dataset: ZipDatasetView,
    lines: Seq<Seq<char>>,
    type_seletor: CSVType,
)
    requires
        dataset.wf(),
    ensures
        aggregated(dataset, lines, type_seletor).dataset.wf(),
    decreases lines.len(),
{
    if lines.len() > 0 {
        lemma_aggregated_wf(dataset, lines.drop_last(), type_seletor);
        let before = aggregated(dataset, lines.drop_last(), type_seletor);
        if before.complete && accepted(lines.last(), type_seletor) {
            lemma_dataset_with_row(
                before.dataset,
                normalized(lines.last(), type_seletor).unwrap(),
                type_seletor,
            );
        }
    }
}

/// A run goes through exactly when every line is accepted.
pub proof fn lemma_complete_iff_all_accepted(
    dataset: ZipDatasetView,
    lines: Seq<Seq<char>>,
    type_seletor: CSVType,
)
    ensures
        aggregated(dataset, lines, type_seletor).complete <==> forall|i: int|
            0 <= i < lines.len() ==> accepted(#[trigger] lines[i], type_seletor),
    decreases lines.len(),
{
    if lines.len() > 0 {
        let front = lines.drop_last();
        lemma_complete_iff_all_accepted(dataset, front, type_seletor);
        if aggregated(dataset, lines, type_seletor).complete {
            assert forall|i: int| 0 <= i < lines.len() implies accepted(
                #[trigger] lines[i],
                type_seletor,
            ) by {
                if i < front.len() {
                    assert(lines[i] == front[i]);
                }
            }
        } else if aggregated(dataset, front, type_seletor).complete {
            assert(!accepted(lines[lines.len() - 1], type_seletor));
        } else {
            let i = choose|i: int| 0 <= i < front.len() && !accepted(#[trigger] front[i], type_seletor);
            assert(lines[i] == front[i]);
        }
    }
}

/// A run that has stopped stays stopped: if the lines before position `i`
/// do not all go through, or the line at `i` is not accepted, the outcome of
/// the whole run is the dataset that the lines before `i` have left.
pub proof fn lemma_aggregated_stops(
    dataset: ZipDatasetView,
    lines: Seq<Seq<char>>,
    type_seletor: CSVType,
    i: int,
)
    requires
        0 <= i < lines.len(),
        !aggregated(dataset, lines.take(i), type_seletor).complete || !accepted(
            lines[i],
            type_seletor,
        ),
    ensures
        !aggregated(dataset, lines, type_seletor).complete,
        aggregated(dataset, lines, type_seletor).dataset == aggregated(
            dataset,
            lines.take(i),
            type_seletor,
        ).dataset,
    decreases lines.len(),
{
    let front = lines.drop_last();
    if i == lines.len() - 1 {
        assert(front == lines.take(i));
    } else {
        assert(front.take(i) == lines.take(i));
        assert(front[i] == lines[i]);
        lemma_aggregated_stops(dataset, front, type_seletor, i);
    }
}

/// The lines of a registry that comes in several files: those of the first
/// file, then those of the second, and so on.
pub open spec fn registry_lines(files: Seq<Seq<char>>) -> Seq<Seq<char>>
    decreases files.len(),
{
    if files.len() == 0 {
        Seq::empty()
    } else {
        registry_lines(files.drop_last()) + split_lines(files.last())
    }
}

} // verus!
