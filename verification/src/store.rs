//! The dataset in memory, and the operations that build it row by row.

use crate::generic_error::GenericError;
use crate::generic_error::GenericResult;
use crate::model::lemma_allocated;
use crate::model::lemma_dataset_with_row;
use crate::model::lemma_with_item;
use crate::model::pair_of;
use crate::model::payload;
use crate::model::OneLowerZipStoreView;
use crate::model::OneUpperZipStoreView;
use crate::model::PrefAndMunicView;
use crate::model::ZipDatasetView;
use crate::row::split_zip_code;
use crate::row::CSVType;
use crate::row::ZipRow;
use crate::text::lemma_index_of;
use crate::text::lemma_index_of_bounds;
use crate::text::views;
use vstd::prelude::*;

verus! {

/// A prefecture and a municipality.
#[derive(Debug)]
pub struct PrefAndMunic {
    pub pref: String,
    pub munic: String,
}

impl View for PrefAndMunic {
    type V = PrefAndMunicView;

    open spec fn view(&self) -> PrefAndMunicView {
        PrefAndMunicView { pref: self.pref@, munic: self.munic@ }
    }
}

/// The data of one lower postal code: the code of its prefecture and
/// municipality, and its addresses. A lower postal code can have several
/// addresses, each a list of one part (town area) or of three (town area,
/// house number, office name).
#[derive(Debug)]
pub struct OneLowerZipStore {
    pub code: usize,
    pub address: Vec<Vec<String>>,
}

/// The texts of a list of addresses.
pub open spec fn address_views(address: Seq<Vec<String>>) -> Seq<Seq<Seq<char>>> {
    Seq::new(address.len(), |i: int| views(address[i]@))
}

impl View for OneLowerZipStore {
    type V = OneLowerZipStoreView;

    open spec fn view(&self) -> OneLowerZipStoreView {
        OneLowerZipStoreView { code: self.code as int, address: address_views(self.address@) }
    }
}

/// The data of one upper postal code: the pairs of prefecture and
/// municipality found under it, and its lower postal codes with their
/// addresses.
#[derive(Debug)]
pub struct OneUpperZipStore {
    pref_and_munics: Vec<PrefAndMunic>,
    lower_zipcodes: Vec<String>,
    address: Vec<OneLowerZipStore>,
}

impl View for OneUpperZipStore {
    type V = OneUpperZipStoreView;

    closed spec fn view(&self) -> OneUpperZipStoreView {
        OneUpperZipStoreView {
            pref_and_munics: views(self.pref_and_munics@),
            lower_zipcodes: views(self.lower_zipcodes@),
            address: views(self.address@),
        }
    }
}

impl OneUpperZipStore {
    /// Whether the store is well formed.
    pub open spec fn wf(&self) -> bool {
        self@.wf()
    }

    /// A store that holds nothing.
    pub fn new() -> (store: Self)
        ensures
            store@ == OneUpperZipStoreView::empty(),
            store.wf(),
    {
        let store = OneUpperZipStore {
            pref_and_munics: Vec::new(),
            lower_zipcodes: Vec::new(),
            address: Vec::new(),
        };
        assert(store@.pref_and_munics =~= Seq::empty());
        assert(store@.lower_zipcodes =~= Seq::empty());
        assert(store@.address =~= Seq::empty());
        store
    }

    /// The code of the pair: the one it has in this store, or else a new
    /// one, the number of pairs plus one, under which the pair is then kept.
    pub fn resolve_or_allocate(&mut self, pref: String, munic: String) -> (code: usize)
        requires
            old(self).wf(),
        ensures
            final(self).wf(),
            code == old(self)@.code_for(PrefAndMunicView { pref: pref@, munic: munic@ }),
            final(self)@ == old(self)@.allocated(PrefAndMunicView { pref: pref@, munic: munic@ }),
            final(self)@.pair(code as int) == Some(PrefAndMunicView { pref: pref@, munic: munic@ }),
    {
        let ghost pair = PrefAndMunicView { pref: pref@, munic: munic@ };
        let ghost pairs = views(self.pref_and_munics@);
        proof {
            lemma_allocated(self@, pair);
        }
        let mut i: usize = 0;
        while i < self.pref_and_munics.len()
            invariant
                i <= self.pref_and_munics.len(),
                *self == *old(self),
                self.wf(),
                self@.allocated(pair).wf(),
                self@.allocated(pair).pair(self@.code_for(pair)) == Some(pair),
                pairs == views(self.pref_and_munics@),
                pair == (PrefAndMunicView { pref: pref@, munic: munic@ }),
                forall|j: int| 0 <= j < i ==> pairs[j] != pair,
            decreases self.pref_and_munics.len() - i,
        {
            if self.pref_and_munics[i].pref == pref && self.pref_and_munics[i].munic == munic {
                proof {
                    assert(pairs[i as int] == pair);
                    lemma_index_of(pairs, pair, i as int);
                    assert(pairs.contains(pair));
                }
                return i + 1;
            }
            i += 1;
        }
        proof {
            lemma_index_of(pairs, pair, pairs.len() as int);
            lemma_index_of_bounds(pairs, pair);
            assert(views(self.pref_and_munics@.push(PrefAndMunic { pref, munic })) =~= pairs.push(
                pair,
            ));
        }
        self.pref_and_munics.push(PrefAndMunic { pref, munic });
        self.pref_and_munics.len()
    }

    /// Adds an address under a lower postal code. A lower postal code that
    /// is new gets an entry with `code`; one that is known keeps its code.
    pub fn append_item(&mut self, lower_zipcode: String, code: usize, item: Vec<String>)
        requires
            old(self).wf(),
            1 <= code <= old(self)@.pref_and_munics.len(),
            item@.len() == 1 || item@.len() == 3,
        ensures
            final(self).wf(),
            final(self)@ == old(self)@.with_item(lower_zipcode@, code as int, views(item@)),
    {
        let ghost keys = views(self.lower_zipcodes@);
        proof {
            lemma_with_item(self@, lower_zipcode@, code as int, views(item@));
        }
        let mut i: usize = 0;
        while i < self.lower_zipcodes.len()
            invariant
                i <= self.lower_zipcodes.len(),
                *self == *old(self),
                self.wf(),
                self@.with_item(lower_zipcode@, code as int, views(item@)).wf(),
                keys == views(self.lower_zipcodes@),
                forall|j: int| 0 <= j < i ==> keys[j] != lower_zipcode@,
            decreases self.lower_zipcodes.len() - i,
        {
            if self.lower_zipcodes[i] == lower_zipcode {
                proof {
                    assert(keys[i as int] == lower_zipcode@);
                    lemma_index_of(keys, lower_zipcode@, i as int);
                    let entry = self.address@[i as int];
                    assert(address_views(entry.address@.push(item)) =~= address_views(
                        entry.address@,
                    ).push(views(item@)));
                }
                self.address[i].address.push(item);
                assert(views(self.address@) =~= views(old(self).address@).update(
                    i as int,
                    OneLowerZipStoreView {
                        code: old(self)@.address[i as int].code,
                        address: old(self)@.address[i as int].address.push(views(item@)),
                    },
                ));
                return ;
            }
            i += 1;
        }
        let mut address: Vec<Vec<String>> = Vec::new();
        proof {
            lemma_index_of(keys, lower_zipcode@, keys.len() as int);
            assert(views(self.lower_zipcodes@.push(lower_zipcode)) =~= keys.push(lower_zipcode@));
            assert(address_views(address@.push(item)) =~= seq![views(item@)]);
        }
        address.push(item);
        let entry = OneLowerZipStore { code, address };
        assert(views(self.address@.push(entry)) =~= views(self.address@).push(entry@));
        self.lower_zipcodes.push(lower_zipcode);
        self.address.push(entry);
    }

    /// Adds one row whose lower postal code is `lower_zipcode`: resolves the
    /// code of its pair, then adds its address under the lower postal code.
    pub fn add_row(&mut self, lower_zipcode: String, row: ZipRow, type_seletor: CSVType)
        requires
            old(self).wf(),
        ensures
            final(self).wf(),
            final(self)@ == old(self)@.with_row(lower_zipcode@, row@, type_seletor),
    {
        let ghost shown = row@;
        let ZipRow { zip_code: _, prefecture, municipalitie, town_area, house_number, jigyosho } =
            row;
        proof {
            lemma_index_of_bounds(self@.pref_and_munics, pair_of(shown));
        }
        let code: usize = self.resolve_or_allocate(prefecture, municipalitie);
        let item = match type_seletor {
            CSVType::CsvtKenAll => {
                let item = vec![town_area];
                assert(views(item@) =~= payload(shown, type_seletor));
                item
            },
            CSVType::CsvtJigyosho => {
                let item = vec![town_area, house_number, jigyosho];
                assert(views(item@) =~= payload(shown, type_seletor));
                item
            },
        };
        self.append_item(lower_zipcode, code, item);
    }

    /// The number of pairs, which is also the highest code in use.
    pub fn pair_count(&self) -> (count: usize)
        ensures
            count == self@.pref_and_munics.len(),
    {
        self.pref_and_munics.len()
    }

    /// The pair with the given code, if that code is in use.
    pub fn pair(&self, code: usize) -> (found: Option<&PrefAndMunic>)
        ensures
            match found {
                Some(p) => self@.pair(code as int) == Some(p@),
                None => self@.pair(code as int) is None,
            },
    {
        if 1 <= code && code <= self.pref_and_munics.len() {
            Some(&self.pref_and_munics[code - 1])
        } else {
            None
        }
    }

    /// The number of lower postal codes.
    pub fn entry_count(&self) -> (count: usize)
        ensures
            count == self@.lower_zipcodes.len(),
    {
        self.lower_zipcodes.len()
    }

    /// The lower postal code at a position, in the order in which they were
    /// first seen.
    pub fn lower_zipcode_at(&self, position: usize) -> (found: Option<&String>)
        ensures
            match found {
                Some(key) => position < self@.lower_zipcodes.len() && key@
                    == self@.lower_zipcodes[position as int],
                None => position >= self@.lower_zipcodes.len(),
            },
    {
        if position < self.lower_zipcodes.len() {
            Some(&self.lower_zipcodes[position])
        } else {
            None
        }
    }

    /// The entry at a position, which belongs to the lower postal code at
    /// that position.
    pub fn entry_at(&self, position: usize) -> (found: Option<&OneLowerZipStore>)
        ensures
            match found {
                Some(e) => position < self@.address.len() && e@ == self@.address[position as int],
                None => position >= self@.address.len(),
            },
    {
        if position < self.address.len() {
            Some(&self.address[position])
        } else {
            None
        }
    }

    /// The entry of a lower postal code, if there is one.
    pub fn entry(&self, lower_zipcode: &str) -> (found: Option<&OneLowerZipStore>)
        requires
            self.wf(),
        ensures
            match found {
                Some(e) => self@.entry(lower_zipcode@) == Some(e@),
                None => self@.entry(lower_zipcode@) is None,
            },
    {
        let ghost keys = views(self.lower_zipcodes@);
        let wanted = lower_zipcode.to_owned();
        let mut i: usize = 0;
        while i < self.lower_zipcodes.len()
            invariant
                i <= self.lower_zipcodes.len(),
                self.wf(),
                wanted@ == lower_zipcode@,
                keys == views(self.lower_zipcodes@),
                forall|j: int| 0 <= j < i ==> keys[j] != lower_zipcode@,
            decreases self.lower_zipcodes.len() - i,
        {
            if self.lower_zipcodes[i] == wanted {
                proof {
                    assert(keys[i as int] == lower_zipcode@);
                    lemma_index_of(keys, lower_zipcode@, i as int);
                }
                return Some(&self.address[i]);
            }
            i += 1;
        }
        proof {
            lemma_index_of(keys, lower_zipcode@, keys.len() as int);
        }
        None
    }
}

/// The whole dataset: every upper postal code seen so far, each with its
/// store.
#[derive(Debug)]
pub struct ZipDataset {
    upper_zipcodes: Vec<String>,
    stores: Vec<OneUpperZipStore>,
}

impl View for ZipDataset {
    type V = ZipDatasetView;

    closed spec fn view(&self) -> ZipDatasetView {
        ZipDatasetView {
            upper_zipcodes: views(self.upper_zipcodes@),
            stores: views(self.stores@),
        }
    }
}

impl ZipDataset {
    /// Whether the dataset is well formed.
    pub open spec fn wf(&self) -> bool {
        self@.wf()
    }

    /// A dataset that holds nothing.
    pub fn new() -> (dataset: Self)
        ensures
            dataset@ == ZipDatasetView::empty(),
            dataset.wf(),
    {
        let dataset = ZipDataset { upper_zipcodes: Vec::new(), stores: Vec::new() };
        assert(dataset@.upper_zipcodes =~= Seq::empty());
        assert(dataset@.stores =~= Seq::empty());
        dataset
    }

    /// Adds one row. Its postal code is cut after the third character: the
    /// first part chooses the store, which is made if it is not there, the
    /// second is the lower postal code within it. A postal code with fewer
    /// than three characters is refused, and the dataset stays as it was.
    pub fn add_row(&mut self, row: ZipRow, type_seletor: CSVType) -> (done: GenericResult<()>)
        requires
            old(self).wf(),
        ensures
            final(self).wf(),
            row@.zip_code.len() >= 3 ==> done is Ok && final(self)@ == old(self)@.with_row(
                row@,
                type_seletor,
            ),
            row@.zip_code.len() < 3 ==> (done matches Err(e) && e == GenericError::MalformedRow)
                && final(self)@ == old(self)@,
    {
        let (upper, lower) = match split_zip_code(row.zip_code.as_str()) {
            Ok(parts) => parts,
            Err(e) => {
                return Err(e);
            },
        };
        let ghost keys = views(self.upper_zipcodes@);
        proof {
            lemma_dataset_with_row(self@, row@, type_seletor);
        }
        let mut at: usize = 0;
        while at < self.upper_zipcodes.len()
            invariant
                at <= self.upper_zipcodes.len(),
                *self == *old(self),
                self.wf(),
                keys == views(self.upper_zipcodes@),
                forall|j: int| 0 <= j < at ==> keys[j] != upper@,
            ensures
                at <= self.upper_zipcodes.len(),
                at < self.upper_zipcodes.len() ==> keys[at as int] == upper@,
                forall|j: int| 0 <= j < at ==> keys[j] != upper@,
            decreases self.upper_zipcodes.len() - at,
        {
            if self.upper_zipcodes[at] == upper {
                break ;
            }
            at += 1;
        }
        proof {
            lemma_index_of(keys, upper@, at as int);
        }
        if at == self.upper_zipcodes.len() {
            let store = OneUpperZipStore::new();
            proof {
                assert(views(self.upper_zipcodes@.push(upper)) =~= keys.push(upper@));
                assert(views(self.stores@.push(store)) =~= views(self.stores@).push(store@));
            }
            self.upper_zipcodes.push(upper);
            self.stores.push(store);
            self.stores[at].add_row(lower, row, type_seletor);
            assert(views(self.stores@) =~= views(old(self).stores@).push(
                OneUpperZipStoreView::empty().with_row(lower@, row@, type_seletor),
            ));
        } else {
            self.stores[at].add_row(lower, row, type_seletor);
            assert(views(self.stores@) =~= views(old(self).stores@).update(
                at as int,
                old(self)@.stores[at as int].with_row(lower@, row@, type_seletor),
            ));
        }
        Ok(())
    }

    /// The number of upper postal codes.
    pub fn store_count(&self) -> (count: usize)
        ensures
            count == self@.upper_zipcodes.len(),
    {
        self.upper_zipcodes.len()
    }

    /// The upper postal code at a position, in the order in which they were
    /// first seen.
    pub fn upper_zipcode_at(&self, position: usize) -> (found: Option<&String>)
        ensures
            match found {
                Some(key) => position < self@.upper_zipcodes.len() && key@
                    == self@.upper_zipcodes[position as int],
                None => position >= self@.upper_zipcodes.len(),
            },
    {
        if position < self.upper_zipcodes.len() {
            Some(&self.upper_zipcodes[position])
        } else {
            None
        }
    }

    /// The store at a position, which belongs to the upper postal code at
    /// that position.
    pub fn store_at(&self, position: usize) -> (found: Option<&OneUpperZipStore>)
        requires
            self.wf(),
        ensures
            match found {
                Some(store) => position < self@.stores.len() && store@
                    == self@.stores[position as int] && store.wf(),
                None => position >= self@.stores.len(),
            },
    {
        if position < self.stores.len() {
            assert(self@.stores[position as int] == self.stores@[position as int]@);
            Some(&self.stores[position])
        } else {
            None
        }
    }

    /// The store of an upper postal code, if there is one.
    pub fn store(&self, upper_zipcode: &str) -> (found: Option<&OneUpperZipStore>)
        requires
            self.wf(),
        ensures
            match found {
                Some(store) => self@.store(upper_zipcode@) == Some(store@) && store.wf(),
                None => self@.store(upper_zipcode@) is None,
            },
    {
        let ghost keys = views(self.upper_zipcodes@);
        let wanted = upper_zipcode.to_owned();
        let mut i: usize = 0;
        while i < self.upper_zipcodes.len()
            invariant
                i <= self.upper_zipcodes.len(),
                self.wf(),
                wanted@ == upper_zipcode@,
                keys == views(self.upper_zipcodes@),
                forall|j: int| 0 <= j < i ==> keys[j] != upper_zipcode@,
            decreases self.upper_zipcodes.len() - i,
        {
            if self.upper_zipcodes[i] == wanted {
                proof {
                    assert(keys[i as int] == upper_zipcode@);
                    lemma_index_of(keys, upper_zipcode@, i as int);
                    assert(self@.stores[i as int] == self.stores@[i as int]@);
                }
                return Some(&self.stores[i]);
            }
            i += 1;
        }
        proof {
            lemma_index_of(keys, upper_zipcode@, keys.len() as int);
        }
        None
    }
}

} // verus!
