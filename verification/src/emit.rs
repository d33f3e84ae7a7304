//! Which documents a finished dataset gives, and in what order.
//!
//! The upper postal codes 001 to 999 are gone through in ascending order.
//! One that has a store gives a document named after it; one that has none
//! gives nothing, which is no failure.

use crate::model::OneUpperZipStoreView;
use crate::model::ZipDatasetView;
use crate::store::OneUpperZipStore;
use crate::store::ZipDataset;
use vstd::prelude::*;
use vstd::string::StringExecFns;

verus! {

/// The character of a decimal digit.
pub open spec fn digit(value: int) -> char {
    (value + 48) as char
}

/// A number below one thousand as three decimal digits, with zeros in
/// front where it is below one hundred.
pub open spec fn upper_zipcode_text(zip_number: int) -> Seq<char> {
    seq![digit(zip_number / 100), digit(zip_number / 10 % 10), digit(zip_number % 10)]
}

/// The name of the document of an upper postal code.
pub open spec fn document_name(upper_zipcode: Seq<char>) -> Seq<char> {
    upper_zipcode + ".json"@
}

/// What one upper postal code gives when the dataset is written out.
#[derive(Debug)]
pub enum EmitStep<'a> {
    /// The store is written to a document of the given name.
    Document { upper_zipcode: String, file_name: String, store: &'a OneUpperZipStore },
    /// The dataset has nothing under this upper postal code: no document.
    Empty,
}

/// An `EmitStep` as plain values.
pub enum EmitStepView {
    Document { upper_zipcode: Seq<char>, file_name: Seq<char>, store: OneUpperZipStoreView },
    Empty,
}

impl<'a> View for EmitStep<'a> {
    type V = EmitStepView;

    open spec fn view(&self) -> EmitStepView {
        match self {
            EmitStep::Document { upper_zipcode, file_name, store } => EmitStepView::Document {
                upper_zipcode: upper_zipcode@,
                file_name: file_name@,
                store: store@,
            },
            EmitStep::Empty => EmitStepView::Empty,
        }
    }
}

/// What the upper postal code with the number `zip_number` gives.
pub open spec fn step_for(dataset: ZipDatasetView, zip_number: int) -> EmitStepView {
    let upper_zipcode = upper_zipcode_text(zip_number);
    match dataset.store(upper_zipcode) {
        Some(store) => EmitStepView::Document {
            upper_zipcode,
            file_name: document_name(upper_zipcode),
            store,
        },
        None => EmitStepView::Empty,
    }
}

/// The character of the decimal digit `value`.
fn digit_char(value: u32) -> (c: char)
    requires
        value < 10,
    ensures
        c == digit(value as int),
{
    match value {
        0 => '0',
        1 => '1',
        2 => '2',
        3 => '3',
        4 => '4',
        5 => '5',
        6 => '6',
        7 => '7',
        8 => '8',
        _ => '9',
    }
}

/// The three digits of an upper postal code.
pub fn upper_zipcode_of(zip_number: u32) -> (text: String)
    requires
        zip_number <= 999,
    ensures
        text@ == upper_zipcode_text(zip_number as int),
{
    let mut text = String::new();
    text.push(digit_char(zip_number / 100));
    text.push(digit_char(zip_number / 10 % 10));
    text.push(digit_char(zip_number % 10));
    assert(text@ =~= upper_zipcode_text(zip_number as int));
    text
}

impl ZipDataset {
    /// What the upper postal code with the number `zip_number` gives: its
    /// document, or nothing.
    pub fn emit_step(&self, zip_number: u32) -> (step: EmitStep<'_>)
        requires
            self.wf(),
            zip_number <= 999,
        ensures
            step@ == step_for(self@, zip_number as int),
    {
        let upper_zipcode = upper_zipcode_of(zip_number);
        match self.store(upper_zipcode.as_str()) {
            Some(store) => {
                let file_name = upper_zipcode.clone().concat(".json");
                EmitStep::Document { upper_zipcode, file_name, store }
            },
            None => EmitStep::Empty,
        }
    }

    /// The steps of writing the dataset out: one for each of the upper
    /// postal codes 001 to 999, in ascending order.
    pub fn emission_plan(&self) -> (plan: Vec<EmitStep<'_>>)
        requires
            self.wf(),
        ensures
            plan@.len() == 999,
            forall|k: int| 0 <= k < 999 ==> (#[trigger] plan@[k])@ == step_for(self@, k + 1),
    {
        let mut plan: Vec<EmitStep<'_>> = Vec::new();
        let mut zip_number: u32 = 1;
        while zip_number < 1000
            invariant
                1 <= zip_number <= 1000,
                self.wf(),
                plan@.len() == zip_number - 1,
                forall|k: int|
                    0 <= k < zip_number - 1 ==> (#[trigger] plan@[k])@ == step_for(self@, k + 1),
            decreases 1000 - zip_number,
        {
            let step = self.emit_step(zip_number);
            plan.push(step);
            zip_number += 1;
        }
        plan
    }
}

} // verus!
