//! One line of a registry, cut into fields and cleaned.

use crate::generic_error::GenericError;
use crate::generic_error::GenericResult;
use crate::text::from_chars;
use crate::text::remove_all;
use crate::text::remove_chars;
use crate::text::same_chars;
use crate::text::split;
use crate::text::split_chars;
use crate::text::to_chars;
use crate::text::views;
use vstd::prelude::*;

verus! {

/// Which of the two registries a line comes from.
#[derive(Clone, Copy, Debug, PartialEq, Eq, Structural)]
pub enum CSVType {
    /// The nationwide registry of postal codes.
    CsvtKenAll,
    /// The registry of offices with a postal code of their own.
    CsvtJigyosho,
}

/// The cleaned fields of one line.
#[derive(Debug)]
pub struct ZipRow {
    pub zip_code: String,
    pub prefecture: String,
    pub municipalitie: String,
    pub town_area: String,
    pub house_number: String,
    pub jigyosho: String,
}

/// A `ZipRow` as plain texts.
pub struct ZipRowView {
    pub zip_code: Seq<char>,
    pub prefecture: Seq<char>,
    pub municipalitie: Seq<char>,
    pub town_area: Seq<char>,
    pub house_number: Seq<char>,
    pub jigyosho: Seq<char>,
}

impl View for ZipRow {
    type V = ZipRowView;

    open spec fn view(&self) -> ZipRowView {
        ZipRowView {
            zip_code: self.zip_code@,
            prefecture: self.prefecture@,
            municipalitie: self.municipalitie@,
            town_area: self.town_area@,
            house_number: self.house_number@,
            jigyosho: self.jigyosho@,
        }
    }
}

/// The number of fields that a line of the layout must have.
pub open spec fn required_columns(type_seletor: CSVType) -> nat {
    match type_seletor {
        CSVType::CsvtKenAll => 9,
        CSVType::CsvtJigyosho => 8,
    }
}

/// `field` without its double quotes, wherever they stand.
pub open spec fn strip_quotes(field: Seq<char>) -> Seq<char> {
    remove_all(field, "\""@)
}

/// A town area without the bracketed notes and without brackets. The text
/// that says that nothing is listed below the municipality counts as empty.
pub open spec fn clean_town_area(town_area: Seq<char>) -> Seq<char> {
    let listed = if town_area == "以下に掲載がない場合"@ {
        Seq::<char>::empty()
    } else {
        town_area
    };
    remove_all(
        remove_all(
            remove_all(
                remove_all(remove_all(listed, "（その他）"@), "（次のビルを除く）"@),
                "（地階・階層不明）"@,
            ),
            "（"@,
        ),
        "）"@,
    )
}

/// The row that the fields `columns` of a line give.
pub open spec fn row_of_columns(columns: Seq<Seq<char>>, type_seletor: CSVType) -> ZipRowView {
    match type_seletor {
        CSVType::CsvtKenAll => ZipRowView {
            zip_code: strip_quotes(columns[2]),
            prefecture: strip_quotes(columns[6]),
            municipalitie: strip_quotes(columns[7]),
            town_area: clean_town_area(strip_quotes(columns[8])),
            house_number: Seq::<char>::empty(),
            jigyosho: Seq::<char>::empty(),
        },
        CSVType::CsvtJigyosho => ZipRowView {
            zip_code: strip_quotes(columns[7]),
            prefecture: strip_quotes(columns[3]),
            municipalitie: strip_quotes(columns[4]),
            town_area: clean_town_area(strip_quotes(columns[5])),
            house_number: strip_quotes(columns[6]),
            jigyosho: strip_quotes(columns[2]),
        },
    }
}

/// The row that `line` gives, if it has the fields that its layout reads.
pub open spec fn normalized(line: Seq<char>, type_seletor: CSVType) -> Option<ZipRowView> {
    let columns = split(line, ',');
    if columns.len() < required_columns(type_seletor) {
        None
    } else {
        Some(row_of_columns(columns, type_seletor))
    }
}

/// Removes the double quotes from `field`.
pub fn unquote(field: &Vec<char>) -> (out: Vec<char>)
    ensures
        out@ == strip_quotes(field@),
{
    let quote = to_chars("\"");
    remove_chars(field, &quote)
}

/// Cleans a town area whose quotes are already removed.
pub fn clean_town(town_area: Vec<char>) -> (out: Vec<char>)
    ensures
        out@ == clean_town_area(town_area@),
{
    let unlisted = to_chars("以下に掲載がない場合");
    let listed = if same_chars(&town_area, &unlisted) {
        Vec::new()
    } else {
        town_area
    };
    let other = to_chars("（その他）");
    let except_next = to_chars("（次のビルを除く）");
    let floor_unknown = to_chars("（地階・階層不明）");
    let open = to_chars("（");
    let close = to_chars("）");
    let step1 = remove_chars(&listed, &other);
    let step2 = remove_chars(&step1, &except_next);
    let step3 = remove_chars(&step2, &floor_unknown);
    let step4 = remove_chars(&step3, &open);
    remove_chars(&step4, &close)
}

/// Cuts `line` at its commas and cleans the fields that the layout reads.
/// Fails on a line with fewer fields than that, and on no other.
pub fn normalize_chars(line: &Vec<char>, type_seletor: CSVType) -> (row: GenericResult<ZipRow>)
    ensures
        match normalized(line@, type_seletor) {
            Some(v) => row matches Ok(r) && r@ == v,
            None => row matches Err(e) && e == GenericError::MalformedRow,
        },
{
    let columns = split_chars(line, ',');
    let ghost cols = views(columns@);
    assert(forall|i: int| 0 <= i < columns.len() ==> cols[i] == #[trigger] columns@[i]@);
    match type_seletor {
        CSVType::CsvtKenAll => {
            if columns.len() < 9 {
                return Err(GenericError::MalformedRow);
            }
            let town = unquote(&columns[8]);
            Ok(
                ZipRow {
                    zip_code: from_chars(&unquote(&columns[2])),
                    prefecture: from_chars(&unquote(&columns[6])),
                    municipalitie: from_chars(&unquote(&columns[7])),
                    town_area: from_chars(&clean_town(town)),
                    house_number: String::new(),
                    jigyosho: String::new(),
                },
            )
        },
        CSVType::CsvtJigyosho => {
            if columns.len() < 8 {
                return Err(GenericError::MalformedRow);
            }
            let town = unquote(&columns[5]);
            Ok(
                ZipRow {
                    zip_code: from_chars(&unquote(&columns[7])),
                    prefecture: from_chars(&unquote(&columns[3])),
                    municipalitie: from_chars(&unquote(&columns[4])),
                    town_area: from_chars(&clean_town(town)),
                    house_number: from_chars(&unquote(&columns[6])),
                    jigyosho: from_chars(&unquote(&columns[2])),
                },
            )
        },
    }
}

/// Cuts `line` at its commas and cleans the fields that the layout reads.
/// Fails on a line with fewer fields than that, and on no other.
pub fn normalize_row(line: &str, type_seletor: CSVType) -> (row: GenericResult<ZipRow>)
    ensures
        match normalized(line@, type_seletor) {
            Some(v) => row matches Ok(r) && r@ == v,
            None => row matches Err(e) && e == GenericError::MalformedRow,
        },
{
    let chars = to_chars(line);
    normalize_chars(&chars, type_seletor)
}

/// The first three characters of a postal code, and the rest. Fails on a
/// code with fewer than three characters.
pub fn split_zip_code(zip_code: &str) -> (parts: GenericResult<(String, String)>)
    ensures
        zip_code@.len() >= 3 ==> (parts matches Ok(p) && p.0@ == zip_code@.take(3) && p.1@
            == zip_code@.skip(3)),
        zip_code@.len() < 3 ==> (parts matches Err(e) && e == GenericError::MalformedRow),
{
    let chars = to_chars(zip_code);
    if chars.len() < 3 {
        return Err(GenericError::MalformedRow);
    }
    let mut upper = String::new();
    let mut lower = String::new();
    let mut i: usize = 0;
    while i < chars.len()
        invariant
            i <= chars.len(),
            chars.len() >= 3,
            upper@ == chars@.take(if i < 3 { i as int } else { 3 }),
            lower@ == chars@.subrange(3, if i < 3 { 3 } else { i as int }),
        decreases chars.len() - i,
    {
        if i < 3 {
            upper.push(chars[i]);
        } else {
            lower.push(chars[i]);
        }
        i += 1;
    }
    assert(chars@.subrange(3, chars.len() as int) == chars@.skip(3));
    Ok((upper, lower))
}

} // verus!
