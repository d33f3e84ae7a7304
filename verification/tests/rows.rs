use zip2json::generic_error::GenericError;
use zip2json::row::clean_town;
use zip2json::row::normalize_row;
use zip2json::row::split_zip_code;
use zip2json::row::unquote;
use zip2json::row::CSVType;

fn chars(s: &str) -> Vec<char> {
    s.chars().collect()
}

fn text(v: Vec<char>) -> String {
    v.into_iter().collect()
}

#[test]
fn ken_all_row_reads_its_four_columns() {
    let line = "13113,\"150  \",\"1500001\",\"ﾄｳｷｮｳﾄ\",\"ｼﾌﾞﾔｸ\",\"ｼﾞﾝｸﾞｳﾏｴ\",\"東京都\",\"渋谷区\",\"神宮前\",0,0,1,0,0,0";
    let row = normalize_row(line, CSVType::CsvtKenAll).unwrap();
    assert_eq!(row.zip_code, "1500001");
    assert_eq!(row.prefecture, "東京都");
    assert_eq!(row.municipalitie, "渋谷区");
    assert_eq!(row.town_area, "神宮前");
    assert_eq!(row.house_number, "");
    assert_eq!(row.jigyosho, "");
}

#[test]
fn jigyosho_row_reads_its_six_columns() {
    let line = "13113,\"ｶﾌﾞｼｷｶﾞｲｼﾔ\",\"株式会社　見本\",\"東京都\",\"渋谷区\",\"神宮前\",\"１丁目２－３\",\"1508001\",\"150  \",\"渋谷\",0,0,0";
    let row = normalize_row(line, CSVType::CsvtJigyosho).unwrap();
    assert_eq!(row.zip_code, "1508001");
    assert_eq!(row.prefecture, "東京都");
    assert_eq!(row.municipalitie, "渋谷区");
    assert_eq!(row.town_area, "神宮前");
    assert_eq!(row.house_number, "１丁目２－３");
    assert_eq!(row.jigyosho, "株式会社　見本");
}

#[test]
fn quotes_are_stripped_from_every_column_of_a_ken_all_row() {
    let line = "0,1,\"123\",3,4,5,\"123\",\"123\",\"123\"";
    let row = normalize_row(line, CSVType::CsvtKenAll).unwrap();
    assert_eq!(row.zip_code, "123");
    assert_eq!(row.prefecture, "123");
    assert_eq!(row.municipalitie, "123");
    assert_eq!(row.town_area, "123");
}

#[test]
fn quotes_are_stripped_from_every_column_of_a_jigyosho_row() {
    let line = "0,1,\"123\",\"123\",\"123\",\"123\",\"123\",\"123\"";
    let row = normalize_row(line, CSVType::CsvtJigyosho).unwrap();
    assert_eq!(row.zip_code, "123");
    assert_eq!(row.prefecture, "123");
    assert_eq!(row.municipalitie, "123");
    assert_eq!(row.town_area, "123");
    assert_eq!(row.house_number, "123");
    assert_eq!(row.jigyosho, "123");
}

#[test]
fn quotes_are_stripped_wherever_they_stand() {
    assert_eq!(text(unquote(&chars("a\"b\"\"c"))), "abc");
    assert_eq!(text(unquote(&chars("\"\""))), "");
    assert_eq!(text(unquote(&chars("abc"))), "abc");
}

#[test]
fn bracketed_note_is_removed_from_the_town_area() {
    assert_eq!(text(clean_town(chars("渋谷区（その他）"))), "渋谷区");
    assert_eq!(text(clean_town(chars("西新宿新宿センタービル（次のビルを除く）"))), "西新宿新宿センタービル");
    assert_eq!(text(clean_town(chars("西新宿新宿センタービル（地階・階層不明）"))), "西新宿新宿センタービル");
}

#[test]
fn remaining_brackets_are_removed_one_by_one() {
    assert_eq!(text(clean_town(chars("大通西（１～１９丁目）"))), "大通西１～１９丁目");
    assert_eq!(text(clean_town(chars("（（）"))), "");
    assert_eq!(text(clean_town(chars("葛巻（第４０地割「５７番地１２５、１７６を除く」"))), "葛巻第４０地割「５７番地１２５、１７６を除く」");
}

#[test]
fn half_width_brackets_are_kept() {
    assert_eq!(text(clean_town(chars("a(b)"))), "a(b)");
}

#[test]
fn town_area_that_says_nothing_is_listed_becomes_empty() {
    assert_eq!(text(clean_town(chars("以下に掲載がない場合"))), "");
    let line = "01101,\"060  \",\"0600000\",\"ﾎｯｶｲﾄﾞｳ\",\"ｻｯﾎﾟﾛｼﾁｭｳｵｳｸ\",\"ｲｶﾆｹｲｻｲｶﾞﾅｲﾊﾞｱｲ\",\"北海道\",\"札幌市中央区\",\"以下に掲載がない場合\",0,0,0,0,0,0";
    let row = normalize_row(line, CSVType::CsvtKenAll).unwrap();
    assert_eq!(row.town_area, "");
    assert_eq!(row.municipalitie, "札幌市中央区");
}

#[test]
fn sentinel_is_cleared_only_as_the_whole_town_area() {
    assert_eq!(text(clean_town(chars("以下に掲載がない場合（その他）"))), "以下に掲載がない場合");
    assert_eq!(text(clean_town(chars("以下に掲載がない場合 "))), "以下に掲載がない場合 ");
}

#[test]
fn sentinel_inside_quotes_is_cleared_after_the_quotes_are_gone() {
    let line = "0,1,\"0600000\",3,4,5,p,m,\"以下に\"掲載がない場合\"";
    let row = normalize_row(line, CSVType::CsvtKenAll).unwrap();
    assert_eq!(row.town_area, "");
}

#[test]
fn line_with_too_few_fields_is_malformed() {
    let eight = "0,1,2,3,4,5,6,7";
    assert_eq!(normalize_row(eight, CSVType::CsvtKenAll).err(), Some(GenericError::MalformedRow));
    assert!(normalize_row(eight, CSVType::CsvtJigyosho).is_ok());
    let seven = "0,1,2,3,4,5,6";
    assert_eq!(normalize_row(seven, CSVType::CsvtJigyosho).err(), Some(GenericError::MalformedRow));
    assert_eq!(normalize_row("", CSVType::CsvtKenAll).err(), Some(GenericError::MalformedRow));
    assert_eq!(normalize_row("", CSVType::CsvtJigyosho).err(), Some(GenericError::MalformedRow));
}

#[test]
fn line_with_exactly_the_fields_of_its_layout_is_read() {
    let nine = "0,1,1234567,3,4,5,pref,munic,town";
    let row = normalize_row(nine, CSVType::CsvtKenAll).unwrap();
    assert_eq!(row.zip_code, "1234567");
    assert_eq!(row.prefecture, "pref");
    assert_eq!(row.municipalitie, "munic");
    assert_eq!(row.town_area, "town");
}

#[test]
fn normalize_row_does_not_judge_the_postal_code() {
    let row = normalize_row("0,1,\"12\",3,4,5,p,m,t", CSVType::CsvtKenAll).unwrap();
    assert_eq!(row.zip_code, "12");
}

#[test]
fn split_zip_code_cuts_after_three() {
    let (upper, lower) = split_zip_code("1500001").unwrap();
    assert_eq!(upper, "150");
    assert_eq!(lower, "0001");
}

#[test]
fn split_zip_code_of_three_characters_has_an_empty_rest() {
    let (upper, lower) = split_zip_code("150").unwrap();
    assert_eq!(upper, "150");
    assert_eq!(lower, "");
}

#[test]
fn split_zip_code_counts_characters_not_bytes() {
    let (upper, lower) = split_zip_code("１５０0001").unwrap();
    assert_eq!(upper, "１５０");
    assert_eq!(lower, "0001");
}

#[test]
fn split_zip_code_refuses_a_short_code() {
    assert_eq!(split_zip_code("15"), Err(GenericError::MalformedRow));
    assert_eq!(split_zip_code(""), Err(GenericError::MalformedRow));
}
