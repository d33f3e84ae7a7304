use zip2json::aggregate::aggregate_lines;
use zip2json::aggregate::process_csv_files;
use zip2json::generic_error::GenericError;
use zip2json::row::normalize_row;
use zip2json::row::CSVType;
use zip2json::store::OneUpperZipStore;
use zip2json::store::ZipDataset;

fn ken_all(zip: &str, pref: &str, munic: &str, town: &str) -> String {
    format!("13113,\"150  \",\"{}\",\"ｶﾅ\",\"ｶﾅ\",\"ｶﾅ\",\"{}\",\"{}\",\"{}\",0,0,1,0,0,0", zip, pref, munic, town)
}

fn jigyosho(zip: &str, pref: &str, munic: &str, town: &str, house: &str, office: &str) -> String {
    format!(
        "13113,\"ｶﾅ\",\"{}\",\"{}\",\"{}\",\"{}\",\"{}\",\"{}\",\"150  \",\"渋谷\",0,0,0",
        office, pref, munic, town, house, zip
    )
}

#[test]
fn new_store_is_empty() {
    let store = OneUpperZipStore::new();
    assert_eq!(store.pair_count(), 0);
    assert_eq!(store.entry_count(), 0);
    assert!(store.pair(1).is_none());
    assert!(store.pair(0).is_none());
    assert!(store.entry("0001").is_none());
    assert!(store.lower_zipcode_at(0).is_none());
}

#[test]
fn new_dataset_is_empty() {
    let dataset = ZipDataset::new();
    assert_eq!(dataset.store_count(), 0);
    assert!(dataset.store("150").is_none());
    assert!(dataset.upper_zipcode_at(0).is_none());
}

#[test]
fn codes_start_at_one_and_count_up() {
    let mut store = OneUpperZipStore::new();
    assert_eq!(store.resolve_or_allocate("東京都".to_string(), "渋谷区".to_string()), 1);
    assert_eq!(store.resolve_or_allocate("東京都".to_string(), "港区".to_string()), 2);
    assert_eq!(store.resolve_or_allocate("神奈川県".to_string(), "渋谷区".to_string()), 3);
    assert_eq!(store.pair_count(), 3);
    assert_eq!(store.pair(2).unwrap().pref, "東京都");
    assert_eq!(store.pair(2).unwrap().munic, "港区");
    assert!(store.pair(4).is_none());
}

#[test]
fn known_pair_resolves_to_its_code_and_adds_nothing() {
    let mut store = OneUpperZipStore::new();
    store.resolve_or_allocate("東京都".to_string(), "渋谷区".to_string());
    store.resolve_or_allocate("東京都".to_string(), "港区".to_string());
    assert_eq!(store.resolve_or_allocate("東京都".to_string(), "渋谷区".to_string()), 1);
    assert_eq!(store.resolve_or_allocate("東京都".to_string(), "港区".to_string()), 2);
    assert_eq!(store.pair_count(), 2);
}

#[test]
fn pairs_are_equal_only_if_both_parts_are() {
    let mut store = OneUpperZipStore::new();
    assert_eq!(store.resolve_or_allocate("a".to_string(), "b".to_string()), 1);
    assert_eq!(store.resolve_or_allocate("a".to_string(), "B".to_string()), 2);
    assert_eq!(store.resolve_or_allocate("a ".to_string(), "b".to_string()), 3);
    assert_eq!(store.resolve_or_allocate("b".to_string(), "a".to_string()), 4);
    assert_eq!(store.resolve_or_allocate("a".to_string(), "b".to_string()), 1);
}

#[test]
fn append_item_makes_an_entry_then_adds_to_it() {
    let mut store = OneUpperZipStore::new();
    let first = store.resolve_or_allocate("東京都".to_string(), "渋谷区".to_string());
    let second = store.resolve_or_allocate("東京都".to_string(), "港区".to_string());
    store.append_item("0001".to_string(), first, vec!["神宮前".to_string()]);
    store.append_item("0001".to_string(), second, vec!["a".to_string(), "b".to_string(), "c".to_string()]);
    store.append_item("0002".to_string(), second, vec!["赤坂".to_string()]);
    assert_eq!(store.entry_count(), 2);
    let entry = store.entry("0001").unwrap();
    assert_eq!(entry.code, 1);
    assert_eq!(entry.address, vec![vec!["神宮前".to_string()], vec!["a".to_string(), "b".to_string(), "c".to_string()]]);
    assert_eq!(store.entry("0002").unwrap().code, 2);
    assert_eq!(store.lower_zipcode_at(0).unwrap(), "0001");
    assert_eq!(store.lower_zipcode_at(1).unwrap(), "0002");
    assert!(store.lower_zipcode_at(2).is_none());
}

#[test]
fn add_row_splits_the_postal_code() {
    let mut dataset = ZipDataset::new();
    let row = normalize_row(&ken_all("1500001", "東京都", "渋谷区", "神宮前"), CSVType::CsvtKenAll).unwrap();
    assert_eq!(dataset.add_row(row, CSVType::CsvtKenAll), Ok(()));
    assert_eq!(dataset.store_count(), 1);
    assert_eq!(dataset.upper_zipcode_at(0).unwrap(), "150");
    let store = dataset.store("150").unwrap();
    assert_eq!(store.pair_count(), 1);
    assert_eq!(store.pair(1).unwrap().pref, "東京都");
    assert_eq!(store.pair(1).unwrap().munic, "渋谷区");
    let entry = store.entry("0001").unwrap();
    assert_eq!(entry.code, 1);
    assert_eq!(entry.address, vec![vec!["神宮前".to_string()]]);
    assert!(dataset.store("151").is_none());
    assert!(store.entry("0002").is_none());
}

#[test]
fn add_row_refuses_a_short_postal_code_and_changes_nothing() {
    let mut dataset = ZipDataset::new();
    let good = normalize_row(&ken_all("1500001", "東京都", "渋谷区", "神宮前"), CSVType::CsvtKenAll).unwrap();
    dataset.add_row(good, CSVType::CsvtKenAll).unwrap();
    let short = normalize_row(&ken_all("15", "東京都", "港区", "赤坂"), CSVType::CsvtKenAll).unwrap();
    assert_eq!(dataset.add_row(short, CSVType::CsvtKenAll), Err(GenericError::MalformedRow));
    assert_eq!(dataset.store_count(), 1);
    assert_eq!(dataset.store("150").unwrap().pair_count(), 1);
    assert_eq!(dataset.store("150").unwrap().entry_count(), 1);
}

#[test]
fn office_row_adds_three_parts() {
    let mut dataset = ZipDataset::new();
    let line = jigyosho("1508001", "東京都", "渋谷区", "神宮前", "１丁目２－３", "株式会社　見本");
    let row = normalize_row(&line, CSVType::CsvtJigyosho).unwrap();
    dataset.add_row(row, CSVType::CsvtJigyosho).unwrap();
    let entry = dataset.store("150").unwrap().entry("8001").unwrap();
    assert_eq!(
        entry.address,
        vec![vec!["神宮前".to_string(), "１丁目２－３".to_string(), "株式会社　見本".to_string()]]
    );
}

#[test]
fn round_trip_of_a_full_row_and_an_office_row() {
    let mut dataset = ZipDataset::new();
    let full = vec![ken_all("1500001", "Tokyo", "Shibuya", "Some Town")];
    let office = vec![jigyosho("1500001", "Tokyo", "Minato", "Other Town", "1-2-3", "Some Office")];
    assert_eq!(process_csv_files(CSVType::CsvtKenAll, &full, &mut dataset), Ok(()));
    assert_eq!(process_csv_files(CSVType::CsvtJigyosho, &office, &mut dataset), Ok(()));
    assert_eq!(dataset.store_count(), 1);
    let store = dataset.store("150").unwrap();
    assert_eq!(store.pair_count(), 2);
    assert_eq!(store.pair(1).unwrap().munic, "Shibuya");
    assert_eq!(store.pair(2).unwrap().munic, "Minato");
    assert_eq!(store.entry_count(), 1);
    let entry = store.entry("0001").unwrap();
    assert_eq!(entry.address.len(), 2);
    assert_eq!(entry.address[0], vec!["Some Town".to_string()]);
    assert_eq!(
        entry.address[1],
        vec!["Other Town".to_string(), "1-2-3".to_string(), "Some Office".to_string()]
    );
    // First write wins: the entry keeps the code of the row that made it.
    assert_eq!(entry.code, 1);
}

#[test]
fn entry_keeps_its_first_code_within_one_registry() {
    let mut dataset = ZipDataset::new();
    let text = [
        ken_all("4980000", "愛知県", "弥富市", "a"),
        ken_all("4980000", "三重県", "桑名郡木曽岬町", "b"),
        ken_all("4980001", "三重県", "桑名郡木曽岬町", "c"),
    ]
    .join("\r\n");
    process_csv_files(CSVType::CsvtKenAll, &vec![text], &mut dataset).unwrap();
    let store = dataset.store("498").unwrap();
    assert_eq!(store.pair(2).unwrap().pref, "三重県");
    assert_eq!(store.entry("0000").unwrap().code, 1);
    assert_eq!(store.entry("0000").unwrap().address.len(), 2);
    assert_eq!(store.entry("0001").unwrap().code, 2);
}

#[test]
fn same_pair_resolves_to_the_same_code_whatever_stands_between() {
    let mut dataset = ZipDataset::new();
    let text = [
        ken_all("1500001", "東京都", "渋谷区", "a"),
        ken_all("1500002", "東京都", "港区", "b"),
        ken_all("1510003", "東京都", "港区", "c"),
        ken_all("1500004", "東京都", "渋谷区", "d"),
        ken_all("1500005", "東京都", "港区", "e"),
    ]
    .join("\n");
    process_csv_files(CSVType::CsvtKenAll, &vec![text], &mut dataset).unwrap();
    let store = dataset.store("150").unwrap();
    assert_eq!(store.pair_count(), 2);
    assert_eq!(store.entry("0001").unwrap().code, 1);
    assert_eq!(store.entry("0004").unwrap().code, 1);
    assert_eq!(store.entry("0002").unwrap().code, 2);
    assert_eq!(store.entry("0005").unwrap().code, 2);
    // Codes belong to one upper postal code: 151 counts from one again.
    let other = dataset.store("151").unwrap();
    assert_eq!(other.pair_count(), 1);
    assert_eq!(other.entry("0003").unwrap().code, 1);
    assert_eq!(other.pair(1).unwrap().munic, "港区");
}

#[test]
fn codes_of_the_first_registry_are_kept_by_the_second() {
    let mut dataset = ZipDataset::new();
    let full = [ken_all("1500001", "東京都", "渋谷区", "a"), ken_all("1500002", "東京都", "港区", "b")].join("\n");
    process_csv_files(CSVType::CsvtKenAll, &vec![full], &mut dataset).unwrap();
    let office = [
        jigyosho("1508001", "東京都", "新宿区", "x", "1", "o1"),
        jigyosho("1508002", "東京都", "港区", "y", "2", "o2"),
    ]
    .join("\n");
    process_csv_files(CSVType::CsvtJigyosho, &vec![office], &mut dataset).unwrap();
    let store = dataset.store("150").unwrap();
    assert_eq!(store.pair(1).unwrap().munic, "渋谷区");
    assert_eq!(store.pair(2).unwrap().munic, "港区");
    assert_eq!(store.pair(3).unwrap().munic, "新宿区");
    assert_eq!(store.entry("8001").unwrap().code, 3);
    assert_eq!(store.entry("8002").unwrap().code, 2);
}

#[test]
fn row_order_decides_which_code_a_pair_gets() {
    let a = ken_all("1500001", "東京都", "渋谷区", "a");
    let b = ken_all("1500002", "東京都", "港区", "b");
    let mut forward = ZipDataset::new();
    process_csv_files(CSVType::CsvtKenAll, &vec![[a.clone(), b.clone()].join("\n")], &mut forward).unwrap();
    let mut backward = ZipDataset::new();
    process_csv_files(CSVType::CsvtKenAll, &vec![[b, a].join("\n")], &mut backward).unwrap();
    assert_eq!(forward.store("150").unwrap().pair(1).unwrap().munic, "渋谷区");
    assert_eq!(backward.store("150").unwrap().pair(1).unwrap().munic, "港区");
    assert_eq!(forward.store("150").unwrap().entry("0001").unwrap().code, 1);
    assert_eq!(backward.store("150").unwrap().entry("0001").unwrap().code, 2);
}

#[test]
fn identical_rows_are_kept_as_often_as_they_come() {
    let mut dataset = ZipDataset::new();
    let line = ken_all("1500001", "東京都", "渋谷区", "神宮前");
    let text = [line.clone(), line.clone(), line].join("\n");
    process_csv_files(CSVType::CsvtKenAll, &vec![text], &mut dataset).unwrap();
    let entry = dataset.store("150").unwrap().entry("0001").unwrap();
    assert_eq!(entry.address, vec![vec!["神宮前".to_string()]; 3]);
    assert_eq!(dataset.store("150").unwrap().pair_count(), 1);
}

#[test]
fn two_runs_over_the_same_lines_agree() {
    let text = [
        ken_all("1500001", "東京都", "渋谷区", "a"),
        ken_all("0600000", "北海道", "札幌市中央区", "以下に掲載がない場合"),
        ken_all("1500001", "東京都", "港区", "b（その他）"),
    ]
    .join("\r\n");
    let mut first = ZipDataset::new();
    let mut second = ZipDataset::new();
    process_csv_files(CSVType::CsvtKenAll, &vec![text.clone()], &mut first).unwrap();
    process_csv_files(CSVType::CsvtKenAll, &vec![text], &mut second).unwrap();
    assert_eq!(format!("{:?}", first), format!("{:?}", second));
    assert_eq!(first.upper_zipcode_at(0).unwrap(), "150");
    assert_eq!(first.upper_zipcode_at(1).unwrap(), "060");
    assert_eq!(first.store("060").unwrap().entry("0000").unwrap().address, vec![vec!["".to_string()]]);
    assert_eq!(first.store("150").unwrap().entry("0001").unwrap().address[1], vec!["b".to_string()]);
}

#[test]
fn malformed_line_stops_the_run_and_keeps_the_rows_before_it() {
    let mut dataset = ZipDataset::new();
    let text = [
        ken_all("1500001", "東京都", "渋谷区", "a"),
        "too,few,fields".to_string(),
        ken_all("1500002", "東京都", "港区", "b"),
    ]
    .join("\n");
    assert_eq!(
        process_csv_files(CSVType::CsvtKenAll, &vec![text], &mut dataset),
        Err(GenericError::MalformedRow)
    );
    let store = dataset.store("150").unwrap();
    assert_eq!(store.entry_count(), 1);
    assert!(store.entry("0001").is_some());
    assert!(store.entry("0002").is_none());
    assert_eq!(store.pair_count(), 1);
}

#[test]
fn short_postal_code_stops_the_run() {
    let mut dataset = ZipDataset::new();
    let text = [ken_all("15", "東京都", "渋谷区", "a"), ken_all("1500002", "東京都", "港区", "b")].join("\n");
    assert_eq!(
        process_csv_files(CSVType::CsvtKenAll, &vec![text], &mut dataset),
        Err(GenericError::MalformedRow)
    );
    assert_eq!(dataset.store_count(), 0);
}

#[test]
fn empty_line_is_malformed() {
    let mut dataset = ZipDataset::new();
    let text = format!("{}\n\n", ken_all("1500001", "東京都", "渋谷区", "a"));
    assert_eq!(
        process_csv_files(CSVType::CsvtKenAll, &vec![text], &mut dataset),
        Err(GenericError::MalformedRow)
    );
    assert_eq!(dataset.store_count(), 1);
}

#[test]
fn files_are_taken_in_one_after_the_other_each_line_once() {
    let mut dataset = ZipDataset::new();
    let files = vec![
        format!("{}\r\n", ken_all("1500001", "東京都", "渋谷区", "a")),
        format!("{}\r\n", ken_all("1500001", "東京都", "港区", "b")),
    ];
    process_csv_files(CSVType::CsvtKenAll, &files, &mut dataset).unwrap();
    let store = dataset.store("150").unwrap();
    assert_eq!(store.pair(1).unwrap().munic, "渋谷区");
    assert_eq!(store.pair(2).unwrap().munic, "港区");
    assert_eq!(store.entry("0001").unwrap().address, vec![vec!["a".to_string()], vec!["b".to_string()]]);
}

#[test]
fn no_files_and_empty_files_add_nothing() {
    let mut dataset = ZipDataset::new();
    assert_eq!(process_csv_files(CSVType::CsvtKenAll, &Vec::new(), &mut dataset), Ok(()));
    assert_eq!(process_csv_files(CSVType::CsvtJigyosho, &vec![String::new()], &mut dataset), Ok(()));
    assert_eq!(dataset.store_count(), 0);
}

#[test]
fn aggregate_lines_takes_lines_as_characters() {
    let mut dataset = ZipDataset::new();
    let lines: Vec<Vec<char>> = vec![
        ken_all("1500001", "東京都", "渋谷区", "a").chars().collect(),
        ken_all("1600001", "東京都", "新宿区", "b").chars().collect(),
    ];
    assert_eq!(aggregate_lines(CSVType::CsvtKenAll, &lines, &mut dataset), Ok(()));
    assert_eq!(dataset.store_count(), 2);
    assert_eq!(dataset.store("160").unwrap().pair(1).unwrap().munic, "新宿区");
}

#[test]
fn upper_postal_code_need_not_be_digits() {
    let mut dataset = ZipDataset::new();
    let text = ken_all("abc-def", "p", "m", "t");
    process_csv_files(CSVType::CsvtKenAll, &vec![text], &mut dataset).unwrap();
    assert_eq!(dataset.store("abc").unwrap().entry("-def").unwrap().code, 1);
}

#[test]
fn stores_and_entries_are_reached_by_position() {
    let mut dataset = ZipDataset::new();
    let text = [
        ken_all("1500001", "東京都", "渋谷区", "a"),
        ken_all("1600002", "東京都", "新宿区", "b"),
        ken_all("1500003", "東京都", "渋谷区", "c"),
    ]
    .join("\n");
    process_csv_files(CSVType::CsvtKenAll, &vec![text], &mut dataset).unwrap();
    assert_eq!(dataset.store_count(), 2);
    assert_eq!(dataset.upper_zipcode_at(1).unwrap(), "160");
    assert_eq!(dataset.store_at(1).unwrap().pair(1).unwrap().munic, "新宿区");
    assert!(dataset.store_at(2).is_none());
    let store = dataset.store_at(0).unwrap();
    assert_eq!(store.lower_zipcode_at(1).unwrap(), "0003");
    assert_eq!(store.entry_at(1).unwrap().address, vec![vec!["c".to_string()]]);
    assert_eq!(store.entry_at(0).unwrap().address, vec![vec!["a".to_string()]]);
    assert!(store.entry_at(2).is_none());
}

#[test]
fn store_add_row_resolves_then_appends() {
    let mut store = OneUpperZipStore::new();
    let row = normalize_row(&ken_all("1500001", "東京都", "渋谷区", "a"), CSVType::CsvtKenAll).unwrap();
    store.add_row("0001".to_string(), row, CSVType::CsvtKenAll);
    let row = normalize_row(
        &jigyosho("1500001", "東京都", "港区", "t", "h", "o"),
        CSVType::CsvtJigyosho,
    )
    .unwrap();
    store.add_row("0009".to_string(), row, CSVType::CsvtJigyosho);
    assert_eq!(store.pair_count(), 2);
    assert_eq!(store.entry("0001").unwrap().code, 1);
    assert_eq!(store.entry("0009").unwrap().code, 2);
    assert_eq!(
        store.entry("0009").unwrap().address,
        vec![vec!["t".to_string(), "h".to_string(), "o".to_string()]]
    );
}
