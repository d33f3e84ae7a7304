use zip2json::aggregate::process_csv_files;
use zip2json::emit::upper_zipcode_of;
use zip2json::emit::EmitStep;
use zip2json::row::CSVType;
use zip2json::store::ZipDataset;

fn ken_all(zip: &str, pref: &str, munic: &str, town: &str) -> String {
    format!("13113,\"150  \",\"{}\",\"ｶﾅ\",\"ｶﾅ\",\"ｶﾅ\",\"{}\",\"{}\",\"{}\",0,0,1,0,0,0", zip, pref, munic, town)
}

fn sample() -> ZipDataset {
    let mut dataset = ZipDataset::new();
    let text = [
        ken_all("9998765", "山形県", "酒田市", "z"),
        ken_all("1500001", "東京都", "渋谷区", "a"),
        ken_all("0010002", "北海道", "札幌市北区", "b"),
        ken_all("0000003", "x", "y", "c"),
        ken_all("abc0004", "x", "y", "d"),
    ]
    .join("\n");
    process_csv_files(CSVType::CsvtKenAll, &vec![text], &mut dataset).unwrap();
    dataset
}

#[test]
fn upper_zipcode_has_three_digits() {
    assert_eq!(upper_zipcode_of(1), "001");
    assert_eq!(upper_zipcode_of(42), "042");
    assert_eq!(upper_zipcode_of(150), "150");
    assert_eq!(upper_zipcode_of(999), "999");
    assert_eq!(upper_zipcode_of(0), "000");
    assert_eq!(upper_zipcode_of(100), "100");
    assert_eq!(upper_zipcode_of(909), "909");
}

#[test]
fn upper_zipcode_with_rows_gives_a_document() {
    let dataset = sample();
    match dataset.emit_step(150) {
        EmitStep::Document { upper_zipcode, file_name, store } => {
            assert_eq!(upper_zipcode, "150");
            assert_eq!(file_name, "150.json");
            assert_eq!(store.pair(1).unwrap().munic, "渋谷区");
            assert_eq!(store.entry("0001").unwrap().address, vec![vec!["a".to_string()]]);
        }
        EmitStep::Empty => panic!("150 has rows"),
    }
}

#[test]
fn upper_zipcode_without_rows_gives_no_document() {
    let dataset = sample();
    assert!(matches!(dataset.emit_step(151), EmitStep::Empty));
    assert!(matches!(dataset.emit_step(2), EmitStep::Empty));
    assert!(matches!(ZipDataset::new().emit_step(150), EmitStep::Empty));
}

#[test]
fn plan_goes_through_001_to_999_in_ascending_order() {
    let dataset = sample();
    let plan = dataset.emission_plan();
    assert_eq!(plan.len(), 999);
    let mut names = Vec::new();
    for (k, step) in plan.iter().enumerate() {
        match step {
            EmitStep::Document { upper_zipcode, file_name, .. } => {
                assert_eq!(*upper_zipcode, format!("{:03}", k + 1));
                names.push(file_name.clone());
            }
            EmitStep::Empty => {}
        }
    }
    // Discovered as 999, 150, 001: written as 001, 150, 999. The stores
    // under 000 and under abc are outside 001 to 999 and give no document.
    assert_eq!(names, vec!["001.json", "150.json", "999.json"]);
}

#[test]
fn plan_of_an_empty_dataset_has_no_document() {
    let dataset = ZipDataset::new();
    let plan = dataset.emission_plan();
    assert_eq!(plan.len(), 999);
    assert!(plan.iter().all(|step| matches!(step, EmitStep::Empty)));
}
