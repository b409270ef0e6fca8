use recochan::csvdata::{anime_of_file_name, parse_id, ratings_of_csv, ratings_of_records, CsvRating};

fn pairs(ratings: Vec<CsvRating>) -> Vec<(u64, String)> {
    ratings.into_iter().map(|r| (r.userid, r.rating)).collect()
}

fn texts(records: &[&[&str]]) -> Vec<Vec<String>> {
    records.iter().map(|fields| fields.iter().map(|f| f.to_string()).collect()).collect()
}

#[test]
fn digits_are_an_id() {
    assert_eq!(parse_id("0"), Some(0));
    assert_eq!(parse_id("42"), Some(42));
    assert_eq!(parse_id("007"), Some(7));
    assert_eq!(parse_id("+7"), Some(7));
    assert_eq!(parse_id("18446744073709551615"), Some(u64::MAX));
    assert_eq!(parse_id("000018446744073709551615"), Some(u64::MAX));
}

#[test]
fn anything_else_is_no_id() {
    assert_eq!(parse_id(""), None);
    assert_eq!(parse_id("+"), None);
    assert_eq!(parse_id("-1"), None);
    assert_eq!(parse_id("++1"), None);
    assert_eq!(parse_id("1+"), None);
    assert_eq!(parse_id("12a"), None);
    assert_eq!(parse_id(" 12"), None);
    assert_eq!(parse_id("12 "), None);
    assert_eq!(parse_id("1.5"), None);
    assert_eq!(parse_id("١٢"), None);
    assert_eq!(parse_id("18446744073709551616"), None);
    assert_eq!(parse_id("99999999999999999999999"), None);
}

#[test]
fn ids_are_read_as_the_standard_library_reads_them() {
    let samples = [
        "", "+", "-", "0", "+0", "-0", "9", "10", "0010", "+12", "12+", "1 2", "a", "18446744073709551615",
        "18446744073709551616", "18446744073709551625", "28446744073709551615", "+18446744073709551615",
        "1844674407370955161", "184467440737095516150", "٣", "1e3", "0x10",
    ];
    for text in samples {
        assert_eq!(parse_id(text), text.parse::<u64>().ok(), "{:?}", text);
    }
}

#[test]
fn only_csv_files_named_after_an_id_hold_ratings() {
    assert_eq!(anime_of_file_name("csv", "310"), Some(310));
    assert_eq!(anime_of_file_name("txt", "310"), None);
    assert_eq!(anime_of_file_name("", "310"), None);
    assert_eq!(anime_of_file_name("CSV", "310"), None);
    assert_eq!(anime_of_file_name("csv", "readme"), None);
    assert_eq!(anime_of_file_name("csv", ""), None);
}

#[test]
fn rows_of_a_file() {
    let found = ratings_of_csv(b"10,8\n11,6.5\n12,10\n");
    assert_eq!(pairs(found), vec![(10, "8".to_string()), (11, "6.5".to_string()), (12, "10".to_string())]);
}

#[test]
fn rows_without_a_user_id_are_skipped() {
    let found = ratings_of_csv(b"10,8\nsomebody,4\n-3,4\n11,6\n");
    assert_eq!(pairs(found), vec![(10, "8".to_string()), (11, "6".to_string())]);
}

#[test]
fn quoted_fields_are_read_as_csv() {
    let found = ratings_of_csv(b"\"10\",\"8,5\"\n11,x\n");
    assert_eq!(pairs(found), vec![(10, "8,5".to_string()), (11, "x".to_string())]);
}

#[test]
fn records_that_cannot_be_read_are_skipped() {
    let found = ratings_of_csv(b"10,8\n11,6,extra\n12,4\n");
    assert_eq!(pairs(found), vec![(10, "8".to_string()), (12, "4".to_string())]);
    let found = ratings_of_csv(b"10,8\n11,\xff\n12,4\n");
    assert_eq!(pairs(found), vec![(10, "8".to_string()), (12, "4".to_string())]);
}

#[test]
fn an_empty_file_holds_no_ratings() {
    assert!(ratings_of_csv(b"").is_empty());
    assert!(ratings_of_csv(b"\n\n").is_empty());
}

#[test]
fn records_with_one_field_hold_no_rating() {
    assert!(ratings_of_csv(b"10\n11\n").is_empty());
    assert!(ratings_of_csv(b"10\n11,3\n").is_empty());
    let records = texts(&[&["10"], &["11", "3"], &[], &["x", "3"], &["12", "4", "more"]]);
    let found = ratings_of_records(&records);
    assert_eq!(pairs(found), vec![(11, "3".to_string()), (12, "4".to_string())]);
}
