//! Ratings in CSV files: one file per item, named after the item's id,
//! with one row per rating, the user's id first and the rating second.

use vstd::prelude::*;
use crate::ratings::Id;

verus! {

/// The value of a decimal digit.
pub open spec fn digit(c: char) -> Option<nat> {
    if c == '0' {
        Some(0)
    } else if c == '1' {
        Some(1)
    } else if c == '2' {
        Some(2)
    } else if c == '3' {
        Some(3)
    } else if c == '4' {
        Some(4)
    } else if c == '5' {
        Some(5)
    } else if c == '6' {
        Some(6)
    } else if c == '7' {
        Some(7)
    } else if c == '8' {
        Some(8)
    } else if c == '9' {
        Some(9)
    } else {
        None
    }
}

/// The number that a sequence of decimal digits writes, if all of them
/// are digits; leading zeros count for nothing, and no digits write zero.
pub open spec fn decimal(digits: Seq<char>) -> Option<nat>
    decreases digits.len(),
{
    if digits.len() == 0 {
        Some(0)
    } else {
        match (decimal(digits.drop_last()), digit(digits.last())) {
            (Some(value), Some(d)) => Some(value * 10 + d),
            _ => None,
        }
    }
}

/// A text without the plus sign that it may begin with.
pub open spec fn unsigned(text: Seq<char>) -> Seq<char> {
    if text.len() > 0 && text[0] == '+' {
        text.drop_first()
    } else {
        text
    }
}

/// The id that a text writes: one or more decimal digits, after a plus
/// sign or without one, that write a number within the range of ids.
pub open spec fn parsed_id(text: Seq<char>) -> Option<Id> {
    let digits = unsigned(text);
    if digits.len() == 0 {
        None
    } else {
        match decimal(digits) {
            Some(value) => if value <= u64::MAX {
                Some(value as Id)
            } else {
                None
            },
            None => None,
        }
    }
}

/// What the beginning of a text writes bounds what the whole text writes:
/// where the beginning holds something else than digits, so does the
/// whole, and otherwise the whole writes no smaller number.
pub proof fn lemma_decimal_grows(digits: Seq<char>, k: int)
    requires
        0 <= k <= digits.len(),
    ensures
        decimal(digits.take(k)).is_none() ==> decimal(digits).is_none(),
        decimal(digits).is_some() ==> decimal(digits.take(k)).unwrap() <= decimal(digits).unwrap(),
    decreases digits.len() - k,
{
    if k == digits.len() {
        assert(digits.take(k) =~= digits);
    } else {
        lemma_decimal_grows(digits.drop_last(), k);
        assert(digits.drop_last().take(k) =~= digits.take(k));
    }
}

/// The value of a decimal digit.
fn digit_of(c: char) -> (d: Option<u64>)
    ensures
        match d {
            Some(value) => digit(c) == Some(value as nat),
            None => digit(c).is_none(),
        },
        d matches Some(value) ==> value <= 9,
{
    match c {
        '0' => Some(0),
        '1' => Some(1),
        '2' => Some(2),
        '3' => Some(3),
        '4' => Some(4),
        '5' => Some(5),
        '6' => Some(6),
        '7' => Some(7),
        '8' => Some(8),
        '9' => Some(9),
        _ => None,
    }
}

/// Reads an id as the standard library reads an unsigned number: decimal
/// digits, after a plus sign or without one, and nothing else; a number
/// that is too large for an id is no id.
pub fn parse_id(text: &str) -> (id: Option<Id>)
    ensures
        id == parsed_id(text@),
{
    let ghost digits = unsigned(text@);
    let ghost start = text@.len() - digits.len();
    let mut value: u64 = 0;
    let mut first = true;
    let mut any = false;
    for c in it: text.chars()
        invariant
            it.seq() == text@,
            digits == unsigned(text@),
            start == text@.len() - digits.len(),
            first == (it.index() == 0),
            any == (it.index() > start),
            it.index() <= start ==> value == 0,
            it.index() >= start ==> decimal(digits.take(it.index() - start)) == Some(value as nat),
    {
        let sign = first && c == '+';
        first = false;
        proof {
            assert(text@[it.index() as int] == c);
            assert(digits.take(0) =~= Seq::<char>::empty());
        }
        if !sign {
            proof {
                let k = it.index() - start;
                assert(digits[k] == c);
                lemma_decimal_grows(digits, k + 1);
                assert(digits.take(k + 1).drop_last() =~= digits.take(k));
                assert(digits.take(k + 1).last() == c);
            }
            match digit_of(c) {
                None => {
                    return None;
                },
                Some(d) => {
                    if value > (u64::MAX - d) / 10 {
                        proof {
                            assert(value * 10 + d > u64::MAX);
                        }
                        return None;
                    }
                    value = value * 10 + d;
                    any = true;
                },
            }
        }
    }
    proof {
        assert(digits.take(digits.len() as int) =~= digits);
    }
    if any {
        Some(value)
    } else {
        None
    }
}

/// The id of the item whose ratings a file holds: the stem of the file's
/// name read as an id, for a file whose extension is `csv`. Other files
/// hold no ratings.
pub open spec fn anime_of_file(extension: Seq<char>, stem: Seq<char>) -> Option<Id> {
    if extension == "csv"@ {
        parsed_id(stem)
    } else {
        None
    }
}

/// The id of the item whose ratings the file with this name holds.
pub fn anime_of_file_name(extension: &str, stem: &str) -> (animeid: Option<Id>)
    ensures
        animeid == anime_of_file(extension@, stem@),
{
    if extension.to_owned() == "csv".to_owned() {
        parse_id(stem)
    } else {
        None
    }
}

/// One row of a file of ratings: who rated, and the rating as it is
/// written in the file.
pub struct CsvRating {
    pub userid: Id,
    pub rating: String,
}

impl View for CsvRating {
    type V = (Id, Seq<char>);

    open spec fn view(&self) -> (Id, Seq<char>) {
        (self.userid, self.rating@)
    }
}

/// The records of a CSV text without a header row, each record as the
/// list of its fields; records that cannot be read are left out.
pub uninterp spec fn csv_records(content: Seq<u8>) -> Seq<Seq<Seq<char>>>;

/// Reads CSV with the `csv` crate: a `Reader` without headers over the
/// bytes, and the `StringRecord`s that its `records` hands out.
///
/// Trusted: the result holds the fields of each record that the reader
/// hands out, in order; where the reader reports an error instead of a
/// record, nothing is added and reading goes on.
#[verifier::external_body]
fn read_records(content: &[u8]) -> (records: Vec<Vec<String>>)
    ensures
        records.deep_view() == csv_records(content@),
{
    let mut reader = csv::ReaderBuilder::new().has_headers(false).from_reader(content);
    let mut records: Vec<Vec<String>> = Vec::new();
    for record in reader.records() {
        match record {
            Ok(fields) => records.push(fields.iter().map(|field| field.to_owned()).collect()),
            Err(_) => {},
        }
    }
    records
}

/// The rating in a record: the first field read as the user's id, and the
/// second field as it stands. A record with fewer than two fields, or
/// whose first field is no id, holds no rating.
pub open spec fn rating_in(record: Seq<Seq<char>>) -> Option<(Id, Seq<char>)> {
    if record.len() < 2 {
        None
    } else {
        match parsed_id(record[0]) {
            Some(userid) => Some((userid, record[1])),
            None => None,
        }
    }
}

/// The ratings in a sequence of records, in the order of the records.
pub open spec fn ratings_in(records: Seq<Seq<Seq<char>>>) -> Seq<(Id, Seq<char>)>
    decreases records.len(),
{
    if records.len() == 0 {
        Seq::empty()
    } else {
        match rating_in(records.last()) {
            Some(rating) => ratings_in(records.drop_last()).push(rating),
            None => ratings_in(records.drop_last()),
        }
    }
}

/// The ratings that records hold; records that hold none are skipped.
pub fn ratings_of_records(records: &Vec<Vec<String>>) -> (ratings: Vec<CsvRating>)
    ensures
        ratings@.map_values(|r: CsvRating| r@) == ratings_in(records.deep_view()),
{
    let mut ratings: Vec<CsvRating> = Vec::new();
    let ghost all = records.deep_view();
    let mut n: usize = 0;
    while n < records.len()
        invariant
            n <= records.len(),
            all == records.deep_view(),
            all.len() == records@.len(),
            ratings@.map_values(|r: CsvRating| r@) == ratings_in(all.take(n as int)),
        decreases records.len() - n,
    {
        let record = &records[n];
        proof {
            assert(all.take(n + 1).drop_last() =~= all.take(n as int));
            assert(all.take(n + 1).last() == record.deep_view());
            assert(record.deep_view().len() == record@.len());
        }
        if record.len() >= 2 {
            proof {
                assert(record.deep_view()[0] == record@[0]@);
                assert(record.deep_view()[1] == record@[1]@);
            }
            match parse_id(record[0].as_str()) {
                Some(userid) => {
                    let ghost before = ratings@;
                    let rating = CsvRating { userid, rating: record[1].clone() };
                    ratings.push(rating);
                    proof {
                        assert(ratings@.map_values(|r: CsvRating| r@) =~= before.map_values(
                            |r: CsvRating| r@,
                        ).push(rating@));
                    }
                },
                None => {},
            }
        }
        n = n + 1;
    }
    proof {
        assert(all.take(all.len() as int) =~= all);
    }
    ratings
}

/// The ratings in a CSV text without a header row: of each record, the
/// user's id and the rating as it is written. Records that cannot be
/// read, records with fewer than two fields and records whose first field
/// is no id are skipped.
pub fn ratings_of_csv(content: &[u8]) -> (ratings: Vec<CsvRating>)
    ensures
        ratings@.map_values(|r: CsvRating| r@) == ratings_in(csv_records(content@)),
{
    let records = read_records(content);
    ratings_of_records(&records)
}

} // verus!
