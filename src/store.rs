use vstd::prelude::*;

use crate::record::{record_fields, Employee};

verus! {

/// The rows that the CSV reader finds in `data`, up to the first it cannot
/// read, and whether it read to the end.
pub uninterp spec fn csv_read(data: Seq<u8>) -> (Seq<Seq<Seq<char>>>, bool);

/// The bytes of one CSV row holding `fields`, with its line terminator.
pub uninterp spec fn csv_line(fields: Seq<Seq<char>>) -> Seq<u8>;

/// Relies on `csv::Reader::records` over a byte slice, with no header
/// handling and rows of any length: each row's fields in file order. The
/// reading stops at the first row that the reader reports as an error.
#[verifier::external_body]
fn read_csv(data: &[u8]) -> (r: (Vec<Vec<String>>, bool))
    ensures
        (r.0.deep_view(), r.1) == csv_read(data@),
{
    let mut rdr = csv::ReaderBuilder::new().has_headers(false).flexible(true).from_reader(data);
    let mut rows: Vec<Vec<String>> = Vec::new();
    for rec in rdr.records() {
        match rec {
            Ok(rec) => rows.push(rec.iter().map(String::from).collect()),
            Err(_) => return (rows, false),
        }
    }
    (rows, true)
}

/// Relies on `csv::Writer::write_record` and `csv::Writer::into_inner` over a
/// `Vec<u8>`: the bytes of one row, fields quoted where the CSV format needs it.
/// Writing into a `Vec` never fails, and a writer's first record cannot differ
/// in length from an earlier one, so the result is always `Some`.
#[verifier::external_body]
fn write_csv(fields: &Vec<String>) -> (r: Option<Vec<u8>>)
    ensures
        r is Some,
        r->0@ == csv_line(fields.deep_view()),
{
    let mut wtr = csv::WriterBuilder::new().has_headers(false).from_writer(Vec::new());
    match wtr.write_record(fields) {
        Ok(()) => wtr.into_inner().ok(),
        Err(_) => None,
    }
}

/// The first line of every store file.
pub open spec fn header_text() -> Seq<char> {
    seq![
        'd', 'e', 'p', 'a', 'r', 't', 'm', 'e', 'n', 't', ',',
        'n', 'a', 'm', 'e', ',',
        'a', 'g', 'e', ',',
        's', 'a', 'l', 'a', 'r', 'y', '\n',
    ]
}

/// The whole content of a new, empty store: the header line alone.
pub fn store_header() -> (r: String)
    ensures
        r@ == header_text(),
{
    let s = "department,name,age,salary\n";
    proof {
        reveal_strlit("department,name,age,salary\n");
    }
    let r = s.to_owned();
    assert(r@ =~= header_text());
    r
}

/// The rows of a store file as the CSV reader found them; the header is the
/// first row.
pub struct CsvRows {
    pub rows: Vec<Vec<String>>,
    /// Whether the reader reached the end of the data without an error.
    pub complete: bool,
}

/// Splits the bytes of a store file into rows of fields.
pub fn read_rows(data: &[u8]) -> (r: CsvRows)
    ensures
        (r.rows.deep_view(), r.complete) == csv_read(data@),
{
    let (rows, complete) = read_csv(data);
    CsvRows { rows, complete }
}

/// The bytes to append to a store file to add `e`: one row, no header.
/// Any field content is accepted, empty fields included.
pub fn record_row(e: &Employee) -> (r: Option<Vec<u8>>)
    ensures
        r is Some,
        r->0@ == csv_line(record_fields(e@)),
{
    let fields = e.fields();
    write_csv(&fields)
}

} // verus!
