//! Comma-separated tables of market data.
use crate::text::{same_text, texts};
use vstd::prelude::*;

verus! {

/// The header row of a table that is read with `csv::Reader`, or the message of its error.
pub uninterp spec fn csv_headers(contents: Seq<char>) -> Result<Seq<Seq<char>>, Seq<char>>;

/// The rows below the header of a table that is read with `csv::Reader`, each of which is a
/// list of fields or the message of an error.
pub uninterp spec fn csv_records(contents: Seq<char>) -> Seq<Result<Seq<Seq<char>>, Seq<char>>>;

/// The texts of a row, or of the error in its place.
pub open spec fn row_model(row: Result<Vec<String>, String>) -> Result<Seq<Seq<char>>, Seq<char>> {
    match row {
        Ok(fields) => Ok(texts(fields@)),
        Err(message) => Err(message@),
    }
}

/// The texts of a list of rows.
pub open spec fn rows_model(
    rows: Seq<Result<Vec<String>, String>>,
) -> Seq<Result<Seq<Seq<char>>, Seq<char>>> {
    rows.map_values(|row: Result<Vec<String>, String>| row_model(row))
}

/// Read the header row with `csv::Reader::headers`. It is a function of the contents alone.
#[verifier::external_body]
fn read_headers(contents: &str) -> (result: Result<Vec<String>, String>)
    ensures
        row_model(result) == csv_headers(contents@),
{
    match csv::Reader::from_reader(contents.as_bytes()).headers() {
        Ok(headers) => Ok(headers.iter().map(|header| header.to_string()).collect()),
        Err(error) => Err(error.to_string()),
    }
}

/// Read the rows below the header with `csv::Reader::records`. They are a function of the
/// contents alone: a reader over bytes in memory meets no input error.
#[verifier::external_body]
fn read_records(contents: &str) -> (result: Vec<Result<Vec<String>, String>>)
    ensures
        rows_model(result@) == csv_records(contents@),
{
    csv::Reader::from_reader(contents.as_bytes())
        .records()
        .map(|record| match record {
            Ok(fields) => Ok(fields.iter().map(|field| field.to_string()).collect()),
            Err(error) => Err(error.to_string()),
        })
        .collect()
}

/// A table that has been read.
pub struct Table {
    /// The names of the columns, or the message about a malformed header row.
    pub headers: Result<Vec<String>, String>,
    /// The rows below the header, each a list of fields or the message about a malformed row.
    pub records: Vec<Result<Vec<String>, String>>,
}

/// The mathematical model of a [`Table`].
#[verifier::ext_equal]
pub struct TableModel {
    pub headers: Result<Seq<Seq<char>>, Seq<char>>,
    pub records: Seq<Result<Seq<Seq<char>>, Seq<char>>>,
}

impl View for Table {
    type V = TableModel;

    open spec fn view(&self) -> TableModel {
        TableModel { headers: row_model(self.headers), records: rows_model(self.records@) }
    }
}

/// The table that a text holds.
pub open spec fn table_of(contents: Seq<char>) -> TableModel {
    TableModel { headers: csv_headers(contents), records: csv_records(contents) }
}

/// Read the table that a text holds.
pub fn read_table(contents: &str) -> (result: Table)
    ensures
        result@ == table_of(contents@),
{
    Table { headers: read_headers(contents), records: read_records(contents) }
}

/// The position of the first column with a name.
pub open spec fn position(headers: Seq<Seq<char>>, name: Seq<char>) -> Option<int>
    decreases headers.len(),
{
    if headers.len() == 0 {
        None
    } else {
        match position(headers.drop_last(), name) {
            Some(index) => Some(index),
            None => if headers.last() == name {
                Some(headers.len() - 1)
            } else {
                None
            },
        }
    }
}

/// Locate the first column with a name.
pub fn column_position(headers: &Vec<String>, name: &str) -> (result: Option<usize>)
    ensures
        match result {
            Some(index) => {
                &&& position(texts(headers@), name@) == Some(index as int)
                &&& index < headers@.len()
                &&& headers@[index as int]@ == name@
                &&& forall|earlier: int|
                    0 <= earlier < index ==> (#[trigger] headers@[earlier])@ != name@
            },
            None => {
                &&& position(texts(headers@), name@) is None
                &&& forall|index: int|
                    0 <= index < headers@.len() ==> (#[trigger] headers@[index])@ != name@
            },
        },
{
    for index in 0..headers.len()
        invariant
            position(texts(headers@).take(index as int), name@) is None,
            forall|earlier: int|
                0 <= earlier < index ==> (#[trigger] headers@[earlier])@ != name@,
    {
        let ghost names = texts(headers@);
        assert(names.take(index + 1).drop_last() =~= names.take(index as int));
        if same_text(&headers[index], name) {
            proof {
                lemma_position_of_prefix(names, name@, index + 1);
            }
            return Some(index);
        }
    }
    assert(texts(headers@).take(headers.len() as int) =~= texts(headers@));
    None
}

/// A column that is found in the first columns is found at the same place in all of them.
pub(crate) proof fn lemma_position_of_prefix(headers: Seq<Seq<char>>, name: Seq<char>, count: int)
    requires
        0 <= count <= headers.len(),
        position(headers.take(count), name) is Some,
    ensures
        position(headers, name) == position(headers.take(count), name),
    decreases headers.len(),
{
    if count < headers.len() {
        assert(headers.drop_last().take(count) =~= headers.take(count));
        lemma_position_of_prefix(headers.drop_last(), name, count);
    } else {
        assert(headers.take(count) =~= headers);
    }
}

/// The field of a row at a position, if the row reaches that far.
pub open spec fn field(row: Seq<Seq<char>>, index: int) -> Option<Seq<char>> {
    if 0 <= index < row.len() {
        Some(row[index])
    } else {
        None
    }
}

/// The text of an optional string.
pub open spec fn optional_text(value: Option<&str>) -> Option<Seq<char>> {
    match value {
        Some(text) => Some(text@),
        None => None,
    }
}

/// The field of a row at a position, if the row reaches that far.
pub fn field_at(row: &Vec<String>, index: usize) -> (result: Option<&str>)
    ensures
        optional_text(result) == field(texts(row@), index as int),
{
    if index < row.len() {
        Some(row[index].as_str())
    } else {
        None
    }
}

} // verus!
