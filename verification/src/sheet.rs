//! Tables as comma-separated text, written and read by the `csv` crate.
use vstd::prelude::*;
use crate::errors::ApiError;

verus! {

#[verifier::external_type_specification]
#[verifier::external_body]
pub struct ExCsvError(csv::Error);

/// A `csv::Writer` that writes to a vector in memory.
#[verifier::external_body]
pub struct SheetWriter {
    writer: csv::Writer<Vec<u8>>,
}

/// The records that were written to a writer, in the order in which they
/// were written.
pub uninterp spec fn written(writer: SheetWriter) -> Seq<Seq<Seq<char>>>;

/// The bytes of records as comma-separated text, each record with its line
/// end.
pub uninterp spec fn sheet_bytes(records: Seq<Seq<Seq<char>>>) -> Seq<u8>;

/// The records that comma-separated text without a header line holds, if it
/// is well formed and all its records are of one length.
pub uninterp spec fn records_of(bytes: Seq<u8>) -> Option<Seq<Seq<Seq<char>>>>;

/// The texts of a record.
pub open spec fn fields_of(record: Seq<String>) -> Seq<Seq<char>> {
    Seq::new(record.len(), |i: int| record[i]@)
}

/// The texts of records.
pub open spec fn table_of(records: Seq<Vec<String>>) -> Seq<Seq<Seq<char>>> {
    Seq::new(records.len(), |i: int| fields_of(records[i]@))
}

/// `Writer::from_writer` on an empty vector: a writer to which nothing was
/// written yet.
#[verifier::external_body]
pub(crate) fn new_writer() -> (writer: SheetWriter)
    ensures
        written(writer) == Seq::<Seq<Seq<char>>>::empty(),
{
    SheetWriter { writer: csv::Writer::from_writer(Vec::new()) }
}

/// `Writer::write_record`: the record is written after those before it. The
/// writer takes a first record of any length, and after it the records of
/// that length only; writing to a vector in memory does not fail. A writer
/// that has refused a record is not handed back: it holds the fields of
/// that record without their line end.
#[verifier::external_body]
pub(crate) fn write_record(writer: SheetWriter, record: &Vec<String>) -> (r: Result<
    SheetWriter,
    csv::Error,
>)
    ensures
        r is Ok <==> written(writer).len() == 0 || written(writer)[0].len() == record@.len(),
        r matches Ok(next) ==> written(next) == written(writer).push(fields_of(record@)),
{
    let mut writer = writer;
    writer.writer.write_record(record)?;
    Ok(writer)
}

/// `Writer::into_inner`: the bytes of all that was written. Flushing to a
/// vector in memory does not fail.
#[verifier::external_body]
pub(crate) fn written_bytes(writer: SheetWriter) -> (r: Result<Vec<u8>, csv::Error>)
    ensures
        r is Ok,
        r matches Ok(bytes) ==> bytes@ == sheet_bytes(written(writer)),
{
    writer.writer.into_inner().map_err(|e| csv::Error::from(e.into_error()))
}

/// `ReaderBuilder` without headers, `from_reader` on the bytes, and
/// `records` collected: the records of the text, each field as a text.
#[verifier::external_body]
pub(crate) fn read_records(bytes: &Vec<u8>) -> (r: Result<Vec<Vec<String>>, csv::Error>)
    ensures
        match r {
            Ok(records) => records_of(bytes@) == Some(table_of(records@)),
            Err(_) => records_of(bytes@) is None,
        },
{
    let mut reader = csv::ReaderBuilder::new().has_headers(false).from_reader(&bytes[..]);
    reader.records().map(|record| record.map(|fields| fields.iter().map(String::from).collect())).collect()
}

impl From<csv::Error> for ApiError {
    fn from(e: csv::Error) -> (r: ApiError) {
        ApiError::Other
    }
}

impl vstd::std_specs::convert::FromSpecImpl<csv::Error> for ApiError {
    open spec fn obeys_from_spec() -> bool {
        true
    }

    open spec fn from_spec(e: csv::Error) -> ApiError {
        ApiError::Other
    }
}

/// All records are of one length.
pub open spec fn rectangular(records: Seq<Seq<Seq<char>>>) -> bool {
    forall|i: int| 0 <= i < records.len() ==> (#[trigger] records[i]).len() == records[0].len()
}

/// The records as comma-separated text. Records of different lengths make
/// no sheet.
pub fn write_sheet(records: &Vec<Vec<String>>) -> (r: Result<Vec<u8>, ApiError>)
    ensures
        r is Ok <==> rectangular(table_of(records@)),
        r matches Ok(bytes) ==> bytes@ == sheet_bytes(table_of(records@)),
        r matches Err(e) ==> e == ApiError::Other,
{
    let ghost table = table_of(records@);
    let mut writer = new_writer();
    let mut i: usize = 0;
    assert(table.take(0) =~= written(writer));
    while i < records.len()
        invariant
            i <= records.len(),
            table == table_of(records@),
            written(writer) == table.take(i as int),
            forall|j: int| 0 <= j < i ==> (#[trigger] table[j]).len() == table[0].len(),
        decreases records.len() - i,
    {
        assert(table[i as int].len() == records@[i as int]@.len());
        if i > 0 {
            assert(table.take(i as int)[0] == table[0]);
        }
        writer = match write_record(writer, &records[i]) {
            Ok(next) => next,
            Err(e) => {
                assert(table[i as int].len() != table[0].len());
                return Err(ApiError::from(e));
            },
        };
        assert(table.take(i + 1) =~= table.take(i as int).push(table[i as int]));
        i += 1;
    }
    assert(table.take(records.len() as int) =~= table);
    match written_bytes(writer) {
        Ok(bytes) => Ok(bytes),
        Err(e) => Err(ApiError::from(e)),
    }
}

/// A text of its own.
pub fn text(s: &str) -> (r: String)
    ensures
        r@ == s@,
{
    s.to_owned()
}

} // verus!
