use vstd::prelude::*;

verus! {

/// The header record that the `csv` crate reads from a text with its default settings.
pub uninterp spec fn csv_header_of(text: Seq<char>) -> Seq<Seq<char>>;

/// The data records that the `csv` crate reads from a text with its default settings, in file
/// order: the fields of each record that decoded, `None` for each that did not.
pub uninterp spec fn csv_rows_of(text: Seq<char>) -> Seq<Option<Seq<Seq<char>>>>;

/// Relies on `csv::Reader::headers` (default `ReaderBuilder`): the fields of the first record.
/// A header that cannot be read is taken as no header at all.
#[verifier::external_body]
pub(crate) fn csv_headers(text: &str) -> (r: Vec<String>)
    ensures
        r.deep_view() == csv_header_of(text@),
{
    let mut rdr = csv::ReaderBuilder::new().from_reader(text.as_bytes());
    match rdr.headers() {
        Ok(h) => h.iter().map(String::from).collect(),
        Err(_) => Vec::new(),
    }
}

/// Relies on `csv::Reader::records` (default `ReaderBuilder`): one item per data record in file
/// order; a record that fails to decode (for instance one whose field count differs from the
/// header's) yields an error and reading goes on with the next record.
#[verifier::external_body]
pub(crate) fn csv_records(text: &str) -> (r: Vec<Option<Vec<String>>>)
    ensures
        r.deep_view() == csv_rows_of(text@),
{
    let mut rdr = csv::ReaderBuilder::new().from_reader(text.as_bytes());
    rdr.records().map(|rec| rec.ok().map(|f| f.iter().map(String::from).collect())).collect()
}

} // verus!
