use csv::ReaderBuilder;
use vstd::prelude::*;
use vstd::string::StringSliceAdditionalSpecFns;

verus! {

/// The texts of a row of fields.
pub open spec fn texts(row: Seq<String>) -> Seq<Seq<char>> {
    row.map_values(|field: String| field@)
}

/// The texts of rows of fields.
pub open spec fn rows_texts(rows: Seq<Vec<String>>) -> Seq<Seq<Seq<char>>> {
    rows.map_values(|row: Vec<String>| texts(row@))
}

/// What the `csv` crate reads from `content`, with `;` as the delimiter and the first row
/// taken as the header: the header's fields, then the fields of every other row;
/// `None` if the reader reports an error for the header or a row.
pub uninterp spec fn semicolon_csv(content: Seq<u8>) -> Option<Seq<Seq<Seq<char>>>>;

/// `csv::ReaderBuilder::new().delimiter(b';').from_reader(content)`, then `Reader::headers`
/// and every record of `Reader::records`, each field turned into a `String`: the result is
/// `semicolon_csv(content)`, split into the header and the other rows.
#[verifier::external_body]
fn read_semicolon_csv(content: &[u8]) -> (r: Option<(Vec<String>, Vec<Vec<String>>)>)
    ensures
        match r {
            Some((header, records)) => semicolon_csv(content@) == Some(
                seq![texts(header@)] + rows_texts(records@),
            ),
            None => semicolon_csv(content@) is None,
        },
{
    let mut reader = ReaderBuilder::new().delimiter(b';').from_reader(content);
    let header: Vec<String> = match reader.headers() {
        Ok(h) => h.iter().map(|field| field.to_string()).collect(),
        Err(_) => return None,
    };
    let mut records: Vec<Vec<String>> = Vec::new();
    for record in reader.records() {
        match record {
            Ok(r) => records.push(r.iter().map(|field| field.to_string()).collect()),
            Err(_) => return None,
        }
    }
    Some((header, records))
}

/// All cells of the CSV text `content` (fields separated by `;`), line by line, the header
/// line first. `None` if the CSV could not be read.
pub fn get_csv_contents_with_header(content: &str) -> (r: Option<Vec<Vec<String>>>)
    ensures
        match r {
            Some(lines) => semicolon_csv(content.spec_bytes()) == Some(rows_texts(lines@)),
            None => semicolon_csv(content.spec_bytes()) is None,
        },
{
    match read_semicolon_csv(content.as_bytes()) {
        None => None,
        Some((header, records)) => {
            let ghost rest = records@;
            let mut lines = records;
            lines.insert(0, header);
            proof {
                assert(rows_texts(lines@) =~= seq![texts(header@)] + rows_texts(rest));
            }
            Some(lines)
        },
    }
}

} // verus!
