//! The boundary to the csv crate: reading raw input into rows of byte
//! fields, and writing one output row as a comma-separated line.
//!
//! Both calls are trusted; everything around them - interpreting the rows,
//! building the fields - is verified elsewhere.
use vstd::prelude::*;

verus! {

/// The byte value of the ASCII character ','.
pub const ASCII_COMMA: u8 = 44;

/// The byte value of the ASCII character '"'.
pub const ASCII_QUOTE: u8 = 34;

/// The byte value of the ASCII line feed.
pub const ASCII_LF: u8 = 10;

/// The byte value of the ASCII carriage return.
pub const ASCII_CR: u8 = 13;

/// The views of one row's byte fields.
pub open spec fn fields_view(fields: Seq<Vec<u8>>) -> Seq<Seq<u8>> {
    fields.map_values(|f: Vec<u8>| f@)
}

/// The views of a sequence of rows of byte fields.
pub open spec fn rows_view(rows: Seq<Vec<Vec<u8>>>) -> Seq<Seq<Seq<u8>>> {
    rows.map_values(|r: Vec<Vec<u8>>| fields_view(r@))
}

/// What the reader makes of the raw input: the rows it accepts, in input
/// order, each a sequence of ASCII-trimmed byte fields. The function is not
/// spelled out: the name stands for the csv crate's parse, which depends on
/// the input bytes alone.
pub uninterp spec fn csv_rows(input: Seq<u8>) -> Seq<Seq<Seq<u8>>>;

/// Relies on csv::Reader (headers off, comma delimiter, all fields
/// ASCII-trimmed): `byte_records` yields every well-formed record in input
/// order; malformed records are dropped here, as the permissive input
/// policy asks.
#[verifier::external_body]
pub fn read_rows(input: &[u8]) -> (rows: Vec<Vec<Vec<u8>>>)
    ensures
        rows_view(rows@) == csv_rows(input@),
{
    csv::ReaderBuilder::new()
        .has_headers(false)
        .trim(csv::Trim::All)
        .delimiter(b',')
        .from_reader(input)
        .byte_records()
        .filter_map(|r| r.ok())
        .map(|rec| rec.iter().map(|f| f.to_vec()).collect())
        .collect()
}

/// A field the writer emits verbatim: non-empty, holding no delimiter,
/// quote or line-break byte.
pub open spec fn plain_field(f: Seq<u8>) -> bool {
    &&& f.len() > 0
    &&& forall|i: int|
        0 <= i < f.len() ==> #[trigger] f[i] != ASCII_COMMA && f[i] != ASCII_QUOTE && f[i]
            != ASCII_LF && f[i] != ASCII_CR
}

/// Every field of the row is plain.
pub open spec fn all_plain(fields: Seq<Seq<u8>>) -> bool {
    forall|i: int| 0 <= i < fields.len() ==> plain_field(#[trigger] fields[i])
}

/// The fields of one row joined by commas.
pub open spec fn join_comma(fields: Seq<Seq<u8>>) -> Seq<u8>
    decreases fields.len(),
{
    if fields.len() == 0 {
        Seq::empty()
    } else if fields.len() == 1 {
        fields[0]
    } else {
        join_comma(fields.drop_last()) + seq![ASCII_COMMA] + fields.last()
    }
}

/// One rendered output line: the joined fields and a line feed.
pub open spec fn line_of(fields: Seq<Seq<u8>>) -> Seq<u8> {
    join_comma(fields).push(ASCII_LF)
}

/// Relies on csv::Writer (comma delimiter, quoting only where necessary,
/// line-feed terminator): `write_record` emits plain fields verbatim,
/// separated by the delimiter and closed by the terminator. The contract
/// says nothing of a record without fields: for one, the writer emits a
/// quoted empty field, not a bare terminator.
#[verifier::external_body]
pub fn csv_line(fields: &Vec<Vec<u8>>) -> (r: Vec<u8>)
    ensures
        fields@.len() > 0 && all_plain(fields_view(fields@)) ==> r@ == line_of(
            fields_view(fields@),
        ),
{
    let mut w = csv::WriterBuilder::new().delimiter(b',').from_writer(Vec::new());
    let _ = w.write_record(fields.iter());
    w.into_inner().unwrap_or_default()
}

} // verus!
