use vstd::prelude::*;
use vstd::string::StrSliceExecFns;

verus! {

/// What the state-store reader makes of a byte string: the sequence of
/// two-field records it holds, or nothing when the container is
/// structurally unreadable.
pub uninterp spec fn csv_parse(data: Seq<u8>) -> Option<Seq<(Seq<char>, Seq<char>)>>;

/// The records a vector of field pairs stands for.
pub open spec fn rows_view(rows: Seq<(String, String)>) -> Seq<(Seq<char>, Seq<char>)> {
    rows.map_values(|r: (String, String)| (r.0@, r.1@))
}

/// A field that does not begin with a byte-order mark; the reader strips
/// one at the very start of the stream, so only such a field in the first
/// record reads back unchanged.
pub open spec fn bom_free(s: Seq<char>) -> bool {
    s.len() > 0 ==> s[0] != '\u{feff}'
}

/// Decides `bom_free`.
pub fn bom_free_exec(s: &str) -> (r: bool)
    ensures
        r == bom_free(s@),
{
    if s.unicode_len() == 0 {
        true
    } else {
        s.get_char(0) != '\u{feff}'
    }
}

/// Relies on csv's `Reader` over the raw bytes, headerless: the bytes are
/// split into records of comma-separated, optionally quoted fields, a
/// function of the bytes alone; a record without two fields, or a
/// malformed container, yields nothing.
#[verifier::external_body]
pub(crate) fn csv_decode(data: &Vec<u8>) -> (r: Option<Vec<(String, String)>>)
    ensures
        r is Some <==> csv_parse(data@) is Some,
        r matches Some(rows) ==> csv_parse(data@) == Some(rows_view(rows@)),
{
    let mut rdr = csv::ReaderBuilder::new().has_headers(false).from_reader(data.as_slice());
    let mut rows: Vec<(String, String)> = Vec::new();
    for rec in rdr.records() {
        match rec {
            Ok(rc) => match (rc.get(0), rc.get(1)) {
                (Some(a), Some(b)) => rows.push((a.to_string(), b.to_string())),
                _ => return None,
            },
            Err(_) => return None,
        }
    }
    Some(rows)
}

/// Relies on csv's `Writer` over an in-memory buffer: fields are quoted
/// exactly as needed, so reading the written bytes back yields the very
/// records that were written.
#[verifier::external_body]
pub(crate) fn csv_encode(rows: &Vec<(String, String)>) -> (r: Vec<u8>)
    requires
        rows@.len() > 0 ==> bom_free(rows@[0].0@),
    ensures
        csv_parse(r@) == Some(rows_view(rows@)),
{
    let mut w = csv::WriterBuilder::new().from_writer(Vec::new());
    for (a, b) in rows.iter() {
        w.write_record([a.as_str(), b.as_str()]).expect("writing to memory cannot fail");
    }
    w.into_inner().expect("writing to memory cannot fail")
}

} // verus!
