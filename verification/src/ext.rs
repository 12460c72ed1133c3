//! The trusted boundary to the outside crates. Each wrapper makes one call
//! into chrono, csv or evtx; what the contracts state of those calls is
//! believed, not proved, and everything downstream is verified against it.

use vstd::prelude::*;

verus! {

/// What an absolute timestamp-with-offset string denotes, in seconds since
/// the UNIX epoch, or nothing when it does not parse. The parse is a function
/// of the characters alone.
pub uninterp spec fn rfc3339_epoch_of(s: Seq<char>) -> Option<i64>;

/// Relies on chrono's `DateTime::parse_from_rfc3339` and `timestamp`: parsing
/// an offset-carrying timestamp depends on the characters alone.
#[verifier::external_body]
pub(crate) fn parse_rfc3339_epoch(s: &str) -> (r: Option<i64>)
    ensures
        r == rfc3339_epoch_of(s@),
{
    match chrono::DateTime::parse_from_rfc3339(s) {
        Ok(dt) => Some(dt.timestamp()),
        Err(_) => None,
    }
}

/// Whether timestamp text parses in the fixed naive local date-time format
/// (date, time, optional fractional seconds). The parse attempt is a function
/// of the characters alone; only the instant the machine-local zone assigns
/// to a parsed value is not.
pub uninterp spec fn naive_parses(s: Seq<char>) -> bool;

/// Outcome of reading timestamp text as a naive local date-time: the text did
/// not parse at all, or it named a single local instant, or the machine-local
/// zone left it ambiguous or nonexistent.
pub enum LocalParse {
    NoParse,
    Resolved(i64),
    Unresolved,
}

/// Relies on chrono's `NaiveDateTime::parse_from_str` (fractional-second
/// format), whose success depends on the characters alone, and on
/// `TimeZone::from_local_datetime` on the machine-local zone, whose outcome
/// depends on that zone — so nothing more relates the result to the text.
#[verifier::external_body]
pub(crate) fn parse_local_naive(s: &str) -> (r: LocalParse)
    ensures
        (r is NoParse) == !naive_parses(s@),
{
    match chrono::NaiveDateTime::parse_from_str(s, "%Y-%m-%d %H:%M:%S%.f") {
        Err(_) => LocalParse::NoParse,
        Ok(ndt) => match chrono::TimeZone::from_local_datetime(&chrono::Local, &ndt) {
            chrono::LocalResult::Single(dt) => LocalParse::Resolved(dt.timestamp()),
            chrono::LocalResult::Ambiguous(_, _) => LocalParse::Unresolved,
            chrono::LocalResult::None => LocalParse::Unresolved,
        },
    }
}

/// The data rows a delimited-text parse yields once the header row is
/// consumed: a function of the bytes alone.
pub uninterp spec fn csv_rows_of(b: Seq<u8>) -> Seq<Seq<Seq<char>>>;

/// Relies on csv's `Reader`: with headers on, `records` yields the fields of
/// each data row and rows that fail to parse are skipped.
#[verifier::external_body]
pub(crate) fn csv_rows(data: &[u8]) -> (r: Vec<Vec<String>>)
    ensures
        r.deep_view() == csv_rows_of(data@),
{
    let mut out: Vec<Vec<String>> = Vec::new();
    let mut rdr = csv::ReaderBuilder::new().has_headers(true).from_reader(data);
    for result in rdr.records() {
        if let Ok(record) = result {
            let mut row: Vec<String> = Vec::new();
            for field in record.iter() {
                row.push(field.to_string());
            }
            out.push(row);
        }
    }
    out
}

/// The record texts a binary event-log archive yields, or nothing when its
/// header is rejected: a function of the bytes alone.
pub uninterp spec fn evtx_texts_of(b: Seq<u8>) -> Option<Seq<Seq<char>>>;

/// Relies on evtx's `EvtxParser`: `from_buffer` validates the archive header,
/// and `records_json` renders each record as JSON text, skipping records that
/// fail to decode.
#[verifier::external_body]
pub(crate) fn evtx_record_texts(data: &[u8]) -> (r: Option<Vec<String>>)
    ensures
        r.deep_view() == evtx_texts_of(data@),
{
    match evtx::EvtxParser::from_buffer(data.to_vec()) {
        Err(_) => None,
        Ok(mut parser) => {
            let mut out: Vec<String> = Vec::new();
            for record in parser.records_json() {
                if let Ok(json) = record {
                    out.push(format!("{:?}", json));
                }
            }
            Some(out)
        },
    }
}

/// Relies on std's `str::from_utf8`: it succeeds exactly on valid UTF-8, and
/// the resulting text is the byte sequence decoded.
#[verifier::external_body]
pub(crate) fn utf8_to_str(data: &[u8]) -> (r: Option<&str>)
    ensures
        (r is Some) == vstd::utf8::valid_utf8(data@),
        match r {
            Some(s) => s@ == vstd::utf8::decode_utf8(data@),
            None => true,
        },
{
    match std::str::from_utf8(data) {
        Ok(s) => Some(s),
        Err(_) => None,
    }
}

} // verus!
