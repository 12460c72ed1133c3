//! The log-source adapter's computation: splitting the combined output of a
//! native structured query into individual event documents and decoding each,
//! and wrapping plain text-log lines as minimally populated records. The
//! process execution and file reading that feed these functions live outside
//! the library.

use vstd::prelude::*;
use vstd::string::*;
use crate::record::EventRecord;
use crate::decode::{decoded_event, parse_event};
use crate::text::{trim_spec, trim_str, str_eq};

verus! {

/// First index at or after `i` where the event terminator `</Event>` begins,
/// or the length if it occurs nowhere further.
pub open spec fn find_event_end(s: Seq<char>, i: int) -> int
    decreases s.len() - i when 0 <= i <= s.len()
{
    if i + 8 > s.len() {
        s.len() as int
    } else if s.subrange(i, i + 8) == "</Event>"@ {
        i
    } else {
        find_event_end(s, i + 1)
    }
}

pub proof fn lemma_find_event_end_bounds(s: Seq<char>, i: int)
    requires
        0 <= i <= s.len(),
    ensures
        i <= find_event_end(s, i) <= s.len(),
        find_event_end(s, i) + 8 <= s.len() || find_event_end(s, i) == s.len(),
    decreases s.len() - i,
{
    if !(i + 8 > s.len()) && s.subrange(i, i + 8) != "</Event>"@ {
        lemma_find_event_end_bounds(s, i + 1);
    }
}

fn find_event_end_exec(s: &str, i: usize) -> (r: usize)
    requires
        i <= s@.len(),
    ensures
        r == find_event_end(s@, i as int),
        i <= r <= s@.len(),
    decreases s@.len() - i,
{
    proof { lemma_find_event_end_bounds(s@, i as int); }
    let n = s.unicode_len();
    if n < 8 || i > n - 8 {
        n
    } else if str_eq(s.substring_char(i, i + 8), "</Event>") {
        i
    } else {
        find_event_end_exec(s, i + 1)
    }
}

/// The event documents in a combined query output: the text between event
/// terminators, trimmed, skipped when empty, and re-terminated.
pub open spec fn split_events(s: Seq<char>, i: int) -> Seq<Seq<char>>
    decreases s.len() - i when 0 <= i <= s.len() via split_events_dec
{
    if i >= s.len() {
        seq![]
    } else {
        let j = find_event_end(s, i);
        let piece = trim_spec(s.subrange(i, j));
        let docs: Seq<Seq<char>> = if piece.len() == 0 {
            seq![]
        } else {
            seq![piece + "</Event>"@]
        };
        if j + 8 <= s.len() {
            docs + split_events(s, j + 8)
        } else {
            docs
        }
    }
}

#[via_fn]
proof fn split_events_dec(s: Seq<char>, i: int) {
    if 0 <= i < s.len() {
        lemma_find_event_end_bounds(s, i);
    }
}

/// The preserved document texts of a record sequence.
pub open spec fn raw_texts(s: Seq<EventRecord>) -> Seq<Seq<char>> {
    s.map_values(|e: EventRecord| e@.raw_xml)
}

/// Splits a combined structured query output into its event documents and
/// decodes each one, newest first as the query emitted them; `now` stamps
/// documents without usable timestamps.
pub fn decode_query_output(xml: &str, now: i64) -> (r: Vec<EventRecord>)
    ensures
        r@.len() == split_events(xml@, 0).len(),
        forall|k: int|
            0 <= k < r@.len() ==> decoded_event(split_events(xml@, 0)[k], now, #[trigger] r@[k]@),
{
    let n = xml.unicode_len();
    let mut out: Vec<EventRecord> = Vec::new();
    let ghost docs = split_events(xml@, 0);
    let mut i: usize = 0;
    let mut done = false;
    while !done
        invariant
            i <= n,
            n == xml@.len(),
            docs == split_events(xml@, 0),
            out@.len() <= docs.len(),
            docs =~= raw_texts(out@) + if done {
                Seq::<Seq<char>>::empty()
            } else {
                split_events(xml@, i as int)
            },
            forall|k: int| 0 <= k < out@.len() ==> decoded_event(docs[k], now, #[trigger] out@[k]@),
        decreases n - i + if done { 0int } else { 1int },
    {
        if i >= n {
            done = true;
        } else {
            proof { lemma_find_event_end_bounds(xml@, i as int); }
            let j = find_event_end_exec(xml, i);
            let mut piece = trim_str(xml.substring_char(i, j));
            let ghost before = raw_texts(out@);
            if piece.unicode_len() > 0 {
                piece.append("</Event>");
                let ev = parse_event(piece.as_str(), now);
                proof {
                    assert(ev@.raw_xml == piece@);
                }
                out.push(ev);
                proof {
                    assert(raw_texts(out@) =~= before.push(piece@));
                }
            }
            if n >= 8 && j <= n - 8 {
                i = j + 8;
            } else {
                i = n;
                done = true;
            }
            proof {
                assert(docs =~= raw_texts(out@) + if done {
                    Seq::<Seq<char>>::empty()
                } else {
                    split_events(xml@, i as int)
                });
            }
        }
    }
    proof {
        assert(docs =~= raw_texts(out@));
    }
    out
}

/// One plain text-log line wrapped as a minimally populated record: only the
/// payload and raw text carry the line; the timestamp is the read time.
pub open spec fn line_record(line: Seq<char>, log: Seq<char>, now: i64) -> crate::record::RecordModel {
    crate::record::RecordModel {
        log_name: log,
        time_created: now,
        event_id: 0,
        level: Seq::empty(),
        source: Seq::empty(),
        user: Seq::empty(),
        computer: Seq::empty(),
        description: line,
        raw_xml: line,
    }
}

/// Wraps the last `max` lines of a plain text log as records, last line
/// first, as the fallback source yields them.
pub fn records_from_lines(lines: &Vec<String>, log: &str, now: i64, max: usize) -> (r: Vec<
    EventRecord,
>)
    ensures
        r@.len() == if max <= lines@.len() {
            max as int
        } else {
            lines@.len() as int
        },
        forall|k: int|
            0 <= k < r@.len() ==> #[trigger] r@[k]@ == line_record(
                lines@[lines@.len() - 1 - k]@,
                log@,
                now,
            ),
{
    let mut out: Vec<EventRecord> = Vec::new();
    let mut k: usize = 0;
    while k < max && k < lines.len()
        invariant
            out@.len() == k,
            k <= lines@.len(),
            k <= max,
            forall|p: int|
                0 <= p < k ==> #[trigger] out@[p]@ == line_record(
                    lines@[lines@.len() - 1 - p]@,
                    log@,
                    now,
                ),
        decreases lines@.len() - k,
    {
        let line = lines[lines.len() - 1 - k].clone();
        let rec = EventRecord {
            log_name: log.to_owned(),
            time_created: now,
            event_id: 0,
            level: String::new(),
            source: String::new(),
            user: String::new(),
            computer: String::new(),
            description: line.clone(),
            raw_xml: line,
        };
        out.push(rec);
        k += 1;
    }
    out
}

} // verus!
