//! The three format importers. Binary archives and delimited text become
//! records with fixed defaults around their rendered text; an XML export is
//! scanned forward, each completed top-level event element yielding one
//! record whose raw text reconstructs the original nested tag structure.

use vstd::prelude::*;
use vstd::string::*;
use crate::record::{EventRecord, RecordModel, models, level_label};
use crate::text::{parse_u16, trim_str, trim_spec, str_eq};
use crate::xml::{Attr, AttrModel, XmlToken, TokenModel, attr_models, next_token, tokens_from};
use crate::decode::{
    DecodeModel, DecodeState, decode_init, decode_step, attr_lookup, resolve_time, time_resolved,
};
use crate::ext::{csv_rows, csv_rows_of, evtx_record_texts, evtx_texts_of};

verus! {

/// A record as the binary-archive importer builds one: fixed defaults, the
/// rendered text as payload — truncated to 200 characters for this imported
/// binary source — and in full as the preserved raw text.
pub open spec fn import_text_record(text: Seq<char>, log_name: Seq<char>, now: i64) -> RecordModel {
    RecordModel {
        log_name,
        time_created: now,
        event_id: 0,
        level: "Info"@,
        source: "Import"@,
        user: Seq::empty(),
        computer: Seq::empty(),
        description: if text.len() <= 200 {
            text
        } else {
            text.subrange(0, 200)
        },
        raw_xml: text,
    }
}

fn make_import_record(text: String, log_name: &str, now: i64) -> (r: EventRecord)
    ensures
        r@ == import_text_record(text@, log_name@, now),
{
    let n = text.unicode_len();
    let cut = if n <= 200 {
        n
    } else {
        200
    };
    let description = text.as_str().substring_char(0, cut).to_owned();
    let r = EventRecord {
        log_name: log_name.to_owned(),
        time_created: now,
        event_id: 0,
        level: "Info".to_owned(),
        source: "Import".to_owned(),
        user: String::new(),
        computer: String::new(),
        description,
        raw_xml: text,
    };
    proof {
        assert(r@ =~= import_text_record(r.raw_xml@, log_name@, now));
    }
    r
}

/// The records a sequence of rendered record texts becomes.
pub open spec fn texts_records(texts: Seq<Seq<char>>, log_name: Seq<char>, now: i64) -> Seq<
    RecordModel,
> {
    texts.map_values(|t: Seq<char>| import_text_record(t, log_name, now))
}

/// Converts a binary event-log archive. `None` exactly when the archive
/// header is rejected — the import then changes nothing; otherwise one record
/// per decodable archive record, import-stamped.
pub fn import_evtx(data: &[u8], now: i64) -> (r: Option<Vec<EventRecord>>)
    ensures
        match r {
            Some(v) => evtx_texts_of(data@) matches Some(texts) && models(v@) == texts_records(
                texts,
                "Imported EVTX"@,
                now,
            ),
            None => evtx_texts_of(data@) is None,
        },
{
    match evtx_record_texts(data) {
        None => None,
        Some(texts) => {
            let ghost tv = texts.deep_view();
            let mut out: Vec<EventRecord> = Vec::new();
            let mut k: usize = 0;
            while k < texts.len()
                invariant
                    k <= texts@.len(),
                    tv == texts.deep_view(),
                    tv.len() == texts@.len(),
                    out@.len() == k,
                    forall|p: int|
                        0 <= p < k ==> (#[trigger] out@[p])@ == import_text_record(
                            tv[p],
                            "Imported EVTX"@,
                            now,
                        ),
                decreases texts@.len() - k,
            {
                proof {
                    assert(tv[k as int] == texts@[k as int]@);
                }
                let rec = make_import_record(texts[k].clone(), "Imported EVTX", now);
                out.push(rec);
                k += 1;
            }
            proof {
                assert(models(out@) =~= texts_records(tv, "Imported EVTX"@, now));
            }
            Some(out)
        },
    }
}

/// The fields of one data row joined with `", "`.
pub open spec fn join_fields(row: Seq<Seq<char>>) -> Seq<char>
    decreases row.len(),
{
    if row.len() == 0 {
        Seq::empty()
    } else if row.len() == 1 {
        row.last()
    } else {
        join_fields(row.drop_last()) + ", "@ + row.last()
    }
}

fn join_row(row: &Vec<String>) -> (r: String)
    ensures
        r@ == join_fields(row.deep_view()),
{
    let ghost rv = row.deep_view();
    let mut r = String::new();
    let mut k: usize = 0;
    proof {
        assert(rv.subrange(0, 0) =~= Seq::<Seq<char>>::empty());
        assert(r@ =~= join_fields(rv.subrange(0, 0)));
    }
    while k < row.len()
        invariant
            k <= row@.len(),
            rv == row.deep_view(),
            rv.len() == row@.len(),
            r@ == join_fields(rv.subrange(0, k as int)),
        decreases row@.len() - k,
    {
        proof {
            assert(rv[k as int] == row@[k as int]@);
            assert(rv.subrange(0, k + 1).drop_last() =~= rv.subrange(0, k as int));
            assert(rv.subrange(0, k + 1).last() == rv[k as int]);
        }
        if k > 0 {
            r.append(", ");
        }
        r.append(row[k].as_str());
        proof {
            assert(r@ =~= join_fields(rv.subrange(0, k + 1)));
        }
        k += 1;
    }
    proof {
        assert(rv.subrange(0, rv.len() as int) =~= rv);
    }
    r
}

/// A record as the delimited importer builds one: fixed defaults, the joined
/// row in full as both payload and preserved raw text — no truncation for
/// delimited sources.
pub open spec fn row_text_record(text: Seq<char>, now: i64) -> RecordModel {
    RecordModel {
        log_name: "Imported CSV"@,
        time_created: now,
        event_id: 0,
        level: "Info"@,
        source: "Import"@,
        user: Seq::empty(),
        computer: Seq::empty(),
        description: text,
        raw_xml: text,
    }
}

fn make_row_record(text: String, now: i64) -> (r: EventRecord)
    ensures
        r@ == row_text_record(text@, now),
{
    let description = text.clone();
    let r = EventRecord {
        log_name: "Imported CSV".to_owned(),
        time_created: now,
        event_id: 0,
        level: "Info".to_owned(),
        source: "Import".to_owned(),
        user: String::new(),
        computer: String::new(),
        description,
        raw_xml: text,
    };
    proof {
        assert(r@ =~= row_text_record(r.raw_xml@, now));
    }
    r
}

/// The records a delimited file's data rows become.
pub open spec fn csv_records(rows: Seq<Seq<Seq<char>>>, now: i64) -> Seq<RecordModel> {
    rows.map_values(|row: Seq<Seq<char>>| row_text_record(join_fields(row), now))
}

/// Converts delimited text: one record per data row after the header, the
/// row's fields joined with `", "`, import-stamped.
pub fn import_csv(data: &[u8], now: i64) -> (r: Vec<EventRecord>)
    ensures
        models(r@) == csv_records(csv_rows_of(data@), now),
{
    let rows = csv_rows(data);
    let ghost rv = rows.deep_view();
    let mut out: Vec<EventRecord> = Vec::new();
    let mut k: usize = 0;
    while k < rows.len()
        invariant
            k <= rows@.len(),
            rv == rows.deep_view(),
            rv == csv_rows_of(data@),
            rv.len() == rows@.len(),
            out@.len() == k,
            forall|p: int|
                0 <= p < k ==> (#[trigger] out@[p])@ == row_text_record(join_fields(rv[p]), now),
        decreases rows@.len() - k,
    {
        proof {
            assert(rv[k as int] == rows@[k as int].deep_view());
        }
        let text = join_row(&rows[k]);
        let rec = make_row_record(text, now);
        out.push(rec);
        k += 1;
    }
    proof {
        assert(models(out@) =~= csv_records(csv_rows_of(data@), now));
    }
    out
}

/// The reconstruction of one attribute: a space, the name, `="`, the value,
/// and the closing quote.
pub open spec fn render_attr(a: AttrModel) -> Seq<char> {
    " "@ + a.name + "=\""@ + a.value + "\""@
}

pub open spec fn render_attrs(attrs: Seq<AttrModel>) -> Seq<char>
    decreases attrs.len(),
{
    if attrs.len() == 0 {
        Seq::empty()
    } else {
        render_attrs(attrs.drop_last()) + render_attr(attrs.last())
    }
}

/// The reconstruction of a start tag, attributes included.
pub open spec fn render_start(name: Seq<char>, attrs: Seq<AttrModel>, self_closing: bool) -> Seq<
    char,
> {
    if self_closing {
        "<"@ + name + render_attrs(attrs) + "/>"@
    } else {
        "<"@ + name + render_attrs(attrs) + ">"@
    }
}

/// The reconstruction of an end tag.
pub open spec fn render_end(name: Seq<char>) -> Seq<char> {
    "</"@ + name + ">"@
}

fn append_start_tag(raw: &mut String, name: &str, attrs: &Vec<Attr>, self_closing: bool)
    ensures
        final(raw)@ == old(raw)@ + render_start(name@, attr_models(attrs@), self_closing),
{
    let ghost av = attr_models(attrs@);
    raw.append("<");
    raw.append(name);
    let mut k: usize = 0;
    proof {
        assert(av.subrange(0, 0) =~= Seq::<AttrModel>::empty());
        assert(raw@ =~= old(raw)@ + "<"@ + name@ + render_attrs(av.subrange(0, 0)));
    }
    while k < attrs.len()
        invariant
            k <= attrs@.len(),
            av == attr_models(attrs@),
            av.len() == attrs@.len(),
            raw@ == old(raw)@ + "<"@ + name@ + render_attrs(av.subrange(0, k as int)),
        decreases attrs@.len() - k,
    {
        proof {
            assert(av[k as int] == attrs@[k as int]@);
            assert(av.subrange(0, k + 1).drop_last() =~= av.subrange(0, k as int));
            assert(av.subrange(0, k + 1).last() == av[k as int]);
        }
        let a = &attrs[k];
        raw.append(" ");
        raw.append(a.name.as_str());
        raw.append("=\"");
        raw.append(a.value.as_str());
        raw.append("\"");
        proof {
            assert(raw@ =~= old(raw)@ + "<"@ + name@ + render_attrs(av.subrange(0, k + 1)));
        }
        k += 1;
    }
    proof {
        assert(av.subrange(0, av.len() as int) =~= av);
    }
    if self_closing {
        raw.append("/>");
    } else {
        raw.append(">");
    }
    proof {
        assert(raw@ =~= old(raw)@ + render_start(name@, attr_models(attrs@), self_closing));
    }
}

/// The state of the export scan: whether a top-level event element is open,
/// the text reconstructed for it so far, the decoder state for its typed
/// fields, and the completed (fields, raw text) pairs.
#[verifier::ext_equal]
pub ghost struct ImportState {
    pub in_event: bool,
    pub raw: Seq<char>,
    pub st: DecodeState,
    pub out: Seq<(DecodeModel, Seq<char>)>,
}

pub open spec fn import_init() -> ImportState {
    ImportState {
        in_event: false,
        raw: Seq::empty(),
        st: DecodeState { m: decode_init("Imported XML"@), cur: Seq::empty() },
        out: seq![],
    }
}

/// One token's effect on the export scan: an `Event` start opens (or reopens)
/// an event and resets the fields; inside an event, structure and CDATA
/// content are reconstructed into the raw text while the decoder extracts the
/// same typed fields as the single-document scan; an `Event` end completes
/// one record.
pub open spec fn import_step(s: ImportState, t: TokenModel) -> ImportState {
    match t {
        TokenModel::Start { name, attrs, self_closing } => {
            if name == "Event"@ {
                ImportState {
                    in_event: true,
                    raw: "<Event>"@,
                    st: DecodeState { m: decode_init("Imported XML"@), cur: Seq::empty() },
                    out: s.out,
                }
            } else if s.in_event {
                ImportState {
                    in_event: true,
                    raw: s.raw + render_start(name, attrs, self_closing),
                    st: decode_step(s.st, t),
                    out: s.out,
                }
            } else {
                s
            }
        },
        TokenModel::End { name } => {
            if s.in_event && name == "Event"@ {
                ImportState {
                    in_event: false,
                    raw: Seq::empty(),
                    st: s.st,
                    out: s.out.push((s.st.m, s.raw + "</Event>"@)),
                }
            } else if s.in_event {
                ImportState {
                    in_event: true,
                    raw: s.raw + render_end(name),
                    st: decode_step(s.st, t),
                    out: s.out,
                }
            } else {
                s
            }
        },
        TokenModel::Text { text } => {
            if s.in_event {
                ImportState {
                    in_event: true,
                    raw: s.raw + trim_spec(text),
                    st: decode_step(s.st, t),
                    out: s.out,
                }
            } else {
                s
            }
        },
        TokenModel::Cdata { text } => {
            if s.in_event {
                ImportState { in_event: true, raw: s.raw + text, st: s.st, out: s.out }
            } else {
                s
            }
        },
        TokenModel::Skip => s,
        TokenModel::Eof => s,
    }
}

pub open spec fn import_toks(ts: Seq<TokenModel>, s: ImportState) -> ImportState
    decreases ts.len(),
{
    if ts.len() == 0 {
        s
    } else {
        import_toks(ts.drop_first(), import_step(s, ts.first()))
    }
}

/// The (fields, reconstructed text) pairs an export document yields.
pub open spec fn xml_import_spec(x: Seq<char>) -> Seq<(DecodeModel, Seq<char>)> {
    import_toks(tokens_from(x, 0), import_init()).out
}

/// What one imported record must satisfy for its (fields, raw text) pair.
pub open spec fn xml_imported_record(
    d: DecodeModel,
    raw: Seq<char>,
    now: i64,
    r: RecordModel,
) -> bool {
    &&& r.log_name == d.log_name
    &&& r.event_id == d.event_id
    &&& r.level == d.level
    &&& r.source == d.source
    &&& r.user == d.user
    &&& r.computer == d.computer
    &&& r.description == d.description
    &&& r.raw_xml == raw
    &&& time_resolved(d.time_raw, now, r.time_created)
}

/// Imports a multi-event XML export: each completed top-level event element
/// yields one record whose raw text reconstructs the original nested tags and
/// whose typed fields are extracted as in the single-document scan.
pub fn import_xml(xml: &str, now: i64) -> (r: Vec<EventRecord>)
    ensures
        r@.len() == xml_import_spec(xml@).len(),
        forall|k: int|
            0 <= k < r@.len() ==> xml_imported_record(
                xml_import_spec(xml@)[k].0,
                xml_import_spec(xml@)[k].1,
                now,
                (#[trigger] r@[k])@,
            ),
{
    let n = xml.unicode_len();
    let mut i: usize = 0;
    let mut in_event = false;
    let mut raw = String::new();
    let mut log_name: String = "Imported XML".to_owned();
    let mut time_raw: Option<String> = None;
    let mut event_id: u16 = 0;
    let mut level = String::new();
    let mut source = String::new();
    let mut user = String::new();
    let mut computer = String::new();
    let mut description = String::new();
    let mut cur = String::new();
    let mut out: Vec<EventRecord> = Vec::new();
    let ghost mut pairs: Seq<(DecodeModel, Seq<char>)> = seq![];
    while i < n
        invariant
            i <= n,
            n == xml@.len(),
            import_toks(
                tokens_from(xml@, i as int),
                ImportState {
                    in_event,
                    raw: raw@,
                    st: DecodeState {
                        m: DecodeModel {
                            log_name: log_name@,
                            time_raw: time_raw.deep_view(),
                            event_id,
                            level: level@,
                            source: source@,
                            user: user@,
                            computer: computer@,
                            description: description@,
                        },
                        cur: cur@,
                    },
                    out: pairs,
                },
            ).out == xml_import_spec(xml@),
            out@.len() == pairs.len(),
            forall|k: int|
                0 <= k < pairs.len() ==> xml_imported_record(
                    pairs[k].0,
                    pairs[k].1,
                    now,
                    (#[trigger] out@[k])@,
                ),
        decreases n - i,
    {
        let ghost st_old = ImportState {
            in_event,
            raw: raw@,
            st: DecodeState {
                m: DecodeModel {
                    log_name: log_name@,
                    time_raw: time_raw.deep_view(),
                    event_id,
                    level: level@,
                    source: source@,
                    user: user@,
                    computer: computer@,
                    description: description@,
                },
                cur: cur@,
            },
            out: pairs,
        };
        let (tok, next) = next_token(xml, i);
        proof {
            assert(tokens_from(xml@, i as int) == seq![tok@] + tokens_from(xml@, next as int));
            assert((seq![tok@] + tokens_from(xml@, next as int)).first() == tok@);
            assert((seq![tok@] + tokens_from(xml@, next as int)).drop_first() =~= tokens_from(
                xml@,
                next as int,
            ));
        }
        match tok {
            XmlToken::Start { name, attrs, self_closing } => {
                if str_eq(name.as_str(), "Event") {
                    in_event = true;
                    raw = "<Event>".to_owned();
                    log_name = "Imported XML".to_owned();
                    time_raw = None;
                    event_id = 0;
                    level = String::new();
                    source = String::new();
                    user = String::new();
                    computer = String::new();
                    description = String::new();
                    cur = String::new();
                } else if in_event {
                    append_start_tag(&mut raw, name.as_str(), &attrs, self_closing);
                    if str_eq(name.as_str(), "Provider") {
                        if let Some(v) = attr_lookup(&attrs, "Name") {
                            source = v;
                        }
                    } else if str_eq(name.as_str(), "TimeCreated") {
                        if let Some(v) = attr_lookup(&attrs, "SystemTime") {
                            time_raw = Some(v);
                        }
                    } else if str_eq(name.as_str(), "Security") {
                        if let Some(v) = attr_lookup(&attrs, "UserID") {
                            user = v;
                        }
                    }
                    if self_closing {
                        cur = String::new();
                    } else {
                        cur = name;
                    }
                }
            },
            XmlToken::End { name } => {
                if in_event && str_eq(name.as_str(), "Event") {
                    in_event = false;
                    let mut full = raw;
                    raw = String::new();
                    full.append("</Event>");
                    let time_created = resolve_time(&time_raw, now);
                    let rec = EventRecord {
                        log_name: log_name.clone(),
                        time_created,
                        event_id,
                        level: level.clone(),
                        source: source.clone(),
                        user: user.clone(),
                        computer: computer.clone(),
                        description: description.clone(),
                        raw_xml: full,
                    };
                    proof {
                        pairs = pairs.push((st_old.st.m, st_old.raw + "</Event>"@));
                        assert(rec@.raw_xml == st_old.raw + "</Event>"@);
                    }
                    out.push(rec);
                } else if in_event {
                    raw.append("</");
                    raw.append(name.as_str());
                    raw.append(">");
                    cur = String::new();
                    proof {
                        assert(raw@ =~= st_old.raw + render_end(name@));
                    }
                }
            },
            XmlToken::Text { text } => {
                if in_event {
                    let u = trim_str(text.as_str());
                    raw.append(u.as_str());
                    if u.unicode_len() > 0 {
                        if str_eq(cur.as_str(), "EventID") {
                            event_id = parse_u16(u.as_str());
                        } else if str_eq(cur.as_str(), "Level") {
                            level = level_label(u.as_str());
                        } else if str_eq(cur.as_str(), "Computer") {
                            computer = u;
                        } else if str_eq(cur.as_str(), "Data") {
                            if description.unicode_len() > 0 {
                                description.append("; ");
                                description.append(u.as_str());
                            } else {
                                description = u;
                            }
                        } else if str_eq(cur.as_str(), "Channel") {
                            log_name = u;
                        }
                        cur = String::new();
                    }
                }
            },
            XmlToken::Cdata { text } => {
                if in_event {
                    raw.append(text.as_str());
                }
            },
            XmlToken::Skip => {},
            XmlToken::Eof => {},
        }
        proof {
            let st_new = ImportState {
                in_event,
                raw: raw@,
                st: DecodeState {
                    m: DecodeModel {
                        log_name: log_name@,
                        time_raw: time_raw.deep_view(),
                        event_id,
                        level: level@,
                        source: source@,
                        user: user@,
                        computer: computer@,
                        description: description@,
                    },
                    cur: cur@,
                },
                out: pairs,
            };
            assert(st_new =~~= import_step(st_old, tok@));
        }
        i = next;
    }
    out
}

/// How many top-level event elements a token stream completes.
pub open spec fn complete_events(ts: Seq<TokenModel>, in_event: bool) -> nat
    decreases ts.len(),
{
    if ts.len() == 0 {
        0
    } else {
        match ts.first() {
            TokenModel::Start { name, .. } => complete_events(
                ts.drop_first(),
                if name == "Event"@ {
                    true
                } else {
                    in_event
                },
            ),
            TokenModel::End { name } => if in_event && name == "Event"@ {
                1 + complete_events(ts.drop_first(), false)
            } else {
                complete_events(ts.drop_first(), in_event)
            },
            _ => complete_events(ts.drop_first(), in_event),
        }
    }
}

/// A reconstructed event text framed by the event tags: non-empty, beginning
/// with the event start tag and ending with the event end tag.
pub open spec fn well_framed(raw: Seq<char>) -> bool {
    &&& raw.len() >= 15
    &&& raw.subrange(0, 7) == "<Event>"@
    &&& raw.subrange(raw.len() - 8, raw.len() as int) == "</Event>"@
}

proof fn lemma_import_frame(ts: Seq<TokenModel>, s: ImportState)
    requires
        s.in_event ==> s.raw.len() >= 7 && s.raw.subrange(0, 7) == "<Event>"@,
        forall|k: int| 0 <= k < s.out.len() ==> well_framed((#[trigger] s.out[k]).1),
    ensures
        import_toks(ts, s).out.len() == s.out.len() + complete_events(ts, s.in_event),
        forall|k: int|
            0 <= k < import_toks(ts, s).out.len() ==> well_framed(
                (#[trigger] import_toks(ts, s).out[k]).1,
            ),
    decreases ts.len(),
{
    broadcast use vstd::string::group_string_axioms;

    reveal_strlit("<Event>");
    reveal_strlit("</Event>");
    assert("<Event>"@.len() == 7);
    assert("</Event>"@.len() == 8);
    if ts.len() > 0 {
        let s2 = import_step(s, ts.first());
        match ts.first() {
            TokenModel::Start { name, attrs, self_closing } => {
                if name == "Event"@ {
                    assert(s2.raw.subrange(0, 7) =~= "<Event>"@);
                } else if s.in_event {
                    assert(s2.raw.subrange(0, 7) =~= s.raw.subrange(0, 7));
                }
            },
            TokenModel::End { name } => {
                if s.in_event && name == "Event"@ {
                    let full = s.raw + "</Event>"@;
                    assert(full.subrange(0, 7) =~= s.raw.subrange(0, 7));
                    assert(full.subrange(full.len() - 8, full.len() as int) =~= "</Event>"@);
                    assert(well_framed(full));
                } else if s.in_event {
                    assert(s2.raw.subrange(0, 7) =~= s.raw.subrange(0, 7));
                }
            },
            TokenModel::Text { text } => {
                if s.in_event {
                    assert(s2.raw.subrange(0, 7) =~= s.raw.subrange(0, 7));
                }
            },
            TokenModel::Cdata { text } => {
                if s.in_event {
                    assert(s2.raw.subrange(0, 7) =~= s.raw.subrange(0, 7));
                }
            },
            _ => {},
        }
        lemma_import_frame(ts.drop_first(), s2);
    }
}

/// Round trip of an export: importing a document yields exactly one record
/// per completed top-level event element, and every record's raw text is
/// non-empty, reconstructing the event from its start tag to its end tag.
pub proof fn lemma_xml_import_round_trip(x: Seq<char>)
    ensures
        xml_import_spec(x).len() == complete_events(tokens_from(x, 0), false),
        forall|k: int|
            0 <= k < xml_import_spec(x).len() ==> well_framed(
                (#[trigger] xml_import_spec(x)[k]).1,
            ),
{
    lemma_import_frame(tokens_from(x, 0), import_init());
}

} // verus!
