//! The event decoder: one forward scan over a structured event document
//! yields exactly one record. Decoding never fails — fields whose elements
//! are missing or malformed keep their defaults, and the document text is
//! preserved verbatim in `raw_xml`.

use vstd::prelude::*;
use vstd::string::*;
use crate::record::{EventRecord, RecordModel, level_label, level_label_spec};
use crate::text::{parse_u16, parse_u16_spec, trim_str, trim_spec, str_eq};
use crate::xml::{Attr, AttrModel, XmlToken, TokenModel, attr_models, next_token, tokens_from};
use crate::ext::{rfc3339_epoch_of, naive_parses, parse_rfc3339_epoch, parse_local_naive, LocalParse};

verus! {

/// The typed fields one scan extracts, before the timestamp text is resolved
/// against the clock and the machine-local zone.
#[verifier::ext_equal]
pub ghost struct DecodeModel {
    pub log_name: Seq<char>,
    pub time_raw: Option<Seq<char>>,
    pub event_id: u16,
    pub level: Seq<char>,
    pub source: Seq<char>,
    pub user: Seq<char>,
    pub computer: Seq<char>,
    pub description: Seq<char>,
}

/// Field defaults before any element is seen.
pub open spec fn decode_init(log_name: Seq<char>) -> DecodeModel {
    DecodeModel {
        log_name,
        time_raw: None,
        event_id: 0,
        level: Seq::empty(),
        source: Seq::empty(),
        user: Seq::empty(),
        computer: Seq::empty(),
        description: Seq::empty(),
    }
}

/// The value of the last attribute bearing `name`, or nothing.
pub open spec fn attr_last(attrs: Seq<AttrModel>, name: Seq<char>) -> Option<Seq<char>>
    decreases attrs.len(),
{
    if attrs.len() == 0 {
        None
    } else if attrs.last().name == name {
        Some(attrs.last().value)
    } else {
        attr_last(attrs.drop_last(), name)
    }
}

/// Finds the last attribute bearing `name` in a start tag.
pub(crate) fn attr_lookup(attrs: &Vec<Attr>, name: &str) -> (r: Option<String>)
    ensures
        r.deep_view() == attr_last(attr_models(attrs@), name@),
{
    let mut k = attrs.len();
    proof {
        assert(attrs@.subrange(0, attrs@.len() as int) =~= attrs@);
    }
    while k > 0
        invariant
            k <= attrs.len(),
            attr_last(attr_models(attrs@), name@) == attr_last(
                attr_models(attrs@.subrange(0, k as int)),
                name@,
            ),
        decreases k,
    {
        k = k - 1;
        let a = &attrs[k];
        proof {
            let pre = attrs@.subrange(0, k + 1);
            assert(attr_models(pre).last() == attrs@[k as int]@);
            assert(attr_models(pre).drop_last() =~= attr_models(attrs@.subrange(0, k as int)));
        }
        if str_eq(a.name.as_str(), name) {
            return Some(a.value.clone());
        }
    }
    proof {
        assert(attr_models(attrs@.subrange(0, 0)) =~= Seq::<AttrModel>::empty());
    }
    None
}

/// What a start tag contributes: provider, timestamp text and acting user are
/// carried by attributes of their elements.
pub open spec fn apply_start(m: DecodeModel, name: Seq<char>, attrs: Seq<AttrModel>) -> DecodeModel {
    if name == "Provider"@ {
        match attr_last(attrs, "Name"@) {
            Some(v) => DecodeModel { source: v, ..m },
            None => m,
        }
    } else if name == "TimeCreated"@ {
        match attr_last(attrs, "SystemTime"@) {
            Some(v) => DecodeModel { time_raw: Some(v), ..m },
            None => m,
        }
    } else if name == "Security"@ {
        match attr_last(attrs, "UserID"@) {
            Some(v) => DecodeModel { user: v, ..m },
            None => m,
        }
    } else {
        m
    }
}

/// What element text contributes, keyed by the current element name: the
/// numeric identifier, the severity code, the computer, a payload datum
/// (joined with `"; "`), or the channel.
pub open spec fn apply_text(m: DecodeModel, cur: Seq<char>, text: Seq<char>) -> DecodeModel {
    if cur == "EventID"@ {
        DecodeModel { event_id: parse_u16_spec(text), ..m }
    } else if cur == "Level"@ {
        DecodeModel { level: level_label_spec(text), ..m }
    } else if cur == "Computer"@ {
        DecodeModel { computer: text, ..m }
    } else if cur == "Data"@ {
        DecodeModel {
            description: if m.description.len() == 0 {
                text
            } else {
                m.description + "; "@ + text
            },
            ..m
        }
    } else if cur == "Channel"@ {
        DecodeModel { log_name: text, ..m }
    } else {
        m
    }
}

/// Scan state: the fields so far and the element name whose content is next.
#[verifier::ext_equal]
pub ghost struct DecodeState {
    pub m: DecodeModel,
    pub cur: Seq<char>,
}

/// One token's effect on the scan state. Unknown structure and CDATA change
/// nothing; whitespace-only text keeps the current element open.
pub open spec fn decode_step(st: DecodeState, t: TokenModel) -> DecodeState {
    match t {
        TokenModel::Start { name, attrs, self_closing } => DecodeState {
            m: apply_start(st.m, name, attrs),
            cur: if self_closing {
                Seq::empty()
            } else {
                name
            },
        },
        TokenModel::End { name } => DecodeState { m: st.m, cur: Seq::empty() },
        TokenModel::Text { text } => {
            let u = trim_spec(text);
            if u.len() == 0 {
                st
            } else {
                DecodeState { m: apply_text(st.m, st.cur, u), cur: Seq::empty() }
            }
        },
        TokenModel::Cdata { .. } => st,
        TokenModel::Skip => st,
        TokenModel::Eof => st,
    }
}

/// The fields a token sequence folds to.
pub open spec fn decode_toks(ts: Seq<TokenModel>, st: DecodeState) -> DecodeModel
    decreases ts.len(),
{
    if ts.len() == 0 {
        st.m
    } else {
        decode_toks(ts.drop_first(), decode_step(st, ts.first()))
    }
}

/// The fields one whole document yields under the forward scan.
pub open spec fn decode_spec(x: Seq<char>, log_name: Seq<char>) -> DecodeModel {
    decode_toks(
        tokens_from(x, 0),
        DecodeState { m: decode_init(log_name), cur: Seq::empty() },
    )
}

/// How raw timestamp text and the decode time fix `time_created`: absent
/// text falls back to the decode time; text that parses as an absolute
/// timestamp gives exactly that instant; text that parses in neither the
/// absolute nor the naive format also falls back to the decode time. Text
/// that only the naive format accepts is resolved by the machine-local zone
/// at run time (the zone's instant, or the UNIX epoch when the zone leaves
/// it ambiguous or nonexistent), so nothing more is pinned in that one case.
pub open spec fn time_resolved(raw: Option<Seq<char>>, now: i64, t: i64) -> bool {
    match raw {
        None => t == now,
        Some(s) => match rfc3339_epoch_of(s) {
            Some(v) => t == v,
            None => !naive_parses(s) ==> t == now,
        },
    }
}

/// Resolves timestamp text: absolute format first, then naive local
/// date-time, where an ambiguous or nonexistent local time falls back to the
/// UNIX epoch and unparsable text to the decode time.
pub(crate) fn resolve_time(raw: &Option<String>, now: i64) -> (t: i64)
    ensures
        time_resolved(raw.deep_view(), now, t),
{
    match raw {
        None => now,
        Some(s) => match parse_rfc3339_epoch(s.as_str()) {
            Some(v) => v,
            None => match parse_local_naive(s.as_str()) {
                LocalParse::Resolved(v) => v,
                LocalParse::Unresolved => 0,
                LocalParse::NoParse => now,
            },
        },
    }
}

/// What one decoded record must satisfy for document `x` decoded at `now`.
pub open spec fn decoded_event(x: Seq<char>, now: i64, r: RecordModel) -> bool {
    let d = decode_spec(x, Seq::<char>::empty());
    &&& r.log_name == d.log_name
    &&& r.event_id == d.event_id
    &&& r.level == d.level
    &&& r.source == d.source
    &&& r.user == d.user
    &&& r.computer == d.computer
    &&& r.description == d.description
    &&& r.raw_xml == x
    &&& time_resolved(d.time_raw, now, r.time_created)
}

/// Decodes one structured event document into one record; `now` is the decode
/// time used when the document carries no usable timestamp. Decoding is
/// total: there is no precondition and a record always comes back — a
/// malformed or truncated document terminates the scan with the fields built
/// so far and the document text preserved.
pub fn parse_event(xml: &str, now: i64) -> (r: EventRecord)
    ensures
        decoded_event(xml@, now, r@),
{
    let n = xml.unicode_len();
    let mut i: usize = 0;
    let mut log_name = String::new();
    let mut time_raw: Option<String> = None;
    let mut event_id: u16 = 0;
    let mut level = String::new();
    let mut source = String::new();
    let mut user = String::new();
    let mut computer = String::new();
    let mut description = String::new();
    let mut cur = String::new();
    while i < n
        invariant
            i <= n,
            n == xml@.len(),
            decode_toks(
                tokens_from(xml@, i as int),
                DecodeState {
                    m: DecodeModel {
                        log_name: log_name@,
                        time_raw: time_raw.deep_view(),
                        event_id,
                        level: level@,
                        source: source@,
                        user: user@,
                        computer: computer@,
                        description: description@,
                    },
                    cur: cur@,
                },
            ) == decode_spec(xml@, Seq::<char>::empty()),
        decreases n - i,
    {
        let ghost st_old = DecodeState {
            m: DecodeModel {
                log_name: log_name@,
                time_raw: time_raw.deep_view(),
                event_id,
                level: level@,
                source: source@,
                user: user@,
                computer: computer@,
                description: description@,
            },
            cur: cur@,
        };
        let (tok, next) = next_token(xml, i);
        proof {
            assert(tokens_from(xml@, i as int) == seq![tok@] + tokens_from(xml@, next as int));
            assert((seq![tok@] + tokens_from(xml@, next as int)).first() == tok@);
            assert((seq![tok@] + tokens_from(xml@, next as int)).drop_first() =~= tokens_from(
                xml@,
                next as int,
            ));
        }
        match tok {
            XmlToken::Start { name, attrs, self_closing } => {
                if str_eq(name.as_str(), "Provider") {
                    if let Some(v) = attr_lookup(&attrs, "Name") {
                        source = v;
                    }
                } else if str_eq(name.as_str(), "TimeCreated") {
                    if let Some(v) = attr_lookup(&attrs, "SystemTime") {
                        time_raw = Some(v);
                    }
                } else if str_eq(name.as_str(), "Security") {
                    if let Some(v) = attr_lookup(&attrs, "UserID") {
                        user = v;
                    }
                }
                if self_closing {
                    cur = String::new();
                } else {
                    cur = name;
                }
            },
            XmlToken::End { name: _ } => {
                cur = String::new();
            },
            XmlToken::Text { text } => {
                let u = trim_str(text.as_str());
                if u.unicode_len() > 0 {
                    if str_eq(cur.as_str(), "EventID") {
                        event_id = parse_u16(u.as_str());
                    } else if str_eq(cur.as_str(), "Level") {
                        level = level_label(u.as_str());
                    } else if str_eq(cur.as_str(), "Computer") {
                        computer = u;
                    } else if str_eq(cur.as_str(), "Data") {
                        if description.unicode_len() > 0 {
                            description.append("; ");
                            description.append(u.as_str());
                        } else {
                            description = u;
                        }
                    } else if str_eq(cur.as_str(), "Channel") {
                        log_name = u;
                    }
                    cur = String::new();
                }
            },
            XmlToken::Cdata { text: _ } => {},
            XmlToken::Skip => {},
            XmlToken::Eof => {},
        }
        proof {
            let st_new = DecodeState {
                m: DecodeModel {
                    log_name: log_name@,
                    time_raw: time_raw.deep_view(),
                    event_id,
                    level: level@,
                    source: source@,
                    user: user@,
                    computer: computer@,
                    description: description@,
                },
                cur: cur@,
            };
            assert(st_new =~= decode_step(st_old, tok@));
        }
        i = next;
    }
    let time_created = resolve_time(&time_raw, now);
    EventRecord {
        log_name,
        time_created,
        event_id,
        level,
        source,
        user,
        computer,
        description,
        raw_xml: xml.to_owned(),
    }
}

/// Decoding is total: every document, malformed or truncated included, has a
/// decoded record — the scan never rejects its input.
pub proof fn lemma_decode_total(x: Seq<char>, now: i64)
    ensures
        exists|r: RecordModel| #[trigger] decoded_event(x, now, r),
{
    let d = decode_spec(x, Seq::<char>::empty());
    let t: i64 = match d.time_raw {
        None => now,
        Some(s) => match rfc3339_epoch_of(s) {
            Some(v) => v,
            None => now,
        },
    };
    let w = RecordModel {
        log_name: d.log_name,
        time_created: t,
        event_id: d.event_id,
        level: d.level,
        source: d.source,
        user: d.user,
        computer: d.computer,
        description: d.description,
        raw_xml: x,
    };
    assert(decoded_event(x, now, w));
}

/// Decoding is deterministic: two records decoded from the same document at
/// the same decode time agree, whenever the document's timestamp text is
/// absent or parses as an absolute timestamp. (Text that only the
/// machine-local zone can interpret is resolved by that zone at run time.)
pub proof fn lemma_decode_deterministic(x: Seq<char>, now: i64, r1: RecordModel, r2: RecordModel)
    requires
        decoded_event(x, now, r1),
        decoded_event(x, now, r2),
        match decode_spec(x, Seq::<char>::empty()).time_raw {
            None => true,
            Some(s) => rfc3339_epoch_of(s) is Some,
        },
    ensures
        r1 =~= r2,
{
}

/// Whether any start tag in the token sequence bears `name`.
pub open spec fn has_start(ts: Seq<TokenModel>, name: Seq<char>) -> bool
    decreases ts.len(),
{
    if ts.len() == 0 {
        false
    } else {
        (ts.first() matches TokenModel::Start { name: n, .. } && n == name) || has_start(
            ts.drop_first(),
            name,
        )
    }
}

proof fn lemma_no_eventid_preserved(ts: Seq<TokenModel>, st: DecodeState)
    requires
        !has_start(ts, "EventID"@),
        st.cur != "EventID"@,
    ensures
        decode_toks(ts, st).event_id == st.m.event_id,
    decreases ts.len(),
{
    broadcast use vstd::string::group_string_axioms;

    reveal_strlit("EventID");
    assert("EventID"@.len() == 7);
    if ts.len() > 0 {
        lemma_no_eventid_preserved(ts.drop_first(), decode_step(st, ts.first()));
    }
}

/// A document with no `EventID` element decodes with identifier zero — the
/// missing field defaults rather than failing the record.
pub proof fn lemma_missing_event_id(x: Seq<char>, log_name: Seq<char>)
    requires
        !has_start(tokens_from(x, 0), "EventID"@),
    ensures
        decode_spec(x, log_name).event_id == 0,
{
    broadcast use vstd::string::group_string_axioms;

    reveal_strlit("EventID");
    assert("EventID"@.len() == 7);
    lemma_no_eventid_preserved(
        tokens_from(x, 0),
        DecodeState { m: decode_init(log_name), cur: Seq::<char>::empty() },
    );
}

proof fn lemma_no_timecreated_preserved(ts: Seq<TokenModel>, st: DecodeState)
    requires
        !has_start(ts, "TimeCreated"@),
    ensures
        decode_toks(ts, st).time_raw == st.m.time_raw,
    decreases ts.len(),
{
    if ts.len() > 0 {
        lemma_no_timecreated_preserved(ts.drop_first(), decode_step(st, ts.first()));
    }
}

/// A document with no `TimeCreated` element carries no timestamp text, so the
/// decoded record is stamped with the decode time.
pub proof fn lemma_missing_time_defaults(x: Seq<char>, now: i64, r: RecordModel)
    requires
        decoded_event(x, now, r),
        !has_start(tokens_from(x, 0), "TimeCreated"@),
    ensures
        r.time_created == now,
{
    lemma_no_timecreated_preserved(
        tokens_from(x, 0),
        DecodeState { m: decode_init(Seq::<char>::empty()), cur: Seq::<char>::empty() },
    );
}

} // verus!
