//! The canonical record schema that every source converges to, together with
//! the fixed severity vocabulary and the list of queryable log channels.

use vstd::prelude::*;
use vstd::string::*;
use crate::text::str_eq;

verus! {

/// One normalized event. Timestamps are seconds since the UNIX epoch;
/// `event_id` zero means "unknown"; empty strings mean "unavailable";
/// `raw_xml` keeps the originating document text verbatim.
pub struct EventRecord {
    pub log_name: String,
    pub time_created: i64,
    pub event_id: u16,
    pub level: String,
    pub source: String,
    pub user: String,
    pub computer: String,
    pub description: String,
    pub raw_xml: String,
}

/// The mathematical image of an [`EventRecord`]: every text field as its
/// character sequence.
#[verifier::ext_equal]
pub ghost struct RecordModel {
    pub log_name: Seq<char>,
    pub time_created: i64,
    pub event_id: u16,
    pub level: Seq<char>,
    pub source: Seq<char>,
    pub user: Seq<char>,
    pub computer: Seq<char>,
    pub description: Seq<char>,
    pub raw_xml: Seq<char>,
}

impl View for EventRecord {
    type V = RecordModel;

    open spec fn view(&self) -> RecordModel {
        RecordModel {
            log_name: self.log_name@,
            time_created: self.time_created,
            event_id: self.event_id,
            level: self.level@,
            source: self.source@,
            user: self.user@,
            computer: self.computer@,
            description: self.description@,
            raw_xml: self.raw_xml@,
        }
    }
}

impl Clone for EventRecord {
    fn clone(&self) -> (r: Self)
        ensures
            r == *self,
    {
        EventRecord {
            log_name: self.log_name.clone(),
            time_created: self.time_created,
            event_id: self.event_id,
            level: self.level.clone(),
            source: self.source.clone(),
            user: self.user.clone(),
            computer: self.computer.clone(),
            description: self.description.clone(),
            raw_xml: self.raw_xml.clone(),
        }
    }
}

/// The record models of a sequence of records.
pub open spec fn models(s: Seq<EventRecord>) -> Seq<RecordModel> {
    s.map_values(|r: EventRecord| r@)
}

/// How a numeric severity code becomes a label: codes one to five map to the
/// fixed vocabulary, anything else passes through unchanged.
pub open spec fn level_label_spec(s: Seq<char>) -> Seq<char> {
    if s == "1"@ {
        "Critical"@
    } else if s == "2"@ {
        "Error"@
    } else if s == "3"@ {
        "Warning"@
    } else if s == "4"@ {
        "Information"@
    } else if s == "5"@ {
        "Verbose"@
    } else {
        s
    }
}

pub fn level_label(code: &str) -> (r: String)
    ensures
        r@ == level_label_spec(code@),
{
    if str_eq(code, "1") {
        "Critical".to_owned()
    } else if str_eq(code, "2") {
        "Error".to_owned()
    } else if str_eq(code, "3") {
        "Warning".to_owned()
    } else if str_eq(code, "4") {
        "Information".to_owned()
    } else if str_eq(code, "5") {
        "Verbose".to_owned()
    } else {
        code.to_owned()
    }
}

/// The severity mapping is total and stable: each code from one to five maps
/// to exactly one word of the fixed vocabulary, and every other string comes
/// back unchanged.
pub proof fn lemma_level_mapping_total(s: Seq<char>)
    ensures
        level_label_spec("1"@) == "Critical"@,
        level_label_spec("2"@) == "Error"@,
        level_label_spec("3"@) == "Warning"@,
        level_label_spec("4"@) == "Information"@,
        level_label_spec("5"@) == "Verbose"@,
        s != "1"@ && s != "2"@ && s != "3"@ && s != "4"@ && s != "5"@
            ==> level_label_spec(s) == s,
{
    reveal_strlit("1");
    reveal_strlit("2");
    reveal_strlit("3");
    reveal_strlit("4");
    reveal_strlit("5");
    reveal_strlit("Critical");
    reveal_strlit("Error");
    reveal_strlit("Warning");
    reveal_strlit("Information");
    reveal_strlit("Verbose");
    assert("1"@[0] == '1' && "2"@[0] == '2' && "3"@[0] == '3' && "4"@[0] == '4' && "5"@[0]
        == '5');
}

/// The source names offered where only the plain-text fallback log exists.
pub fn list_fallback_logs() -> (logs: Vec<String>)
    ensures
        logs.deep_view() =~= seq!["system"@],
{
    let mut logs: Vec<String> = Vec::new();
    logs.push("system".to_owned());
    logs
}

/// The channels the native structured-query facility is asked for.
pub fn list_event_logs() -> (logs: Vec<String>)
    ensures
        logs.deep_view() =~= seq!["Application"@, "Security"@, "System"@, "Setup"@],
{
    let mut logs: Vec<String> = Vec::new();
    logs.push("Application".to_owned());
    logs.push("Security".to_owned());
    logs.push("System".to_owned());
    logs.push("Setup".to_owned());
    logs
}

} // verus!
