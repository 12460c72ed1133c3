//! Tests of the single-document decoder and the query-output splitter.

use event_viewer::adapter::decode_query_output;
use event_viewer::decode::parse_event;
use event_viewer::record::{level_label, list_event_logs};
use event_viewer::text::parse_u16;

const NOW: i64 = 1_700_000_000;

fn full_event_doc() -> String {
    "<Event xmlns=\"http://schemas.microsoft.com/win/2004/08/events/event\"><System><Provider Name=\"Service Control Manager\"/><EventID>7036</EventID><Level>4</Level><TimeCreated SystemTime=\"2024-01-02T00:00:00Z\"/><Channel>System</Channel><Computer>HOST-1</Computer><Security UserID=\"S-1-5-18\"/></System><EventData><Data>svc</Data><Data>running</Data></EventData></Event>"
    .to_string()
}

#[test]
fn decodes_every_field_of_a_full_document() {
    let doc = full_event_doc();
    let r = parse_event(&doc, NOW);
    assert_eq!(r.source, "Service Control Manager");
    assert_eq!(r.event_id, 7036);
    assert_eq!(r.level, "Information");
    // 2024-01-02T00:00:00Z
    assert_eq!(r.time_created, 1_704_153_600);
    assert_eq!(r.log_name, "System");
    assert_eq!(r.computer, "HOST-1");
    assert_eq!(r.user, "S-1-5-18");
    assert_eq!(r.description, "svc; running");
    assert_eq!(r.raw_xml, doc);
}

#[test]
fn decoding_is_deterministic_for_the_same_document_and_time() {
    let doc = full_event_doc();
    let a = parse_event(&doc, NOW);
    let b = parse_event(&doc, NOW);
    assert_eq!(a.log_name, b.log_name);
    assert_eq!(a.time_created, b.time_created);
    assert_eq!(a.event_id, b.event_id);
    assert_eq!(a.level, b.level);
    assert_eq!(a.source, b.source);
    assert_eq!(a.user, b.user);
    assert_eq!(a.computer, b.computer);
    assert_eq!(a.description, b.description);
    assert_eq!(a.raw_xml, b.raw_xml);
}

#[test]
fn missing_event_id_defaults_to_zero() {
    let doc = "<Event><Computer>PC</Computer></Event>";
    let r = parse_event(doc, NOW);
    assert_eq!(r.event_id, 0);
    assert_eq!(r.computer, "PC");
}

#[test]
fn non_numeric_event_id_defaults_to_zero() {
    let r = parse_event("<Event><EventID>oops</EventID></Event>", NOW);
    assert_eq!(r.event_id, 0);
}

#[test]
fn missing_time_created_falls_back_to_decode_time() {
    let r = parse_event("<Event><EventID>5</EventID></Event>", NOW);
    assert_eq!(r.time_created, NOW);
    assert_eq!(r.event_id, 5);
}

#[test]
fn unparsable_time_text_falls_back_to_decode_time() {
    let r = parse_event("<Event><TimeCreated SystemTime=\"not a time\"/></Event>", NOW);
    assert_eq!(r.time_created, NOW);
}

#[test]
fn malformed_document_still_yields_a_record_with_raw_text() {
    let doc = "<Event><EventID>17<oops";
    let r = parse_event(doc, NOW);
    assert_eq!(r.raw_xml, doc);
    assert_eq!(r.event_id, 17);
    assert_eq!(r.time_created, NOW);
}

#[test]
fn whitespace_between_elements_does_not_detach_text_from_its_element() {
    let doc = "<Event>\n  <EventID>\n    42\n  </EventID>\n  <Computer>PC</Computer>\n</Event>";
    let r = parse_event(doc, NOW);
    assert_eq!(r.event_id, 42);
    assert_eq!(r.computer, "PC");
}

#[test]
fn level_codes_map_to_the_fixed_vocabulary() {
    assert_eq!(level_label("1"), "Critical");
    assert_eq!(level_label("2"), "Error");
    assert_eq!(level_label("3"), "Warning");
    assert_eq!(level_label("4"), "Information");
    assert_eq!(level_label("5"), "Verbose");
}

#[test]
fn level_codes_outside_the_vocabulary_pass_through() {
    assert_eq!(level_label("0"), "0");
    assert_eq!(level_label("7"), "7");
    assert_eq!(level_label("Audit"), "Audit");
    assert_eq!(level_label(""), "");
    let r = parse_event("<Event><Level>9</Level></Event>", NOW);
    assert_eq!(r.level, "9");
}

#[test]
fn event_id_parsing_handles_bounds_and_leading_zeros() {
    assert_eq!(parse_u16("0"), 0);
    assert_eq!(parse_u16("65535"), 65535);
    assert_eq!(parse_u16("65536"), 0);
    assert_eq!(parse_u16("99999999999999999999"), 0);
    assert_eq!(parse_u16("0012"), 12);
    assert_eq!(parse_u16(""), 0);
    assert_eq!(parse_u16("12a"), 0);
    assert_eq!(parse_u16("-4"), 0);
}

#[test]
fn query_output_splits_into_one_record_per_event() {
    let xml = "<Event><EventID>1000</EventID><Level>2</Level><TimeCreated SystemTime=\"2024-01-01T00:00:00Z\"/></Event>\n<Event><EventID>4624</EventID><Level>4</Level><TimeCreated SystemTime=\"2024-01-02T00:00:00Z\"/></Event>\n";
    let records = decode_query_output(xml, NOW);
    assert_eq!(records.len(), 2);
    assert_eq!(records[0].event_id, 1000);
    assert_eq!(records[0].level, "Error");
    assert_eq!(records[0].time_created, 1_704_067_200);
    assert_eq!(records[1].event_id, 4624);
    assert_eq!(records[1].level, "Information");
    assert_eq!(records[1].time_created, 1_704_153_600);
    assert!(records[0].raw_xml.ends_with("</Event>"));
    assert!(records[1].raw_xml.ends_with("</Event>"));
}

#[test]
fn query_output_skips_blank_chunks() {
    let records = decode_query_output("   \n  ", NOW);
    assert_eq!(records.len(), 0);
    let records = decode_query_output("", NOW);
    assert_eq!(records.len(), 0);
}

#[test]
fn lists_the_native_query_channels() {
    let logs = list_event_logs();
    assert_eq!(logs, vec!["Application", "Security", "System", "Setup"]);
}

#[test]
fn the_last_matching_attribute_wins() {
    let doc = "<Event><Provider Name=\"first\" Name=\"second\"/></Event>";
    let r = parse_event(doc, NOW);
    assert_eq!(r.source, "second");
}

#[test]
fn self_closing_elements_still_carry_their_attributes() {
    let doc = "<Event><TimeCreated SystemTime=\"2024-01-02T00:00:00Z\"/><EventID>3</EventID></Event>";
    let r = parse_event(doc, NOW);
    assert_eq!(r.time_created, 1_704_153_600);
    assert_eq!(r.event_id, 3);
}

#[test]
fn data_elements_join_with_a_semicolon_separator() {
    let doc = "<Event><Data>a</Data><Data>b</Data><Data>c</Data></Event>";
    let r = parse_event(doc, NOW);
    assert_eq!(r.description, "a; b; c");
}

#[test]
fn cdata_sections_do_not_abort_the_scan() {
    let doc = "<Event><![CDATA[<fake><EventID>999</EventID>]]><EventID>6</EventID></Event>";
    let r = parse_event(doc, NOW);
    assert_eq!(r.event_id, 6);
}

#[test]
fn declarations_and_comments_are_skipped() {
    let doc = "<?xml version=\"1.0\"?><!-- note --><Event><EventID>8</EventID></Event>";
    let r = parse_event(doc, NOW);
    assert_eq!(r.event_id, 8);
}
