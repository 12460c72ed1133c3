//! Tests of the three format importers and the extension dispatch.

use event_viewer::imports::{import_csv, import_xml};
use event_viewer::pipeline::EventViewerApp;

const NOW: i64 = 1_700_000_000;

fn fresh_app() -> EventViewerApp {
    EventViewerApp::new(vec!["System".to_string()], vec!["System".to_string()])
}

#[test]
fn csv_rows_become_one_record_each_with_joined_fields() {
    let data = b"time,source,message\na,b,c\nd,e,f\ng,h,i\n";
    let records = import_csv(data, NOW);
    assert_eq!(records.len(), 3);
    for r in &records {
        assert_eq!(r.source, "Import");
        assert_eq!(r.level, "Info");
        assert_eq!(r.log_name, "Imported CSV");
        assert_eq!(r.time_created, NOW);
        assert_eq!(r.event_id, 0);
    }
    assert_eq!(records[0].description, "a, b, c");
    assert_eq!(records[1].description, "d, e, f");
    assert_eq!(records[2].description, "g, h, i");
    assert_eq!(records[0].raw_xml, "a, b, c");
}

#[test]
fn csv_import_keeps_the_full_joined_description() {
    let long = "x".repeat(300);
    let data = format!("header\n{}\n", long);
    let records = import_csv(data.as_bytes(), NOW);
    assert_eq!(records.len(), 1);
    assert_eq!(records[0].description, long);
    assert_eq!(records[0].raw_xml, long);
}

#[test]
fn csv_import_of_header_only_input_yields_nothing() {
    let records = import_csv(b"only,a,header\n", NOW);
    assert_eq!(records.len(), 0);
}

#[test]
fn xml_export_yields_one_record_per_event_with_reconstructed_text() {
    let xml = "<Events><Event><EventID>1000</EventID><Computer>PC</Computer></Event><Event><Data>x</Data></Event></Events>";
    let records = import_xml(xml, NOW);
    assert_eq!(records.len(), 2);
    assert_eq!(
        records[0].raw_xml,
        "<Event><EventID>1000</EventID><Computer>PC</Computer></Event>"
    );
    assert_eq!(records[0].event_id, 1000);
    assert_eq!(records[0].computer, "PC");
    assert_eq!(records[0].log_name, "Imported XML");
    assert_eq!(records[1].raw_xml, "<Event><Data>x</Data></Event>");
    assert_eq!(records[1].description, "x");
}

#[test]
fn xml_export_reconstruction_keeps_attributes_and_nesting() {
    let xml = "<Event><System><Provider Name=\"svc\"/><TimeCreated SystemTime=\"2024-01-02T00:00:00Z\"/></System></Event>";
    let records = import_xml(xml, NOW);
    assert_eq!(records.len(), 1);
    assert_eq!(
        records[0].raw_xml,
        "<Event><System><Provider Name=\"svc\"/><TimeCreated SystemTime=\"2024-01-02T00:00:00Z\"/></System></Event>"
    );
    assert_eq!(records[0].source, "svc");
    assert_eq!(records[0].time_created, 1_704_153_600);
    assert!(!records[0].raw_xml.is_empty());
}

#[test]
fn xml_export_with_no_complete_event_yields_nothing() {
    assert_eq!(import_xml("<Events><Other>5</Other></Events>", NOW).len(), 0);
    assert_eq!(import_xml("<Event><EventID>3</EventID>", NOW).len(), 0);
    assert_eq!(import_xml("", NOW).len(), 0);
}

#[test]
fn cdata_content_is_preserved_in_reconstruction_and_ignored_for_fields() {
    let xml = "<Event><Data><![CDATA[a>b]]></Data></Event>";
    let records = import_xml(xml, NOW);
    assert_eq!(records.len(), 1);
    assert_eq!(records[0].raw_xml, "<Event><Data>a>b</Data></Event>");
    assert_eq!(records[0].description, "");
}

#[test]
fn import_file_dispatches_csv_by_extension_and_pauses() {
    let mut app = fresh_app();
    assert!(!app.paused);
    app.import_file("/tmp/export.csv", b"h\nrow1\nrow2\n", NOW);
    assert!(app.paused);
    assert_eq!(app.filtered_events.len(), 2);
    assert_eq!(app.filtered_events[0].description, "row1");
    assert_eq!(app.filtered_events[0].source, "Import");
}

#[test]
fn import_file_dispatches_xml_by_extension() {
    let mut app = fresh_app();
    app.import_file(
        "export.xml",
        b"<Event><EventID>9</EventID></Event>",
        NOW,
    );
    assert!(app.paused);
    assert_eq!(app.filtered_events.len(), 1);
    assert_eq!(app.filtered_events[0].event_id, 9);
}

#[test]
fn import_file_rejects_a_bad_binary_archive_and_keeps_the_view() {
    let mut app = fresh_app();
    app.import_file("dump.csv", b"h\nkeep me\n", NOW);
    assert_eq!(app.filtered_events.len(), 1);
    app.import_file("dump.evtx", b"this is not an archive", NOW);
    assert!(app.paused);
    assert_eq!(app.filtered_events.len(), 1);
    assert_eq!(app.filtered_events[0].description, "keep me");
}

#[test]
fn import_file_ignores_unknown_extensions() {
    let mut app = fresh_app();
    app.import_file("notes.txt", b"whatever", NOW);
    assert!(app.paused);
    assert_eq!(app.filtered_events.len(), 0);
}
