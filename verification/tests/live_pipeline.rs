//! Tests of the filter criteria, the mandatory sort, the live merge and the
//! paused state, and the fallback line records.

use event_viewer::adapter::records_from_lines;
use event_viewer::pipeline::{EventViewerApp, Filters};
use event_viewer::record::EventRecord;

fn rec(tag: &str, t: i64) -> EventRecord {
    EventRecord {
        log_name: "System".to_string(),
        time_created: t,
        event_id: 100,
        level: "Information".to_string(),
        source: "unit".to_string(),
        user: "root".to_string(),
        computer: "host".to_string(),
        description: tag.to_string(),
        raw_xml: format!("<Event>{}</Event>", tag),
    }
}

fn fresh_app() -> EventViewerApp {
    EventViewerApp::new(vec!["System".to_string()], vec!["System".to_string()])
}

fn tags(view: &[EventRecord]) -> Vec<String> {
    view.iter().map(|r| r.description.clone()).collect()
}

#[test]
fn default_criteria_keep_every_record() {
    let mut app = fresh_app();
    app.refresh(vec![rec("a", 10), rec("b", 30), rec("c", 20)]);
    assert_eq!(app.filtered_events.len(), 3);
    let mut seen = tags(&app.filtered_events);
    seen.sort();
    assert_eq!(seen, vec!["a", "b", "c"]);
}

#[test]
fn filtered_view_is_always_sorted_by_time_descending() {
    let mut app = fresh_app();
    app.refresh(vec![rec("a", 10), rec("b", 30), rec("c", 20), rec("d", 30)]);
    let times: Vec<i64> = app.filtered_events.iter().map(|r| r.time_created).collect();
    for w in times.windows(2) {
        assert!(w[0] >= w[1]);
    }
    assert_eq!(times, vec![30, 30, 20, 10]);
}

#[test]
fn refresh_replaces_the_working_set_and_resets_the_page() {
    let mut app = fresh_app();
    app.current_page = 7;
    app.refresh(vec![rec("old", 1)]);
    app.refresh(vec![rec("new", 2)]);
    assert_eq!(app.current_page, 0);
    assert_eq!(app.all_events.len(), 1);
    assert_eq!(app.all_events[0].description, "new");
}

#[test]
fn live_batch_is_prepended_in_producer_order() {
    let mut app = fresh_app();
    app.refresh(vec![rec("known", 5)]);
    // The producer delivers a batch oldest-first.
    app.update_live(vec![rec("oldest", 10), rec("middle", 20), rec("newest", 30)]);
    assert_eq!(
        tags(&app.all_events),
        vec!["newest", "middle", "oldest", "known"]
    );
    // The view saw the merge too, newest first.
    assert_eq!(
        tags(&app.filtered_events),
        vec!["newest", "middle", "oldest", "known"]
    );
}

#[test]
fn paused_discards_live_batches_until_resume() {
    let mut app = fresh_app();
    app.refresh(vec![rec("known", 5)]);
    app.set_paused(true);
    app.update_live(vec![rec("dropped", 50)]);
    assert_eq!(tags(&app.all_events), vec!["known"]);
    assert_eq!(tags(&app.filtered_events), vec!["known"]);
    app.set_paused(false);
    app.update_live(vec![rec("merged", 60)]);
    assert_eq!(tags(&app.all_events), vec!["merged", "known"]);
}

#[test]
fn filters_are_conjunctive() {
    let mut app = fresh_app();
    let mut a = rec("a", 10);
    a.source = "alpha".to_string();
    a.event_id = 1;
    let mut b = rec("b", 20);
    b.source = "alpha".to_string();
    b.event_id = 2;
    let mut c = rec("c", 30);
    c.source = "beta".to_string();
    c.event_id = 1;
    app.refresh(vec![a, b, c]);
    let mut f = Filters::default();
    f.source = "alph".to_string();
    f.event_id = Some(1);
    app.set_filters(f);
    assert_eq!(tags(&app.filtered_events), vec!["a"]);
}

#[test]
fn keyword_matches_description_or_raw_text() {
    let mut app = fresh_app();
    let mut a = rec("needle in payload", 10);
    a.raw_xml = "<Event>blank</Event>".to_string();
    let mut b = rec("nothing", 20);
    b.raw_xml = "<Event>needle in raw</Event>".to_string();
    let c = rec("unrelated", 30);
    app.refresh(vec![a, b, c]);
    let mut f = Filters::default();
    f.keyword = "needle".to_string();
    app.set_filters(f);
    let mut seen = tags(&app.filtered_events);
    seen.sort();
    assert_eq!(seen, vec!["needle in payload", "nothing"]);
}

#[test]
fn level_filter_selects_only_listed_labels() {
    let mut app = fresh_app();
    let mut a = rec("err", 10);
    a.level = "Error".to_string();
    let mut b = rec("info", 20);
    b.level = "Information".to_string();
    app.refresh(vec![a, b]);
    let mut f = Filters::default();
    f.levels = vec!["Error".to_string(), "Critical".to_string()];
    app.set_filters(f);
    assert_eq!(tags(&app.filtered_events), vec!["err"]);
}

#[test]
fn user_and_computer_filters_match_substrings() {
    let mut app = fresh_app();
    let mut a = rec("a", 10);
    a.user = "S-1-5-18".to_string();
    a.computer = "HOST-A".to_string();
    let mut b = rec("b", 20);
    b.user = "S-1-5-21".to_string();
    b.computer = "HOST-B".to_string();
    app.refresh(vec![a, b]);
    let mut f = Filters::default();
    f.user = "5-18".to_string();
    f.computer = "HOST".to_string();
    app.set_filters(f);
    assert_eq!(tags(&app.filtered_events), vec!["a"]);
}

#[test]
fn date_range_bounds_are_inclusive() {
    let mut app = fresh_app();
    app.refresh(vec![rec("a", 10), rec("b", 20), rec("c", 30)]);
    let mut f = Filters::default();
    f.date_from = Some(10);
    f.date_to = Some(20);
    app.set_filters(f);
    let mut seen = tags(&app.filtered_events);
    seen.sort();
    assert_eq!(seen, vec!["a", "b"]);
}

#[test]
fn exact_event_id_filter() {
    let mut app = fresh_app();
    let mut a = rec("a", 10);
    a.event_id = 4624;
    let mut b = rec("b", 20);
    b.event_id = 4625;
    app.refresh(vec![a, b]);
    let mut f = Filters::default();
    f.event_id = Some(4624);
    app.set_filters(f);
    assert_eq!(tags(&app.filtered_events), vec!["a"]);
}

#[test]
fn selected_record_follows_the_selection_index() {
    let mut app = fresh_app();
    app.refresh(vec![rec("a", 10), rec("b", 20)]);
    assert_eq!(app.selected_record().unwrap().description, "b");
    app.selected = Some(1);
    assert_eq!(app.selected_record().unwrap().description, "a");
    app.selected = Some(9);
    assert!(app.selected_record().is_none());
}

#[test]
fn fallback_lines_wrap_the_most_recent_lines_in_reverse() {
    let lines = vec!["one".to_string(), "two".to_string(), "three".to_string()];
    let records = records_from_lines(&lines, "system", 77, 2);
    assert_eq!(records.len(), 2);
    assert_eq!(records[0].description, "three");
    assert_eq!(records[0].raw_xml, "three");
    assert_eq!(records[0].log_name, "system");
    assert_eq!(records[0].time_created, 77);
    assert_eq!(records[0].level, "");
    assert_eq!(records[1].description, "two");
    let all = records_from_lines(&lines, "system", 77, 50);
    assert_eq!(all.len(), 3);
}

#[test]
fn query_scenario_sorts_the_more_recent_record_first() {
    // A two-event query output: identifier 1000 at severity code 2 and
    // identifier 4624 at severity code 4, the latter more recent.
    let xml = "<Event><EventID>1000</EventID><Level>2</Level><TimeCreated SystemTime=\"2024-01-01T00:00:00Z\"/></Event><Event><EventID>4624</EventID><Level>4</Level><TimeCreated SystemTime=\"2024-01-02T00:00:00Z\"/></Event>";
    let records = event_viewer::adapter::decode_query_output(xml, 0);
    assert_eq!(records.len(), 2);
    let mut app = fresh_app();
    app.refresh(records);
    assert_eq!(app.filtered_events.len(), 2);
    assert_eq!(app.filtered_events[0].event_id, 4624);
    assert_eq!(app.filtered_events[0].level, "Information");
    assert_eq!(app.filtered_events[1].event_id, 1000);
    assert_eq!(app.filtered_events[1].level, "Error");
    assert!(
        app.filtered_events[0].time_created >= app.filtered_events[1].time_created
    );
}
