//! The foreground side of the ingestion pipeline: the working set of records,
//! the conjunctive filter criteria, the always-sorted filtered view, and the
//! polling/paused state machine that decides whether drained live records are
//! merged or discarded.

use vstd::prelude::*;
use vstd::string::*;
use vstd::seq_lib::{to_multiset_insert, to_multiset_build};
use crate::record::{EventRecord, models};
use crate::text::{has_substr, contains_substr, ends_with_spec, str_ends_with};
use crate::imports::{
    import_evtx, import_csv, import_xml, texts_records, csv_records, xml_import_spec,
    xml_imported_record,
};
use crate::ext::{evtx_texts_of, csv_rows_of, utf8_to_str};
use vstd::utf8::{valid_utf8, decode_utf8};

verus! {

/// Filter criteria: every predicate is optional, and an unset predicate is
/// vacuously true. Date bounds are inclusive, in seconds since the UNIX epoch.
pub struct Filters {
    pub levels: Vec<String>,
    pub source: String,
    pub event_id: Option<u16>,
    pub user: String,
    pub computer: String,
    pub keyword: String,
    pub date_from: Option<i64>,
    pub date_to: Option<i64>,
}

#[verifier::ext_equal]
pub ghost struct FiltersModel {
    pub levels: Seq<Seq<char>>,
    pub source: Seq<char>,
    pub event_id: Option<u16>,
    pub user: Seq<char>,
    pub computer: Seq<char>,
    pub keyword: Seq<char>,
    pub date_from: Option<i64>,
    pub date_to: Option<i64>,
}

impl View for Filters {
    type V = FiltersModel;

    open spec fn view(&self) -> FiltersModel {
        FiltersModel {
            levels: self.levels.deep_view(),
            source: self.source@,
            event_id: self.event_id,
            user: self.user@,
            computer: self.computer@,
            keyword: self.keyword@,
            date_from: self.date_from,
            date_to: self.date_to,
        }
    }
}

/// The criteria with nothing set.
pub open spec fn default_filters_model() -> FiltersModel {
    FiltersModel {
        levels: Seq::empty(),
        source: Seq::empty(),
        event_id: None,
        user: Seq::empty(),
        computer: Seq::empty(),
        keyword: Seq::empty(),
        date_from: None,
        date_to: None,
    }
}

impl Default for Filters {
    fn default() -> (r: Self)
        ensures
            r@ == default_filters_model(),
    {
        let r = Filters {
            levels: Vec::new(),
            source: String::new(),
            event_id: None,
            user: String::new(),
            computer: String::new(),
            keyword: String::new(),
            date_from: None,
            date_to: None,
        };
        proof {
            assert(r@ =~= default_filters_model());
        }
        r
    }
}

/// Whether the record's severity label is one of the selected ones.
pub open spec fn level_selected(levels: Seq<Seq<char>>, level: Seq<char>) -> bool {
    exists|i: int| 0 <= i < levels.len() && levels[i] == level
}

/// A record passes when every active predicate holds; unset predicates are
/// vacuously true, so all predicates are conjunctive.
pub open spec fn matches_filters(f: FiltersModel, r: crate::record::RecordModel) -> bool {
    &&& (f.levels.len() == 0 || level_selected(f.levels, r.level))
    &&& (f.source.len() == 0 || has_substr(r.source, f.source))
    &&& (match f.event_id {
        Some(id) => r.event_id == id,
        None => true,
    })
    &&& (f.user.len() == 0 || has_substr(r.user, f.user))
    &&& (f.computer.len() == 0 || has_substr(r.computer, f.computer))
    &&& (f.keyword.len() == 0 || has_substr(r.description, f.keyword) || has_substr(
        r.raw_xml,
        f.keyword,
    ))
    &&& (match f.date_from {
        Some(d) => r.time_created >= d,
        None => true,
    })
    &&& (match f.date_to {
        Some(d) => r.time_created <= d,
        None => true,
    })
}

fn level_selected_exec(levels: &Vec<String>, level: &String) -> (b: bool)
    ensures
        b == level_selected(levels.deep_view(), level@),
{
    let mut k: usize = 0;
    while k < levels.len()
        invariant
            k <= levels@.len(),
            forall|p: int| 0 <= p < k ==> levels.deep_view()[p] != level@,
        decreases levels@.len() - k,
    {
        if levels[k] == *level {
            proof {
                assert(levels.deep_view()[k as int] == level@);
            }
            return true;
        }
        k += 1;
    }
    false
}

/// Evaluates every predicate of the criteria against one record.
pub fn record_matches(f: &Filters, r: &EventRecord) -> (b: bool)
    ensures
        b == matches_filters(f@, r@),
{
    let levels_ok = f.levels.len() == 0 || level_selected_exec(&f.levels, &r.level);
    let source_ok = f.source.unicode_len() == 0 || contains_substr(
        r.source.as_str(),
        f.source.as_str(),
    );
    let id_ok = match f.event_id {
        Some(id) => r.event_id == id,
        None => true,
    };
    let user_ok = f.user.unicode_len() == 0 || contains_substr(r.user.as_str(), f.user.as_str());
    let computer_ok = f.computer.unicode_len() == 0 || contains_substr(
        r.computer.as_str(),
        f.computer.as_str(),
    );
    let keyword_ok = f.keyword.unicode_len() == 0 || contains_substr(
        r.description.as_str(),
        f.keyword.as_str(),
    ) || contains_substr(r.raw_xml.as_str(), f.keyword.as_str());
    let from_ok = match f.date_from {
        Some(d) => r.time_created >= d,
        None => true,
    };
    let to_ok = match f.date_to {
        Some(d) => r.time_created <= d,
        None => true,
    };
    levels_ok && source_ok && id_ok && user_ok && computer_ok && keyword_ok && from_ok && to_ok
}

/// Sorted by time created, newest first.
pub open spec fn sorted_desc(s: Seq<EventRecord>) -> bool {
    forall|i: int, j: int|
        #![trigger s[i], s[j]]
        0 <= i < j < s.len() ==> s[i]@.time_created >= s[j]@.time_created
}

/// The records of `s` that match criteria `f`, in their original order.
pub open spec fn matching(s: Seq<EventRecord>, f: FiltersModel) -> Seq<EventRecord> {
    s.filter(|e: EventRecord| matches_filters(f, e@))
}

proof fn lemma_matching_push(s: Seq<EventRecord>, f: FiltersModel, e: EventRecord)
    ensures
        matching(s.push(e), f) == if matches_filters(f, e@) {
            matching(s, f).push(e)
        } else {
            matching(s, f)
        },
{
    reveal(Seq::filter);
    assert(s.push(e).drop_last() =~= s);
    assert(s.push(e).last() == e);
}

/// An all-default criteria set keeps every record of any working set: each
/// unset predicate is vacuously true.
pub proof fn lemma_default_filters_keep_all(s: Seq<EventRecord>)
    ensures
        matching(s, default_filters_model()) == s,
    decreases s.len(),
{
    reveal(Seq::filter);
    if s.len() == 0 {
        assert(matching(s, default_filters_model()) =~= s);
    } else {
        lemma_default_filters_keep_all(s.drop_last());
        assert(matches_filters(default_filters_model(), s.last()@));
        lemma_matching_push(s.drop_last(), default_filters_model(), s.last());
        assert(s.drop_last().push(s.last()) =~= s);
    }
}

/// With all-default criteria the filtered view keeps the working set
/// unchanged in membership: only the mandatory newest-first sort may reorder
/// it.
pub proof fn lemma_default_view_membership(ws: Seq<EventRecord>, view: Seq<EventRecord>)
    requires
        view_of(ws, default_filters_model(), view),
    ensures
        view.to_multiset() == ws.to_multiset(),
        sorted_desc(view),
{
    lemma_default_filters_keep_all(ws);
}

/// Inserts a record into a view already sorted newest-first, keeping it
/// sorted; the contents grow by exactly that record.
fn insert_sorted(out: &mut Vec<EventRecord>, r: EventRecord)
    requires
        sorted_desc(old(out)@),
    ensures
        sorted_desc(final(out)@),
        final(out)@.to_multiset() == old(out)@.to_multiset().insert(r),
        final(out)@.len() == old(out)@.len() + 1,
{
    let mut j: usize = 0;
    while j < out.len() && out[j].time_created >= r.time_created
        invariant
            j <= out@.len(),
            out@ == old(out)@,
            forall|p: int| 0 <= p < j ==> (#[trigger] out@[p])@.time_created >= r@.time_created,
        decreases out@.len() - j,
    {
        j += 1;
    }
    proof {
        old(out)@.insert_ensures(j as int, r);
        to_multiset_insert(old(out)@, j as int, r);
    }
    out.insert(j, r);
    proof {
        let s = old(out)@;
        let s2 = out@;
        assert forall|a: int, b: int|
            #![trigger s2[a], s2[b]]
            0 <= a < b < s2.len() implies s2[a]@.time_created >= s2[b]@.time_created by {
            if b < j {
                assert(s2[a] == s[a] && s2[b] == s[b]);
            } else if a < j && b == j {
                assert(s2[a] == s[a] && s2[b] == r);
            } else if a < j && b > j {
                assert(s2[a] == s[a] && s2[b] == s[b - 1]);
                if b - 1 >= j {
                    assert(s[j as int]@.time_created < r@.time_created || j == s.len());
                }
            } else if a == j {
                assert(s2[a] == r && s2[b] == s[b - 1] && b - 1 >= j);
            } else {
                assert(s2[a] == s[a - 1] && s2[b] == s[b - 1]);
            }
        }
    }
}

/// Sorts records by time created, newest first; the result holds exactly the
/// input records.
pub fn sort_by_time_desc(input: &Vec<EventRecord>) -> (r: Vec<EventRecord>)
    ensures
        sorted_desc(r@),
        r@.to_multiset() == input@.to_multiset(),
        r@.len() == input@.len(),
{
    let mut out: Vec<EventRecord> = Vec::new();
    let mut k: usize = 0;
    proof {
        assert(input@.subrange(0, 0) =~= Seq::<EventRecord>::empty());
        assert(out@ =~= input@.subrange(0, 0));
    }
    while k < input.len()
        invariant
            k <= input@.len(),
            sorted_desc(out@),
            out@.len() == k,
            out@.to_multiset() == input@.subrange(0, k as int).to_multiset(),
        decreases input@.len() - k,
    {
        let e = input[k].clone();
        proof {
            to_multiset_build(input@.subrange(0, k as int), e);
            assert(input@.subrange(0, k as int).push(e) =~= input@.subrange(0, k + 1));
        }
        insert_sorted(&mut out, e);
        k += 1;
    }
    proof {
        assert(input@.subrange(0, input@.len() as int) =~= input@);
    }
    out
}

/// The pipeline's foreground state: the working set owned by the consumer,
/// the derived filtered view, the criteria, and the polling/paused flag.
pub struct EventViewerApp {
    pub all_events: Vec<EventRecord>,
    pub filtered_events: Vec<EventRecord>,
    pub filters: Filters,
    pub paused: bool,
    pub page_size: u32,
    pub current_page: u32,
    pub selected: Option<usize>,
    pub available_logs: Vec<String>,
    pub selected_logs: Vec<String>,
}

/// The filtered view a working set and criteria determine: the matching
/// records and nothing else, sorted newest-first.
pub open spec fn view_of(ws: Seq<EventRecord>, f: FiltersModel, view: Seq<EventRecord>) -> bool {
    &&& sorted_desc(view)
    &&& view.to_multiset() == matching(ws, f).to_multiset()
}

impl EventViewerApp {
    /// A fresh consumer: empty working set, default criteria, polling.
    pub fn new(available_logs: Vec<String>, selected_logs: Vec<String>) -> (app: Self)
        ensures
            app.all_events@ =~= Seq::<EventRecord>::empty(),
            app.filtered_events@ =~= Seq::<EventRecord>::empty(),
            app.filters@ == default_filters_model(),
            !app.paused,
            app.page_size == 100,
            app.current_page == 0,
            app.selected is None,
            app.available_logs == available_logs,
            app.selected_logs == selected_logs,
    {
        EventViewerApp {
            all_events: Vec::new(),
            filtered_events: Vec::new(),
            filters: Filters::default(),
            paused: false,
            page_size: 100,
            current_page: 0,
            selected: None,
            available_logs,
            selected_logs,
        }
    }

    /// Recomputes the filtered view from the working set and the criteria:
    /// exactly the matching records, sorted by time created, newest first.
    pub fn apply_filters(&mut self)
        ensures
            final(self).all_events == old(self).all_events,
            final(self).filters == old(self).filters,
            final(self).paused == old(self).paused,
            final(self).page_size == old(self).page_size,
            final(self).current_page == old(self).current_page,
            final(self).selected == old(self).selected,
            final(self).available_logs == old(self).available_logs,
            final(self).selected_logs == old(self).selected_logs,
            view_of(old(self).all_events@, old(self).filters@, final(self).filtered_events@),
    {
        let ghost f = self.filters@;
        let mut keep: Vec<EventRecord> = Vec::new();
        let mut k: usize = 0;
        proof {
            reveal(Seq::filter);
            assert(self.all_events@.subrange(0, 0) =~= Seq::<EventRecord>::empty());
            assert(matching(self.all_events@.subrange(0, 0), f) =~= Seq::<EventRecord>::empty());
        }
        while k < self.all_events.len()
            invariant
                k <= self.all_events@.len(),
                f == self.filters@,
                keep@ == matching(self.all_events@.subrange(0, k as int), f),
            decreases self.all_events@.len() - k,
        {
            let e = &self.all_events[k];
            proof {
                lemma_matching_push(self.all_events@.subrange(0, k as int), f, *e);
                assert(self.all_events@.subrange(0, k as int).push(*e) =~= self.all_events@.subrange(
                    0,
                    k + 1,
                ));
            }
            if record_matches(&self.filters, e) {
                keep.push(e.clone());
            }
            k += 1;
        }
        proof {
            assert(self.all_events@.subrange(0, self.all_events@.len() as int) =~= self.all_events@);
        }
        self.filtered_events = sort_by_time_desc(&keep);
    }

    /// Replaces the criteria and recomputes the view.
    pub fn set_filters(&mut self, filters: Filters)
        ensures
            final(self).filters == filters,
            final(self).all_events == old(self).all_events,
            final(self).paused == old(self).paused,
            view_of(old(self).all_events@, filters@, final(self).filtered_events@),
    {
        self.filters = filters;
        self.apply_filters();
    }

    /// Pauses or resumes merging of live records; nothing else changes.
    pub fn set_paused(&mut self, paused: bool)
        ensures
            final(self).paused == paused,
            final(self).all_events == old(self).all_events,
            final(self).filtered_events == old(self).filtered_events,
            final(self).filters == old(self).filters,
            final(self).selected == old(self).selected,
    {
        self.paused = paused;
    }

    /// Drains one batch of live records. While polling, the batch — delivered
    /// oldest-first by the producer — is prepended record by record, so it
    /// ends up ahead of all previously known records and newest-first, in the
    /// producer's own order; the view is recomputed. While paused, the batch
    /// is discarded and nothing changes.
    pub fn update_live(&mut self, batch: Vec<EventRecord>)
        ensures
            final(self).paused == old(self).paused,
            final(self).filters == old(self).filters,
            old(self).paused ==> final(self).all_events == old(self).all_events
                && final(self).filtered_events == old(self).filtered_events,
            !old(self).paused ==> final(self).all_events@ == batch@.reverse()
                + old(self).all_events@,
            !old(self).paused ==> view_of(
                batch@.reverse() + old(self).all_events@,
                old(self).filters@,
                final(self).filtered_events@,
            ),
    {
        if !self.paused {
            let ghost old_all = self.all_events@;
            let mut k: usize = 0;
            proof {
                assert(batch@.subrange(0, 0).reverse() =~= Seq::<EventRecord>::empty());
                assert(self.all_events@ =~= batch@.subrange(0, 0).reverse() + old_all);
            }
            while k < batch.len()
                invariant
                    k <= batch@.len(),
                    self.filters == old(self).filters,
                    self.paused == old(self).paused,
                    self.all_events@ == batch@.subrange(0, k as int).reverse() + old_all,
                decreases batch@.len() - k,
            {
                let e = batch[k].clone();
                self.all_events.insert(0, e);
                proof {
                    assert(self.all_events@ =~= batch@.subrange(0, k + 1).reverse() + old_all);
                }
                k += 1;
            }
            proof {
                assert(batch@.subrange(0, batch@.len() as int) =~= batch@);
                assert(self.all_events@ =~= batch@.reverse() + old_all);
            }
            self.apply_filters();
        }
    }

    /// A full refresh: the working set is replaced wholesale by the freshly
    /// queried records, the page offset resets, and the view is recomputed.
    pub fn refresh(&mut self, fresh: Vec<EventRecord>)
        ensures
            final(self).current_page == 0,
            final(self).all_events == fresh,
            final(self).paused == old(self).paused,
            final(self).filters == old(self).filters,
            view_of(fresh@, old(self).filters@, final(self).filtered_events@),
    {
        self.current_page = 0;
        self.all_events = fresh;
        self.apply_filters();
    }

    /// Read access to the filtered view.
    pub fn filtered_view(&self) -> (r: &Vec<EventRecord>)
        ensures
            r == &self.filtered_events,
    {
        &self.filtered_events
    }

    /// Imports one file's bytes: live merging pauses, the importer is selected
    /// by the path's extension alone, and the imported records replace the
    /// filtered view wholesale — imports are a distinct inspection mode, so
    /// the working set is untouched. A rejected binary archive, export text
    /// that is not UTF-8, or an unrecognized extension leaves the view
    /// unchanged.
    pub fn import_file(&mut self, path: &str, data: &[u8], now: i64)
        ensures
            final(self).paused,
            final(self).all_events == old(self).all_events,
            final(self).filters == old(self).filters,
            ({
                let v = final(self).filtered_events;
                if ends_with_spec(path@, ".evtx"@) {
                    match evtx_texts_of(data@) {
                        Some(texts) => models(v@) == texts_records(texts, "Imported EVTX"@, now),
                        None => v == old(self).filtered_events,
                    }
                } else if ends_with_spec(path@, ".xml"@) {
                    if valid_utf8(data@) {
                        v@.len() == xml_import_spec(decode_utf8(data@)).len() && forall|k: int|
                            0 <= k < v@.len() ==> xml_imported_record(
                                xml_import_spec(decode_utf8(data@))[k].0,
                                xml_import_spec(decode_utf8(data@))[k].1,
                                now,
                                (#[trigger] v@[k])@,
                            )
                    } else {
                        v == old(self).filtered_events
                    }
                } else if ends_with_spec(path@, ".csv"@) {
                    models(v@) == csv_records(csv_rows_of(data@), now)
                } else {
                    v == old(self).filtered_events
                }
            }),
    {
        self.paused = true;
        if str_ends_with(path, ".evtx") {
            if let Some(recs) = import_evtx(data, now) {
                self.filtered_events = recs;
            }
        } else if str_ends_with(path, ".xml") {
            if let Some(text) = utf8_to_str(data) {
                self.filtered_events = import_xml(text, now);
            }
        } else if str_ends_with(path, ".csv") {
            self.filtered_events = import_csv(data, now);
        }
    }

    /// The record the selection points at: the selected index, or the first
    /// record when nothing is selected, as far as the view reaches.
    pub fn selected_record(&self) -> (r: Option<&EventRecord>)
        ensures
            match r {
                Some(e) => {
                    let idx = match self.selected {
                        Some(s) => s as int,
                        None => 0int,
                    };
                    idx < self.filtered_events@.len() && *e == self.filtered_events@[idx]
                },
                None => match self.selected {
                    Some(s) => s as int >= self.filtered_events@.len(),
                    None => self.filtered_events@.len() == 0,
                },
            },
    {
        let idx = match self.selected {
            Some(s) => s,
            None => 0,
        };
        if idx < self.filtered_events.len() {
            Some(&self.filtered_events[idx])
        } else {
            None
        }
    }
}

} // verus!
