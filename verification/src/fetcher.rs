//! The cursor fetcher of one partition, as a state machine: the caller
//! requests a page, hands its body in, and is told whether to request again,
//! to pause and request the next page, or to stop.

use crate::calendar::{day_text, iso_pattern, Day};
use crate::json::{parse_value, parsed_members, string_member};
use crate::stats::{wrapped_sum, Statistics};
use crate::text::{
    blank, is_blank, lines, prefix_before, split_lines, take_before, text_equal, texts,
};
use vstd::prelude::*;
use vstd::string::StringExecFns;

verus! {

/// So many blank pages in a row end a partition.
pub const EMPTY_PAGE_LIMIT: usize = 3;

/// After so many full pages a partition is stopped by force.
pub const PAGE_CAP: usize = 1000;

/// Why a partition's fetch stopped.
#[derive(Clone, Copy, Debug, PartialEq, Eq, Structural)]
pub enum StopReason {
    /// The last of several blank pages in a row.
    EmptyPages,
    /// A page without a single valid record.
    NoValidRecords,
    /// The page gave no new cursor: none at all, or the one of the page before.
    NoProgress,
    /// The new cursor lies in another day.
    DayCrossed,
    /// The page held fewer valid records than were asked for.
    ShortPage,
    /// The cap on pages was reached.
    PageCap,
}

/// What the caller does next.
#[derive(Clone, Copy, Debug, PartialEq, Eq, Structural)]
pub enum Step {
    /// Request the same page again, at once.
    Again,
    /// Pause briefly, then request the next page.
    Pause,
    /// The partition is done.
    Stop(StopReason),
}

/// Where a partition's fetch stands.
#[derive(Clone, Debug, PartialEq, Eq)]
pub struct FetchState {
    /// The cursor of the next request.
    pub since: String,
    /// The cursor of the request before the last one; empty at first.
    pub previous: String,
    /// Full pages taken so far.
    pub pages: usize,
    /// Blank pages in a row.
    pub empty_pages: usize,
}

/// One request for a page: records from `since` on, before `until`, at most
/// `limit` of them.
#[derive(Clone, Debug, PartialEq, Eq)]
pub struct PageRequest {
    pub since: String,
    pub until: String,
    pub limit: usize,
}

/// A `FetchState` as plain values.
pub struct FetchModel {
    pub since: Seq<char>,
    pub previous: Seq<char>,
    pub pages: nat,
    pub empty_pages: nat,
}

/// What one page held.
#[derive(Clone, Debug, PartialEq, Eq)]
pub struct PageScan {
    /// The valid records, each followed by a line feed: what goes to the log.
    pub accepted: String,
    /// The number of valid records.
    pub valid: usize,
    /// The number of malformed lines.
    pub errors: usize,
    /// The timestamp of the last valid record that has one; empty if none has.
    pub cursor: String,
}

/// A `PageScan` as plain values.
pub struct ScanModel {
    pub accepted: Seq<char>,
    pub valid: nat,
    pub errors: nat,
    pub cursor: Seq<char>,
}

/// What a page did to a partition's fetch.
#[derive(Clone, Debug, PartialEq, Eq)]
pub struct PageReport {
    /// The valid records of the page, for the partition's log.
    pub accepted: String,
    /// The number of valid records.
    pub valid: usize,
    /// The number of malformed lines.
    pub errors: usize,
    /// What to do next.
    pub step: Step,
}

impl View for FetchState {
    type V = FetchModel;

    open spec fn view(&self) -> FetchModel {
        FetchModel {
            since: self.since@,
            previous: self.previous@,
            pages: self.pages as nat,
            empty_pages: self.empty_pages as nat,
        }
    }
}

impl View for PageScan {
    type V = ScanModel;

    open spec fn view(&self) -> ScanModel {
        ScanModel {
            accepted: self.accepted@,
            valid: self.valid as nat,
            errors: self.errors as nat,
            cursor: self.cursor@,
        }
    }
}

/// A partition whose log is there and not empty was fetched in full by an
/// earlier run: in resume mode it is not fetched again.
pub open spec fn spec_should_skip(resume: bool, log_len: Option<u64>) -> bool {
    resume && log_len is Some && log_len->Some_0 > 0
}

/// The scan of no lines.
pub open spec fn empty_scan() -> ScanModel {
    ScanModel { accepted: Seq::empty(), valid: 0, errors: 0, cursor: Seq::empty() }
}

/// The scan after one more line: a blank line changes nothing, a line that is
/// no JSON is an error, and any other line is a record, which may bring a new
/// cursor.
pub open spec fn scan_line(scan: ScanModel, line: Seq<char>) -> ScanModel {
    if blank(line) {
        scan
    } else {
        match parsed_members(line) {
            None => ScanModel { errors: scan.errors + 1, ..scan },
            Some(members) => ScanModel {
                accepted: scan.accepted + line + seq!['\n'],
                valid: scan.valid + 1,
                errors: scan.errors,
                cursor: if members.contains_key("Timestamp"@) {
                    members["Timestamp"@]
                } else {
                    scan.cursor
                },
            },
        }
    }
}

/// The scan of `lines`, taken in order.
pub open spec fn scan_lines(lines: Seq<Seq<char>>) -> ScanModel
    decreases lines.len(),
{
    if lines.len() == 0 {
        empty_scan()
    } else {
        scan_line(scan_lines(lines.drop_last()), lines.last())
    }
}

/// A fetch that may take another page: neither the blank pages in a row nor
/// the pages have reached their limit.
pub open spec fn live(state: FetchModel) -> bool {
    state.empty_pages < EMPTY_PAGE_LIMIT && state.pages <= PAGE_CAP
}

/// The stopping rules. `page_blank` says that the page's body was blank,
/// `scan` what its lines held, `day` is the partition's day as text.
pub open spec fn spec_advance(
    state: FetchModel,
    page_blank: bool,
    scan: ScanModel,
    batch_size: nat,
    day: Seq<char>,
) -> (FetchModel, Step) {
    if page_blank {
        let empties = state.empty_pages + 1;
        (
            FetchModel { empty_pages: empties, ..state },
            if empties >= EMPTY_PAGE_LIMIT {
                Step::Stop(StopReason::EmptyPages)
            } else {
                Step::Again
            },
        )
    } else {
        let seen = FetchModel { empty_pages: 0, ..state };
        if scan.valid == 0 {
            (seen, Step::Stop(StopReason::NoValidRecords))
        } else if scan.cursor.len() == 0 || scan.cursor == state.previous {
            (seen, Step::Stop(StopReason::NoProgress))
        } else if prefix_before(scan.cursor, 'T') != day {
            (seen, Step::Stop(StopReason::DayCrossed))
        } else if scan.valid < batch_size {
            (seen, Step::Stop(StopReason::ShortPage))
        } else {
            let pages = state.pages + 1;
            (
                FetchModel { since: scan.cursor, previous: state.since, pages, empty_pages: 0 },
                if pages > PAGE_CAP {
                    Step::Stop(StopReason::PageCap)
                } else {
                    Step::Pause
                },
            )
        }
    }
}

/// The upper bound of every request of `day`'s partition: the start of the
/// next day, or of the day itself where the calendar has no next day.
pub open spec fn spec_upper_bound(day: Day) -> Seq<char> {
    match day.next_day() {
        Some(next) => next.spec_start_instant(),
        None => day.spec_start_instant(),
    }
}

/// How many more steps a fetch can take at most before it must stop.
pub open spec fn steps_left(state: FetchModel) -> int {
    (PAGE_CAP + 1 - state.pages) * EMPTY_PAGE_LIMIT + (EMPTY_PAGE_LIMIT - 1 - state.empty_pages)
}

/// Whether a partition is left out of this run. In resume mode a log that
/// is there and not empty stands for a partition fetched in full; the log
/// itself is not looked into, so a log cut short by a crash is taken for a
/// whole one.
pub fn should_skip(resume: bool, log_len: Option<u64>) -> (skip: bool)
    ensures
        skip == spec_should_skip(resume, log_len),
{
    match log_len {
        Some(len) => resume && len > 0,
        None => false,
    }
}

/// The upper bound of every request of a partition: the start of the next
/// day, or of the day itself where the calendar has no next day.
pub fn upper_bound(day: Day) -> (until: String)
    requires
        day.valid(),
    ensures
        until@ == spec_upper_bound(day),
{
    match day.next() {
        Some(next) => next.start_instant(),
        None => day.start_instant(),
    }
}

/// Reads a page's body line by line.
pub fn scan_page(body: &str) -> (scan: PageScan)
    ensures
        scan@ == scan_lines(lines(body@)),
{
    let all = split_lines(body);
    let mut scan = PageScan {
        accepted: String::new(),
        valid: 0,
        errors: 0,
        cursor: String::new(),
    };
    let mut i: usize = 0;
    assert(texts(all@).subrange(0, 0) =~= Seq::empty());
    while i < all.len()
        invariant
            i <= all@.len(),
            texts(all@) == lines(body@),
            scan.valid + scan.errors <= i,
            scan@ == scan_lines(texts(all@).subrange(0, i as int)),
        decreases all@.len() - i,
    {
        let line = all[i].as_str();
        proof {
            let done = texts(all@).subrange(0, i + 1);
            assert(done.drop_last() =~= texts(all@).subrange(0, i as int));
            assert(done.last() == line@);
            reveal_strlit("\n");
            assert("\n"@ =~= seq!['\n']);
        }
        if !is_blank(line) {
            match parse_value(line) {
                Some(value) => {
                    scan.accepted.append(line);
                    scan.accepted.append("\n");
                    scan.valid = scan.valid + 1;
                    match string_member(&value, "Timestamp") {
                        Some(stamp) => {
                            scan.cursor = stamp;
                        },
                        None => {},
                    }
                },
                None => {
                    scan.errors = scan.errors + 1;
                },
            }
        }
        i += 1;
    }
    assert(texts(all@).subrange(0, i as int) =~= texts(all@));
    scan
}

impl FetchState {
    /// The fetch of `day`'s partition before its first request: the cursor is
    /// the start of the day.
    pub fn start(day: Day) -> (state: FetchState)
        requires
            day.valid(),
        ensures
            state@ == (FetchModel {
                since: day.spec_start_instant(),
                previous: Seq::empty(),
                pages: 0,
                empty_pages: 0,
            }),
            live(state@),
    {
        FetchState { since: day.start_instant(), previous: String::new(), pages: 0, empty_pages: 0 }
    }

    /// The request for the next page of `day`'s partition: from the cursor
    /// up to the end of the day, `batch_size` records at most.
    pub fn request(&self, day: Day, batch_size: usize) -> (request: PageRequest)
        requires
            day.valid(),
        ensures
            request.since@ == self.since@,
            request.until@ == spec_upper_bound(day),
            request.limit == batch_size,
    {
        PageRequest { since: self.since.clone(), until: upper_bound(day), limit: batch_size }
    }

    /// Applies the stopping rules to one page, given what its lines held,
    /// and moves the cursor on where the fetch goes on.
    pub fn advance(
        &mut self,
        page_blank: bool,
        scan: &PageScan,
        batch_size: usize,
        day: &str,
    ) -> (step: Step)
        requires
            live(old(self)@),
        ensures
            (final(self)@, step) == spec_advance(
                old(self)@,
                page_blank,
                scan@,
                batch_size as nat,
                day@,
            ),
            !(step is Stop) ==> live(final(self)@),
    {
        if page_blank {
            self.empty_pages = self.empty_pages + 1;
            if self.empty_pages >= EMPTY_PAGE_LIMIT {
                return Step::Stop(StopReason::EmptyPages);
            }
            return Step::Again;
        }
        self.empty_pages = 0;
        if scan.valid == 0 {
            return Step::Stop(StopReason::NoValidRecords);
        }
        if scan.cursor.as_str().is_empty() || text_equal(
            scan.cursor.as_str(),
            self.previous.as_str(),
        ) {
            return Step::Stop(StopReason::NoProgress);
        }
        let date = take_before(scan.cursor.as_str(), 'T');
        if !text_equal(date.as_str(), day) {
            return Step::Stop(StopReason::DayCrossed);
        }
        if scan.valid < batch_size {
            return Step::Stop(StopReason::ShortPage);
        }
        self.previous = self.since.clone();
        self.since = scan.cursor.clone();
        self.pages = self.pages + 1;
        if self.pages > PAGE_CAP {
            return Step::Stop(StopReason::PageCap);
        }
        Step::Pause
    }

    /// Takes in the body of one page of `day`'s partition: scans it, counts
    /// its records and errors into `stats`, and applies the stopping rules.
    pub fn absorb(&mut self, body: &str, batch_size: usize, day: Day, stats: &mut Statistics) -> (report:
        PageReport)
        requires
            live(old(self)@),
            day.valid(),
        ensures
            ({
                let scan = scan_lines(lines(body@));
                let next = spec_advance(
                    old(self)@,
                    blank(body@),
                    scan,
                    batch_size as nat,
                    day_text(day.number as int, iso_pattern()),
                );
                &&& final(self)@ == next.0
                &&& report.step == next.1
                &&& !(report.step is Stop) ==> live(final(self)@)
                &&& report.accepted@ == (if blank(body@) {
                    Seq::empty()
                } else {
                    scan.accepted
                })
                &&& report.valid == (if blank(body@) {
                    0
                } else {
                    scan.valid
                })
                &&& report.errors == (if blank(body@) {
                    0
                } else {
                    scan.errors
                })
                &&& *final(stats) == (Statistics {
                    total_records: wrapped_sum(old(stats).total_records, report.valid) as usize,
                    total_errors: wrapped_sum(old(stats).total_errors, report.errors) as usize,
                    ..*old(stats)
                })
            }),
    {
        if is_blank(body) {
            let scan = PageScan {
                accepted: String::new(),
                valid: 0,
                errors: 0,
                cursor: String::new(),
            };
            let step = self.advance(true, &scan, batch_size, "");
            return PageReport { accepted: scan.accepted, valid: 0, errors: 0, step };
        }
        let scan = scan_page(body);
        let text = day.iso_text();
        let step = self.advance(false, &scan, batch_size, text.as_str());
        stats.add_records(scan.valid);
        stats.add_errors(scan.errors);
        PageReport { accepted: scan.accepted, valid: scan.valid, errors: scan.errors, step }
    }
}

/// A page that is not blank, holds valid records but fewer than were asked
/// for, and brings a new cursor inside the day, ends the partition as a short
/// page: no blank page and no repeated cursor is needed for that.
pub proof fn lemma_short_page_stops(
    state: FetchModel,
    scan: ScanModel,
    batch_size: nat,
    day: Seq<char>,
)
    requires
        0 < scan.valid < batch_size,
        scan.cursor.len() > 0,
        scan.cursor != state.previous,
        prefix_before(scan.cursor, 'T') == day,
    ensures
        spec_advance(state, false, scan, batch_size, day).1 == Step::Stop(StopReason::ShortPage),
{
}

/// A page whose cursor is the one of the page before ends the partition at
/// once, whatever else it holds.
pub proof fn lemma_repeated_cursor_stops(
    state: FetchModel,
    scan: ScanModel,
    batch_size: nat,
    day: Seq<char>,
)
    requires
        scan.valid > 0,
        scan.cursor == state.previous,
    ensures
        spec_advance(state, false, scan, batch_size, day).1 == Step::Stop(StopReason::NoProgress),
{
}

/// No partition is fetched for ever: each step that does not stop leaves
/// fewer steps to take, and there are never fewer than none.
pub proof fn lemma_fetch_terminates(
    state: FetchModel,
    page_blank: bool,
    scan: ScanModel,
    batch_size: nat,
    day: Seq<char>,
)
    requires
        live(state),
    ensures
        steps_left(state) >= 0,
        !(spec_advance(state, page_blank, scan, batch_size, day).1 is Stop) ==> {
            let next = spec_advance(state, page_blank, scan, batch_size, day).0;
            live(next) && 0 <= steps_left(next) < steps_left(state)
        },
{
    assert(steps_left(state) >= 0) by (nonlinear_arith)
        requires
            state.pages <= PAGE_CAP,
            state.empty_pages < EMPTY_PAGE_LIMIT,
            steps_left(state) == (PAGE_CAP + 1 - state.pages) * EMPTY_PAGE_LIMIT + (EMPTY_PAGE_LIMIT
                - 1 - state.empty_pages),
    ;
}

} // verus!
