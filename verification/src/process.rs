//! An opened process: its scan state and its watched addresses, and what
//! each step of a scan or a watch does to them.
use vstd::prelude::*;
use windows_sys::Win32::Foundation::HANDLE;
use crate::console::{Console, ConsoleRow, log_after_add};
use crate::scan::{AsyncProcessScan, ResultRow, ScanMessage, ScanState};
use crate::text;
use crate::types::{EMessageType, EValueType};
use crate::values;

verus! {

/// `new_log` is `old_log` with one message added whose text is `msg` and
/// whose type is `kind`.
pub open spec fn logged(
    old_log: Seq<ConsoleRow>,
    new_log: Seq<ConsoleRow>,
    msg: Seq<char>,
    kind: EMessageType,
) -> bool {
    &&& new_log.len() > 0
    &&& new_log == log_after_add(old_log, new_log.last())
    &&& new_log.last().spec_message() == msg
    &&& new_log.last().spec_type() == kind
}

/// What a full scan needs to run in the background.
pub struct ScanRequest {
    pub pid: u32,
    pub input: String,
    pub value_type: EValueType,
}

/// Why a watched row could not be written.
#[derive(Debug, Clone, Copy, PartialEq, Eq, Structural)]
pub enum WatchError {
    InvalidIndex,
    VerificationFailed,
}

/// The message of each watch error.
pub open spec fn watch_error_message(e: WatchError) -> Seq<char> {
    match e {
        WatchError::InvalidIndex => "Invalid watched row index"@,
        WatchError::VerificationFailed => "Write verification failed: value changed immediately"@,
    }
}

impl WatchError {
    /// The message of the error.
    pub fn message(&self) -> (s: String)
        ensures
            s@ == watch_error_message(*self),
    {
        match self {
            WatchError::InvalidIndex => text::string_of("Invalid watched row index"),
            WatchError::VerificationFailed => text::string_of(
                "Write verification failed: value changed immediately",
            ),
        }
    }
}

/// `row` with `text` as its value, where there is a text.
pub open spec fn refreshed_row(row: ResultRow, text: Option<String>) -> ResultRow {
    match text {
        Some(s) => ResultRow { cached_value: s, ..row },
        None => row,
    }
}

/// The results that a next scan keeps: the rows whose bytes, read again,
/// are the wanted bytes, in their order, each showing the text read.
pub open spec fn next_scan_rows(
    rows: Seq<ResultRow>,
    wanted: Seq<u8>,
    reads: Seq<Option<Vec<u8>>>,
    texts: Seq<Option<String>>,
) -> Seq<ResultRow>
    decreases rows.len(),
{
    if rows.len() == 0 {
        seq![]
    } else {
        let k = rows.len() - 1;
        let prev = next_scan_rows(rows.drop_last(), wanted, reads.drop_last(), texts.drop_last());
        if reads[k] matches Some(b) && b@ == wanted {
            prev.push(refreshed_row(rows[k], texts[k]))
        } else {
            prev
        }
    }
}

/// Next scan: the rows a next scan keeps are, in their order, exactly the
/// rows whose bytes read again are the wanted bytes (`origin` gives the
/// position each came from). Each keeps its address, type and the rest,
/// and shows the text of the bytes read at its address in this scan where
/// there is one; only where there is none does it keep its old text.
pub proof fn lemma_next_scan_keeps_matching_rows(
    rows: Seq<ResultRow>,
    wanted: Seq<u8>,
    reads: Seq<Option<Vec<u8>>>,
    texts: Seq<Option<String>>,
) -> (origin: Seq<int>)
    requires
        reads.len() == rows.len(),
        texts.len() == rows.len(),
    ensures
        ({
            let r = next_scan_rows(rows, wanted, reads, texts);
            &&& origin.len() == r.len()
            &&& forall|j: int, l: int| 0 <= j < l < origin.len() ==> origin[j] < origin[l]
            &&& forall|j: int|
                #![trigger r[j]]
                0 <= j < r.len() ==> {
                    let i = origin[j];
                    &&& 0 <= i < rows.len()
                    &&& reads[i] matches Some(b) && b@ == wanted
                    &&& r[j].address == rows[i].address
                    &&& r[j].value_type == rows[i].value_type
                    &&& r[j].description == rows[i].description
                    &&& r[j].is_frozen == rows[i].is_frozen
                    &&& r[j].write_ok == rows[i].write_ok
                    &&& r[j].value_after_write == rows[i].value_after_write
                    &&& r[j].value_after_100ms == rows[i].value_after_100ms
                    &&& r[j].verify_after_at == rows[i].verify_after_at
                    &&& r[j].cached_value == (match texts[i] {
                        Some(t) => t,
                        None => rows[i].cached_value,
                    })
                }
            &&& forall|i: int|
                0 <= i < rows.len() && (#[trigger] reads[i] matches Some(b) && b@ == wanted) ==> origin.contains(i)
        }),
    decreases rows.len(),
{
    if rows.len() == 0 {
        Seq::empty()
    } else {
        let k = rows.len() - 1;
        let rs = rows.drop_last();
        let rd = reads.drop_last();
        let tx = texts.drop_last();
        let prev_origin = lemma_next_scan_keeps_matching_rows(rs, wanted, rd, tx);
        let prev = next_scan_rows(rs, wanted, rd, tx);
        let r = next_scan_rows(rows, wanted, reads, texts);
        assert forall|i: int| 0 <= i < k implies rs[i] == rows[i] && rd[i] == reads[i] && tx[i] == texts[i] by {}
        if reads[k] matches Some(b) && b@ == wanted {
            let origin = prev_origin.push(k);
            assert(r == prev.push(refreshed_row(rows[k], texts[k])));
            assert(prev.len() == prev_origin.len());
            assert(rs.len() == k);
            assert forall|j: int| 0 <= j < prev_origin.len() implies prev_origin[j] < k by {
                let x = prev[j];
                assert(0 <= prev_origin[j] < rs.len());
            }
            assert forall|j: int, l: int| 0 <= j < l < origin.len() implies origin[j] < origin[l] by {
                if l < prev_origin.len() {
                    assert(origin[j] == prev_origin[j] && origin[l] == prev_origin[l]);
                } else {
                    assert(origin[j] == prev_origin[j]);
                }
            }
            assert forall|j: int| #![trigger r[j]] 0 <= j < r.len() implies ({
                let i = origin[j];
                &&& 0 <= i < rows.len()
                &&& reads[i] matches Some(b) && b@ == wanted
                &&& r[j].address == rows[i].address
                &&& r[j].value_type == rows[i].value_type
                &&& r[j].description == rows[i].description
                &&& r[j].is_frozen == rows[i].is_frozen
                &&& r[j].write_ok == rows[i].write_ok
                &&& r[j].value_after_write == rows[i].value_after_write
                &&& r[j].value_after_100ms == rows[i].value_after_100ms
                &&& r[j].verify_after_at == rows[i].verify_after_at
                &&& r[j].cached_value == (match texts[i] {
                    Some(t) => t,
                    None => rows[i].cached_value,
                })
            }) by {
                if j < prev.len() {
                    assert(r[j] == prev[j]);
                    assert(origin[j] == prev_origin[j]);
                }
            }
            assert forall|i: int|
                0 <= i < rows.len() && (#[trigger] reads[i] matches Some(b) && b@ == wanted) implies origin.contains(i) by {
                if i < k {
                    assert(rd[i] == reads[i]);
                    let w = choose|w: int| 0 <= w < prev_origin.len() && prev_origin[w] == i;
                    assert(origin[w] == i);
                } else {
                    assert(origin[origin.len() - 1] == k);
                }
            }
            origin
        } else {
            assert(r == prev);
            assert forall|i: int|
                0 <= i < rows.len() && (#[trigger] reads[i] matches Some(b) && b@ == wanted) implies prev_origin.contains(i) by {
                assert(i != k);
                assert(rd[i] == reads[i]);
            }
            prev_origin
        }
    }
}

/// `rows` after a refresh: each row that is not frozen and was read shows
/// the text read; the others stay as they were.
pub open spec fn refreshed_watch(rows: Seq<ResultRow>, values: Seq<Option<String>>) -> Seq<ResultRow> {
    Seq::new(
        rows.len(),
        |i: int|
            if !rows[i].is_frozen {
                refreshed_row(rows[i], values[i])
            } else {
                rows[i]
            },
    )
}

/// What refreshing one watched row takes: a frozen row has its value
/// written again; any other row is read.
pub enum WatchedRefresh {
    Rewrite { address: usize, value_type: EValueType, value: String },
    Read { address: usize, value_type: EValueType },
}

/// `step` is the refresh that `row` takes.
pub open spec fn is_refresh_of(step: WatchedRefresh, row: ResultRow) -> bool {
    if row.is_frozen {
        step matches WatchedRefresh::Rewrite { address, value_type, value } && address == row.address
            && value_type == row.value_type && value@ == row.cached_value@
    } else {
        step matches WatchedRefresh::Read { address, value_type } && address == row.address
            && value_type == row.value_type
    }
}

/// Refreshing watched rows: the rows keep their number and order; a frozen
/// row stays exactly as it was; a row that is not frozen shows the value
/// read for it where there is one, and nothing else of it changes.
pub proof fn lemma_refresh_keeps_frozen_rows(rows: Seq<ResultRow>, values: Seq<Option<String>>)
    requires
        values.len() == rows.len(),
    ensures
        refreshed_watch(rows, values).len() == rows.len(),
        forall|i: int|
            #![trigger refreshed_watch(rows, values)[i]]
            0 <= i < rows.len() ==> {
                let r = refreshed_watch(rows, values)[i];
                &&& (rows[i].is_frozen || values[i] is None) ==> r == rows[i]
                &&& (!rows[i].is_frozen && values[i] is Some) ==> {
                    &&& r.cached_value == values[i]->0
                    &&& r.address == rows[i].address
                    &&& r.value_type == rows[i].value_type
                    &&& r.description == rows[i].description
                    &&& r.is_frozen == rows[i].is_frozen
                    &&& r.write_ok == rows[i].write_ok
                    &&& r.value_after_write == rows[i].value_after_write
                    &&& r.value_after_100ms == rows[i].value_after_100ms
                    &&& r.verify_after_at == rows[i].verify_after_at
                }
            },
{
}

/// A watched row whose value is due to be read back at `now`.
pub open spec fn is_due(row: ResultRow, now: u64) -> bool {
    row.verify_after_at matches Some(deadline) && now >= deadline
}

/// A watched row that needs regular redraws: it is frozen, or it waits to
/// be read back.
pub open spec fn keeps_redrawing(row: ResultRow) -> bool {
    row.is_frozen || row.verify_after_at is Some
}

/// A process opened for reading and writing its memory.
pub struct OpenedProcess {
    handle: HANDLE,
    pub scan: ScanState,
    pub pid: u32,
    pub watched_rows: Vec<ResultRow>,
    async_scan_state: AsyncProcessScan,
}

impl OpenedProcess {
    /// The handle the process was opened with.
    pub closed spec fn spec_handle(&self) -> HANDLE {
        self.handle
    }

    /// The scanner's state.
    pub closed spec fn spec_scan(&self) -> ScanState {
        self.scan
    }

    /// The process id.
    pub closed spec fn spec_pid(&self) -> u32 {
        self.pid
    }

    /// The watched rows.
    pub closed spec fn spec_watched(&self) -> Seq<ResultRow> {
        self.watched_rows@
    }

    /// The progress of the background scan.
    pub closed spec fn spec_async(&self) -> AsyncProcessScan {
        self.async_scan_state
    }

    /// The process `pid` opened with `handle`; `None` where opening it
    /// failed, which `OpenProcess` reports with a null handle.
    pub fn new(pid: u32, handle: HANDLE) -> (r: Option<Self>)
        ensures
            r is Some <==> handle != 0,
            r matches Some(p) ==> {
                &&& p.spec_pid() == pid
                &&& p.spec_handle() == handle
                &&& p.spec_watched() == Seq::<ResultRow>::empty()
                &&& p.spec_scan().input_value@ == Seq::<char>::empty()
                &&& p.spec_scan().results@ == Seq::<ResultRow>::empty()
                &&& !p.spec_scan().has_scan_session
                &&& p.spec_scan().selected_value_type == EValueType::I32
                &&& p.spec_scan().scan_results_count == 10_000
                &&& p.spec_scan().scan_results_count_input@ == "10000"@
                &&& !p.spec_async().is_running
                &&& p.spec_async().total_regions == 0
                &&& p.spec_async().scanned_regions == 0
                &&& p.spec_async().total_found == 0
            },
    {
        if handle == 0 {
            return None;
        }
        Some(
            OpenedProcess {
                handle,
                pid,
                watched_rows: Vec::new(),
                scan: ScanState::default(),
                async_scan_state: AsyncProcessScan::default(),
            },
        )
    }

    /// The handle the process was opened with.
    pub fn handle(&self) -> (h: HANDLE)
        ensures
            h == self.spec_handle(),
    {
        self.handle
    }

    /// The progress of the background scan.
    pub fn async_scan_state(&self) -> (s: &AsyncProcessScan)
        ensures
            *s == self.spec_async(),
    {
        &self.async_scan_state
    }

    /// Starts a full scan unless one is running: clears the results, marks
    /// the scan running, logs that it started, and returns what the
    /// background scan needs. Returns `None`, changing nothing, while a scan
    /// is running.
    pub fn full_scan(&mut self, console: &mut Console) -> (r: Option<ScanRequest>)
        ensures
            old(self).spec_async().is_running ==> {
                &&& r is None
                &&& final(self).spec_scan() == old(self).spec_scan()
                &&& final(self).spec_async() == old(self).spec_async()
                &&& final(console).messages() == old(console).messages()
            },
            !old(self).spec_async().is_running ==> {
                &&& r matches Some(req) && {
                    &&& req.pid == old(self).spec_pid()
                    &&& req.value_type == old(self).spec_scan().selected_value_type
                    &&& req.input@ == values::normalized_input(
                        old(self).spec_scan().selected_value_type,
                        old(self).spec_scan().input_value@,
                    )
                }
                &&& final(self).spec_scan().results@ == Seq::<ResultRow>::empty()
                &&& final(self).spec_scan().input_value == old(self).spec_scan().input_value
                &&& final(self).spec_scan().has_scan_session == old(self).spec_scan().has_scan_session
                &&& final(self).spec_scan().selected_value_type == old(self).spec_scan().selected_value_type
                &&& final(self).spec_scan().scan_results_count == old(self).spec_scan().scan_results_count
                &&& final(self).spec_scan().scan_results_count_input == old(self).spec_scan().scan_results_count_input
                &&& final(self).spec_async() == (AsyncProcessScan {
                    is_running: true,
                    total_regions: 0,
                    scanned_regions: 0,
                    total_found: 0,
                })
                &&& logged(
                    old(console).messages(),
                    final(console).messages(),
                    "Full scan started"@,
                    EMessageType::Log,
                )
            },
            final(console).spec_is_active() == old(console).spec_is_active(),
            final(console).spec_pinned() == old(console).spec_pinned(),
            final(console).spec_jump_requested() == old(console).spec_jump_requested(),
            final(self).spec_pid() == old(self).spec_pid(),
            final(self).spec_handle() == old(self).spec_handle(),
            final(self).spec_watched() == old(self).spec_watched(),
    {
        if self.async_scan_state.is_running {
            return None;
        }
        let value_type = self.scan.selected_value_type;
        let input = values::normalize_scan_input(value_type, self.scan.input_value.as_str());
        self.scan.results = Vec::new();
        self.async_scan_state.is_running = true;
        self.async_scan_state.total_regions = 0;
        self.async_scan_state.scanned_regions = 0;
        self.async_scan_state.total_found = 0;
        let row = ConsoleRow::new(text::string_of("Full scan started"), EMessageType::Log);
        console.add_message(row);
        Some(ScanRequest { pid: self.pid, input, value_type })
    }

    /// The type and the input of a next scan: the type of the first result
    /// (the selected type where there is none) and the input as the scan
    /// compares it. `None` where there has been no full scan yet.
    pub fn next_scan_request(&self) -> (r: Option<(EValueType, String)>)
        ensures
            !self.spec_scan().has_scan_session ==> r is None,
            self.spec_scan().has_scan_session ==> (r matches Some((t, input)) && {
                &&& t == (if self.spec_scan().results@.len() > 0 {
                    self.spec_scan().results@[0].value_type
                } else {
                    self.spec_scan().selected_value_type
                })
                &&& input@ == values::normalized_input(t, self.spec_scan().input_value@)
            }),
    {
        if !self.scan.has_scan_session {
            return None;
        }
        let value_type = if self.scan.results.len() > 0 {
            self.scan.results[0].value_type
        } else {
            self.scan.selected_value_type
        };
        let input = values::normalize_scan_input(value_type, self.scan.input_value.as_str());
        Some((value_type, input))
    }

    /// Keeps the results whose bytes, read again into `reads`, are still
    /// the `wanted` bytes; each kept row shows the text in `texts`, where
    /// there is one. Changes nothing where `wanted` is empty or there has
    /// been no full scan.
    pub fn next_scan(&mut self, wanted: &[u8], reads: &Vec<Option<Vec<u8>>>, texts: &Vec<Option<String>>)
        requires
            reads@.len() == old(self).spec_scan().results@.len(),
            texts@.len() == old(self).spec_scan().results@.len(),
        ensures
            (wanted@.len() == 0 || !old(self).spec_scan().has_scan_session) ==> final(self).spec_scan()
                == old(self).spec_scan(),
            (wanted@.len() > 0 && old(self).spec_scan().has_scan_session) ==> {
                &&& final(self).spec_scan().results@ == next_scan_rows(
                    old(self).spec_scan().results@,
                    wanted@,
                    reads@,
                    texts@,
                )
                &&& final(self).spec_scan().input_value == old(self).spec_scan().input_value
                &&& final(self).spec_scan().has_scan_session == old(self).spec_scan().has_scan_session
                &&& final(self).spec_scan().selected_value_type == old(self).spec_scan().selected_value_type
                &&& final(self).spec_scan().scan_results_count == old(self).spec_scan().scan_results_count
                &&& final(self).spec_scan().scan_results_count_input == old(self).spec_scan().scan_results_count_input
            },
            final(self).spec_pid() == old(self).spec_pid(),
            final(self).spec_handle() == old(self).spec_handle(),
            final(self).spec_watched() == old(self).spec_watched(),
            final(self).spec_async() == old(self).spec_async(),
    {
        if !self.scan.has_scan_session || wanted.len() == 0 {
            return;
        }
        let mut rows: Vec<ResultRow> = Vec::new();
        std::mem::swap(&mut rows, &mut self.scan.results);
        let ghost all = rows@;
        let mut kept: Vec<ResultRow> = Vec::new();
        let mut i: usize = 0;
        let n = reads.len();
        for row in it: rows.into_iter()
            invariant
                i == it.index(),
                n == reads@.len(),
                it.seq() == all,
                all.len() == reads@.len() == texts@.len(),
                kept@ == next_scan_rows(
                    all.take(i as int),
                    wanted@,
                    reads@.take(i as int),
                    texts@.take(i as int),
                ),
        {
            assert(all.take(i + 1).drop_last() == all.take(i as int));
            assert(reads@.take(i + 1).drop_last() == reads@.take(i as int));
            assert(texts@.take(i + 1).drop_last() == texts@.take(i as int));
            let keep = match &reads[i] {
                Some(b) => bytes_equal(b.as_slice(), wanted),
                None => false,
            };
            if keep {
                let mut r = row;
                match &texts[i] {
                    Some(t) => {
                        r.cached_value = t.clone();
                    },
                    None => {},
                }
                kept.push(r);
            }
            i += 1;
        }
        assert(all.take(all.len() as int) == all);
        assert(reads@.take(all.len() as int) == reads@);
        assert(texts@.take(all.len() as int) == texts@);
        self.scan.results = kept;
    }

    /// Clears the input and the results and ends the scan session.
    pub fn reset_scan(&mut self)
        ensures
            final(self).spec_scan().input_value@ == Seq::<char>::empty(),
            final(self).spec_scan().results@ == Seq::<ResultRow>::empty(),
            !final(self).spec_scan().has_scan_session,
            final(self).spec_scan().selected_value_type == old(self).spec_scan().selected_value_type,
            final(self).spec_scan().scan_results_count == old(self).spec_scan().scan_results_count,
            final(self).spec_scan().scan_results_count_input == old(self).spec_scan().scan_results_count_input,
            final(self).spec_pid() == old(self).spec_pid(),
            final(self).spec_handle() == old(self).spec_handle(),
            final(self).spec_watched() == old(self).spec_watched(),
            final(self).spec_async() == old(self).spec_async(),
    {
        self.scan.input_value = String::new();
        self.scan.results = Vec::new();
        self.scan.has_scan_session = false;
    }

    /// What refreshing each watched row takes, in the rows' order.
    pub fn refresh_plan(&self) -> (plan: Vec<WatchedRefresh>)
        ensures
            plan@.len() == self.spec_watched().len(),
            forall|i: int| 0 <= i < plan@.len() ==> is_refresh_of(#[trigger] plan@[i], self.spec_watched()[i]),
    {
        let mut plan: Vec<WatchedRefresh> = Vec::new();
        let n = self.watched_rows.len();
        let mut i: usize = 0;
        while i < n
            invariant
                i <= n == self.watched_rows@.len(),
                plan@.len() == i,
                forall|j: int| 0 <= j < i ==> is_refresh_of(#[trigger] plan@[j], self.watched_rows@[j]),
            decreases n - i,
        {
            let row = &self.watched_rows[i];
            let step = if row.is_frozen {
                WatchedRefresh::Rewrite {
                    address: row.address,
                    value_type: row.value_type,
                    value: row.cached_value.clone(),
                }
            } else {
                WatchedRefresh::Read { address: row.address, value_type: row.value_type }
            };
            plan.push(step);
            i += 1;
        }
        plan
    }

    /// Shows the values read for the watched rows: each row that is not
    /// frozen and has a value in `values` shows it; frozen rows, and rows
    /// whose read failed, stay as they were.
    pub fn refresh_watched(&mut self, values: &Vec<Option<String>>)
        requires
            values@.len() == old(self).spec_watched().len(),
        ensures
            final(self).spec_watched() == refreshed_watch(old(self).spec_watched(), values@),
            final(self).spec_scan() == old(self).spec_scan(),
            final(self).spec_pid() == old(self).spec_pid(),
            final(self).spec_handle() == old(self).spec_handle(),
            final(self).spec_async() == old(self).spec_async(),
    {
        let mut rows: Vec<ResultRow> = Vec::new();
        std::mem::swap(&mut rows, &mut self.watched_rows);
        let ghost all = rows@;
        let mut out: Vec<ResultRow> = Vec::new();
        let mut i: usize = 0;
        let n = values.len();
        for row in it: rows.into_iter()
            invariant
                i == it.index(),
                n == values@.len(),
                it.seq() == all,
                all.len() == values@.len(),
                out@ == refreshed_watch(all, values@).take(i as int),
        {
            let mut r = row;
            if !r.is_frozen {
                match &values[i] {
                    Some(v) => {
                        r.cached_value = v.clone();
                    },
                    None => {},
                }
            }
            out.push(r);
            assert(refreshed_watch(all, values@).take(i + 1) == refreshed_watch(all, values@).take(
                i as int,
            ).push(refreshed_watch(all, values@)[i as int]));
            i += 1;
        }
        assert(refreshed_watch(all, values@).take(all.len() as int) == refreshed_watch(
            all,
            values@,
        ));
        self.watched_rows = out;
    }

    /// The indices, in increasing order, of the watched rows whose value is
    /// due to be read back at `now`.
    pub fn due_verifications(&self, now: u64) -> (r: Vec<usize>)
        ensures
            forall|k: int|
                0 <= k < r@.len() ==> #[trigger] r@[k] < self.spec_watched().len() && is_due(
                    self.spec_watched()[r@[k] as int],
                    now,
                ),
            forall|k: int, l: int| 0 <= k < l < r@.len() ==> r@[k] < r@[l],
            forall|i: int|
                0 <= i < self.spec_watched().len() && is_due(#[trigger] self.spec_watched()[i], now)
                    ==> r@.contains(i as usize),
    {
        let mut r: Vec<usize> = Vec::new();
        let n = self.watched_rows.len();
        let mut i: usize = 0;
        while i < n
            invariant
                i <= n == self.watched_rows@.len(),
                forall|k: int|
                    0 <= k < r@.len() ==> #[trigger] r@[k] < i && is_due(
                        self.watched_rows@[r@[k] as int],
                        now,
                    ),
                forall|k: int, l: int| 0 <= k < l < r@.len() ==> r@[k] < r@[l],
                forall|j: int|
                    0 <= j < i && is_due(#[trigger] self.watched_rows@[j], now) ==> r@.contains(
                        j as usize,
                    ),
            decreases n - i,
        {
            let due = match self.watched_rows[i].verify_after_at {
                Some(deadline) => !(now < deadline),
                None => false,
            };
            if due {
                let ghost before = r@;
                r.push(i);
                assert forall|j: int|
                    0 <= j < i + 1 && is_due(#[trigger] self.watched_rows@[j], now) implies r@.contains(
                    j as usize,
                ) by {
                    if j < i {
                        let w = choose|w: int| 0 <= w < before.len() && before[w] == j as usize;
                        assert(r@[w] == before[w]);
                    } else {
                        assert(r@[r@.len() - 1] == i);
                    }
                }
            }
            i += 1;
        }
        r
    }

    /// Records the value read back after a write: the text read, or `ERR: `
    /// and the error where the read failed; the row is no longer due.
    pub fn record_verification(&mut self, index: usize, outcome: Result<String, String>)
        requires
            index < old(self).spec_watched().len(),
        ensures
            final(self).spec_watched() == old(self).spec_watched().update(
                index as int,
                ResultRow {
                    value_after_100ms: Some(final(self).spec_watched()[index as int].value_after_100ms->0),
                    verify_after_at: None,
                    ..old(self).spec_watched()[index as int]
                },
            ),
            final(self).spec_watched()[index as int].value_after_100ms matches Some(v) && v@ == match outcome {
                Ok(t) => t@,
                Err(e) => "ERR: "@ + e@,
            },
            final(self).spec_scan() == old(self).spec_scan(),
            final(self).spec_pid() == old(self).spec_pid(),
            final(self).spec_handle() == old(self).spec_handle(),
            final(self).spec_async() == old(self).spec_async(),
    {
        let text = match outcome {
            Ok(v) => v,
            Err(e) => {
                let mut s = text::string_of("ERR: ");
                text::push_str(&mut s, e.as_str());
                s
            },
        };
        let mut row = self.watched_rows.remove(index);
        row.value_after_100ms = Some(text);
        row.verify_after_at = None;
        self.watched_rows.insert(index, row);
    }

    /// The address, type and value text of the watched row at `index`, for
    /// writing it; the error where there is no such row.
    pub fn watched_update_request(&self, index: usize) -> (r: Result<(usize, EValueType, String), WatchError>)
        ensures
            index >= self.spec_watched().len() ==> r == Err::<(usize, EValueType, String), WatchError>(WatchError::InvalidIndex),
            index < self.spec_watched().len() ==> (r matches Ok((address, t, v)) && {
                &&& address == self.spec_watched()[index as int].address
                &&& t == self.spec_watched()[index as int].value_type
                &&& v@ == self.spec_watched()[index as int].cached_value@
            }),
    {
        if index >= self.watched_rows.len() {
            return Err(WatchError::InvalidIndex);
        }
        let row = &self.watched_rows[index];
        Ok((row.address, row.value_type, row.cached_value.clone()))
    }

    /// Records a write of the watched row at `index`: it shows `read_back`,
    /// the text read after the write, notes whether `read_back_raw`, the
    /// bytes read after the write, are the bytes `written`, and is due to be
    /// read again 100 ms after `now`. The error where they differ.
    pub fn record_watched_update(
        &mut self,
        index: usize,
        written: &[u8],
        read_back_raw: &[u8],
        read_back: String,
        now: u64,
    ) -> (r: Result<(), WatchError>)
        requires
            index < old(self).spec_watched().len(),
            now + 100 <= u64::MAX,
        ensures
            final(self).spec_watched().len() == old(self).spec_watched().len(),
            forall|i: int|
                0 <= i < old(self).spec_watched().len() && i != index ==> #[trigger] final(self).spec_watched()[i]
                    == old(self).spec_watched()[i],
            ({
                let o = old(self).spec_watched()[index as int];
                let f = final(self).spec_watched()[index as int];
                &&& f.description == o.description
                &&& f.address == o.address
                &&& f.value_type == o.value_type
                &&& f.is_frozen == o.is_frozen
                &&& f.cached_value@ == read_back@
                &&& f.write_ok == Some(read_back_raw@ == written@)
                &&& f.value_after_write matches Some(v) && v@ == read_back@
                &&& f.value_after_100ms is None
                &&& f.verify_after_at == Some((now + 100) as u64)
            }),
            r == if read_back_raw@ == written@ {
                Ok::<(), WatchError>(())
            } else {
                Err(WatchError::VerificationFailed)
            },
            final(self).spec_scan() == old(self).spec_scan(),
            final(self).spec_pid() == old(self).spec_pid(),
            final(self).spec_handle() == old(self).spec_handle(),
            final(self).spec_async() == old(self).spec_async(),
    {
        let write_ok = bytes_equal(read_back_raw, written);
        let mut row = self.watched_rows.remove(index);
        row.value_after_write = Some(read_back.clone());
        row.cached_value = read_back;
        row.write_ok = Some(write_ok);
        row.value_after_100ms = None;
        row.verify_after_at = Some(now + 100);
        self.watched_rows.insert(index, row);
        if !write_ok {
            return Err(WatchError::VerificationFailed);
        }
        Ok(())
    }

    /// Whether the view has to be redrawn regularly: some watched row is
    /// frozen or waits to be read back.
    pub fn needs_repaint(&self) -> (r: bool)
        ensures
            r == exists|i: int|
                0 <= i < self.spec_watched().len() && keeps_redrawing(#[trigger] self.spec_watched()[i]),
    {
        let n = self.watched_rows.len();
        let mut i: usize = 0;
        while i < n
            invariant
                i <= n == self.watched_rows@.len(),
                forall|j: int| 0 <= j < i ==> !keeps_redrawing(#[trigger] self.watched_rows@[j]),
            decreases n - i,
        {
            if self.watched_rows[i].is_frozen || self.watched_rows[i].verify_after_at.is_some() {
                assert(keeps_redrawing(self.spec_watched()[i as int]));
                return true;
            }
            i += 1;
        }
        false
    }

    /// Applies one message of the background scan: the counts it reports,
    /// a row found, or the end of the scan, which is logged.
    pub fn apply_scan_message(&mut self, msg: ScanMessage, console: &mut Console)
        ensures
            final(self).spec_pid() == old(self).spec_pid(),
            final(self).spec_handle() == old(self).spec_handle(),
            final(self).spec_watched() == old(self).spec_watched(),
            final(self).spec_scan().input_value == old(self).spec_scan().input_value,
            final(self).spec_scan().selected_value_type == old(self).spec_scan().selected_value_type,
            final(self).spec_scan().scan_results_count == old(self).spec_scan().scan_results_count,
            final(self).spec_scan().scan_results_count_input == old(self).spec_scan().scan_results_count_input,
            final(console).spec_is_active() == old(console).spec_is_active(),
            final(console).spec_pinned() == old(console).spec_pinned(),
            final(console).spec_jump_requested() == old(console).spec_jump_requested(),
            match msg {
                ScanMessage::Started { total_regions } => {
                    &&& final(self).spec_async() == AsyncProcessScan { total_regions, ..old(self).spec_async() }
                    &&& final(self).spec_scan() == old(self).spec_scan()
                    &&& final(console).messages() == old(console).messages()
                },
                ScanMessage::Progress { scanned_regions, found } => {
                    &&& final(self).spec_async() == AsyncProcessScan {
                        scanned_regions,
                        total_found: found,
                        ..old(self).spec_async()
                    }
                    &&& final(self).spec_scan() == old(self).spec_scan()
                    &&& final(console).messages() == old(console).messages()
                },
                ScanMessage::Found(row) => {
                    &&& final(self).spec_async() == old(self).spec_async()
                    &&& final(self).spec_scan().results@ == old(self).spec_scan().results@.push(row)
                    &&& final(self).spec_scan().has_scan_session == old(self).spec_scan().has_scan_session
                    &&& final(console).messages() == old(console).messages()
                },
                ScanMessage::Done { found } => {
                    &&& final(self).spec_async() == AsyncProcessScan {
                        is_running: false,
                        total_found: found,
                        ..old(self).spec_async()
                    }
                    &&& final(self).spec_scan().results == old(self).spec_scan().results
                    &&& final(self).spec_scan().has_scan_session
                    &&& logged(
                        old(console).messages(),
                        final(console).messages(),
                        "Scan finished. Found "@ + text::decimal_digits(found as nat) + " matches"@,
                        EMessageType::Log,
                    )
                },
                ScanMessage::Error(err) => {
                    &&& final(self).spec_async() == AsyncProcessScan {
                        is_running: false,
                        ..old(self).spec_async()
                    }
                    &&& final(self).spec_scan() == old(self).spec_scan()
                    &&& logged(old(console).messages(), final(console).messages(), err@, EMessageType::Error)
                },
            },
    {
        match msg {
            ScanMessage::Started { total_regions } => {
                self.async_scan_state.total_regions = total_regions;
            },
            ScanMessage::Progress { scanned_regions, found } => {
                self.async_scan_state.scanned_regions = scanned_regions;
                self.async_scan_state.total_found = found;
            },
            ScanMessage::Found(row) => {
                self.scan.results.push(row);
            },
            ScanMessage::Done { found } => {
                self.async_scan_state.is_running = false;
                self.async_scan_state.total_found = found;
                self.scan.has_scan_session = true;
                let mut s = text::string_of("Scan finished. Found ");
                text::push_decimal_usize(&mut s, found);
                text::push_str(&mut s, " matches");
                console.add_message(ConsoleRow::new(s, EMessageType::Log));
            },
            ScanMessage::Error(err) => {
                self.async_scan_state.is_running = false;
                console.add_message(ConsoleRow::new(err, EMessageType::Error));
            },
        }
    }
}

/// Whether two byte strings are equal.
pub fn bytes_equal(a: &[u8], b: &[u8]) -> (r: bool)
    ensures
        r == (a@ == b@),
{
    if a.len() != b.len() {
        return false;
    }
    let mut k: usize = 0;
    while k < a.len()
        invariant
            k <= a@.len() == b@.len(),
            forall|j: int| 0 <= j < k ==> a@[j] == b@[j],
        decreases a@.len() - k,
    {
        if a[k] != b[k] {
            return false;
        }
        k += 1;
    }
    assert(a@ == b@);
    true
}

} // verus!
