use vstd::prelude::*;

use crate::error::{error_detail, ArcaError};
use crate::text::{concat_decimal, concat_str, decimal_text};

verus! {

broadcast use vstd::string::group_string_axioms;

/// The stage an operation reports itself in.
#[derive(Clone, Copy, Debug, PartialEq, Eq, Structural)]
pub enum CoreProgressPhase {
    Starting,
    Scanning,
    Reading,
    Writing,
    Testing,
    Extracting,
    Committing,
    Finished,
}

/// One progress report of a running operation.
#[derive(Clone, Debug)]
pub struct CoreProgress {
    pub phase: CoreProgressPhase,
    pub message: String,
    pub processed: Option<u64>,
    pub total: Option<u64>,
}

impl CoreProgress {
    /// A report without counts.
    pub fn new(phase: CoreProgressPhase, message: String) -> (r: CoreProgress)
        ensures
            r.phase == phase,
            r.message == message,
            r.processed is None,
            r.total is None,
    {
        CoreProgress { phase, message, processed: None, total: None }
    }

    /// The same report with a processed count and an optional total.
    pub fn with_counts(self, processed: u64, total: Option<u64>) -> (r: CoreProgress)
        ensures
            r.phase == self.phase,
            r.message == self.message,
            r.processed == Some(processed),
            r.total == total,
    {
        CoreProgress { processed: Some(processed), total, ..self }
    }
}

/// Whether a progress report is worth showing: reports of the starting,
/// committing and finished phases, reports without both counts, reports with
/// a total of at most 100, and otherwise reports at zero, at or past the total,
/// or at a multiple of a hundredth of the total.
pub open spec fn spec_should_emit(phase: CoreProgressPhase, processed: Option<u64>, total: Option<u64>) -> bool {
    if phase == CoreProgressPhase::Starting || phase == CoreProgressPhase::Committing || phase
        == CoreProgressPhase::Finished {
        true
    } else if processed is None || total is None {
        true
    } else {
        let p = processed->0;
        let t = total->0;
        t <= 100 || p == 0 || p >= t || p % (t / 100) == 0
    }
}

/// Whether the editor should show a progress report (it drops most reports of
/// long operations).
pub fn should_emit_core_progress(progress: &CoreProgress) -> (r: bool)
    ensures
        r == spec_should_emit(progress.phase, progress.processed, progress.total),
{
    match progress.phase {
        CoreProgressPhase::Starting | CoreProgressPhase::Committing | CoreProgressPhase::Finished => {
            return true;
        },
        _ => {},
    }
    match (progress.processed, progress.total) {
        (Some(processed), Some(total)) => {
            if total <= 100 {
                return true;
            }
            let step = total / 100;
            processed == 0 || processed >= total || processed % step == 0
        },
        _ => true,
    }
}

/// A count of processed work items that never passes the total.
#[derive(Clone, Debug)]
pub struct SharedProgressCounter {
    processed: u64,
    total: u64,
    phase: CoreProgressPhase,
    message: &'static str,
}

/// A count after adding `amount`, stopping at the total.
pub open spec fn spec_increment(processed: u64, total: u64, amount: u64) -> u64 {
    if processed + amount > total {
        total
    } else {
        (processed + amount) as u64
    }
}

/// Progress reported through a shared counter is monotonic and bounded:
/// adding to a count that is within its total never lowers it and never
/// passes the total, whatever the amount.
pub proof fn law_progress_monotonic(processed: u64, total: u64, amount: u64)
    requires
        processed <= total,
    ensures
        processed <= spec_increment(processed, total, amount) <= total,
{
}

impl SharedProgressCounter {
    /// The count so far.
    pub closed spec fn processed_view(&self) -> u64 {
        self.processed
    }

    /// The total the count runs up to.
    pub closed spec fn total_view(&self) -> u64 {
        self.total
    }

    /// The phase the count is reported in.
    pub closed spec fn phase_view(&self) -> CoreProgressPhase {
        self.phase
    }

    /// The message the count is reported with.
    pub closed spec fn message_view(&self) -> &'static str {
        self.message
    }

    /// The count never passes the total.
    pub closed spec fn wf(&self) -> bool {
        self.processed <= self.total
    }

    /// A count at zero.
    pub fn new(phase: CoreProgressPhase, message: &'static str, total: u64) -> (r: SharedProgressCounter)
        ensures
            r.wf(),
            r.processed_view() == 0,
            r.total_view() == total,
            r.phase_view() == phase,
            r.message_view() == message,
    {
        SharedProgressCounter { processed: 0, total, phase, message }
    }

    /// Adds `amount`, stopping at the total; returns the new count.
    pub fn increment_by(&mut self, amount: u64) -> (r: u64)
        requires
            old(self).wf(),
        ensures
            final(self).wf(),
            r == final(self).processed_view(),
            r == spec_increment(old(self).processed_view(), old(self).total_view(), amount),
            final(self).total_view() == old(self).total_view(),
            final(self).phase_view() == old(self).phase_view(),
            final(self).message_view() == old(self).message_view(),
    {
        let next = self.processed.saturating_add(amount);
        self.processed = if next > self.total { self.total } else { next };
        self.processed
    }

    /// Sets the count to the total; returns it.
    pub fn finish(&mut self) -> (r: u64)
        requires
            old(self).wf(),
        ensures
            final(self).wf(),
            r == old(self).total_view(),
            final(self).processed_view() == old(self).total_view(),
            final(self).total_view() == old(self).total_view(),
            final(self).phase_view() == old(self).phase_view(),
            final(self).message_view() == old(self).message_view(),
    {
        self.processed = self.total;
        self.total
    }

    /// The report of the current count.
    pub fn report(&self) -> (r: CoreProgress)
        ensures
            r.phase == self.phase_view(),
            r.message@ == self.message_view()@,
            r.processed == Some(self.processed_view()),
            r.total == Some(self.total_view()),
    {
        CoreProgress::new(self.phase, self.message.to_owned()).with_counts(self.processed, Some(self.total))
    }
}

/// How many workers to start: at least one, and no more than there are work
/// items (counting an empty list as one item).
pub open spec fn spec_effective_jobs(jobs: usize, work_items: usize) -> usize {
    let j = if jobs < 1 { 1 } else { jobs };
    let w = if work_items < 1 { 1 } else { work_items };
    if j < w { j } else { w }
}

/// The number of workers an operation starts.
pub fn effective_jobs(jobs: usize, work_items: usize) -> (r: usize)
    ensures
        r == spec_effective_jobs(jobs, work_items),
        1 <= r,
{
    let j = if jobs < 1 { 1 } else { jobs };
    let w = if work_items < 1 { 1 } else { work_items };
    if j < w { j } else { w }
}

/// Refuses a worker count of zero (`Usage`).
pub fn validate_jobs(jobs: usize) -> (r: Result<(), ArcaError>)
    ensures
        r is Ok <==> jobs >= 1,
        r matches Err(e) ==> e is Usage && error_detail(e) == "--jobs must be at least 1"@,
{
    if jobs == 0 {
        return Err(ArcaError::Usage("--jobs must be at least 1".to_owned()));
    }
    Ok(())
}

/// The new total after copying `read` more bytes of an archive payload, or
/// `Security` when that would pass `max_bytes`.
pub fn check_payload_chunk(archive: &str, total: u64, read: u64, max_bytes: u64) -> (r: Result<u64, ArcaError>)
    ensures
        r is Ok <==> total + read <= max_bytes || read == 0,
        r matches Ok(t) ==> t == total + read,
        r matches Err(e) ==> e is Security && error_detail(e) == "archive payload size limit exceeded in "@
            + archive@ + ": > "@ + decimal_text(max_bytes as nat),
{
    let room = max_bytes.saturating_sub(total);
    if read > room {
        let head = concat_str("archive payload size limit exceeded in ", archive);
        let head = concat_str(head.as_str(), ": > ");
        return Err(ArcaError::Security(concat_decimal(head.as_str(), max_bytes)));
    }
    Ok(total + read)
}

/// The error for a failed read of an archive payload: an interrupted read
/// means the operation was canceled, anything else a damaged archive.
pub fn archive_payload_error(archive: &str, interrupted: bool, detail: &str) -> (r: ArcaError)
    ensures
        interrupted ==> r is Canceled && error_detail(r) == "operation was canceled"@,
        !interrupted ==> r is Integrity && error_detail(r) == "failed to read archive payload in "@ + archive@
            + ": "@ + detail@,
{
    if interrupted {
        return ArcaError::Canceled("operation was canceled".to_owned());
    }
    let head = concat_str("failed to read archive payload in ", archive);
    let head = concat_str(head.as_str(), ": ");
    ArcaError::Integrity(concat_str(head.as_str(), detail))
}

/// The budget of a stream that may yield at most `limit` bytes.
#[derive(Clone, Copy, Debug)]
pub struct ReadLimit {
    remaining: u64,
    limit: u64,
}

impl ReadLimit {
    /// Bytes the stream may still yield.
    pub closed spec fn remaining_view(&self) -> u64 {
        self.remaining
    }

    /// The limit the budget was made with.
    pub closed spec fn limit_view(&self) -> u64 {
        self.limit
    }

    /// A full budget of `limit` bytes.
    pub fn new(limit: u64) -> (r: ReadLimit)
        ensures
            r.remaining_view() == limit,
            r.limit_view() == limit,
    {
        ReadLimit { remaining: limit, limit }
    }

    /// The budget is spent: a further byte from the stream is an error.
    pub fn exhausted(&self) -> (r: bool)
        ensures
            r == (self.remaining_view() == 0),
    {
        self.remaining == 0
    }

    /// How much of a buffer of `buf_len` bytes the next read may fill.
    pub fn window(&self, buf_len: usize) -> (r: usize)
        ensures
            r <= buf_len,
            r as int == (if self.remaining_view() < buf_len { self.remaining_view() as int } else { buf_len as int }),
    {
        if self.remaining < buf_len as u64 {
            self.remaining as usize
        } else {
            buf_len
        }
    }

    /// Spends `read` bytes of the budget.
    pub fn consume(&mut self, read: usize)
        requires
            read <= old(self).remaining_view(),
        ensures
            final(self).remaining_view() == old(self).remaining_view() - read,
            final(self).limit_view() == old(self).limit_view(),
    {
        self.remaining = self.remaining - read as u64;
    }

    /// The text of the error for a stream that yields more than its limit.
    pub fn exceeded_message(&self) -> (r: String)
        ensures
            r@ == "archive unpacked stream size limit exceeded: "@ + decimal_text(self.limit_view() as nat),
    {
        concat_decimal("archive unpacked stream size limit exceeded: ", self.limit)
    }
}

} // verus!
