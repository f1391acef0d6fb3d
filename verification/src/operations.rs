use vstd::prelude::*;
use std::collections::HashMap;

use crate::cancel::{CancellationToken, SharedFlag};
use crate::error::{error_text, spec_exit_code, ArcaError, ExitCode};
use crate::progress::CoreProgressPhase;
use crate::text::{concat_str, decimal_string, decimal_text, is_white_space, str_eq, white_space};

verus! {

broadcast use {vstd::std_specs::hash::group_hash_axioms, vstd::string::group_string_axioms};

// ---------------------------------------------------------------------------
// Errors reported to the editor
// ---------------------------------------------------------------------------

/// An error as the editor receives it: a short class code and a text.
#[derive(Debug, Clone)]
pub struct CommandError {
    pub code: &'static str,
    pub message: String,
}

/// The code the editor receives for each exit class.
pub open spec fn exit_code_label(code: ExitCode) -> &'static str {
    match code {
        ExitCode::Success => "success",
        ExitCode::General => "general",
        ExitCode::Usage => "usage",
        ExitCode::Unsupported => "unsupported",
        ExitCode::Security => "security",
        ExitCode::Password => "password",
        ExitCode::Integrity => "integrity",
        ExitCode::Interrupted => "interrupted",
    }
}

impl CommandError {
    /// A `usage` error.
    pub fn usage(message: String) -> (r: CommandError)
        ensures
            r.code == "usage",
            r.message == message,
    {
        CommandError { code: "usage", message }
    }

    /// An `internal` error.
    pub fn internal(message: String) -> (r: CommandError)
        ensures
            r.code == "internal",
            r.message == message,
    {
        CommandError { code: "internal", message }
    }

    /// An `unsupported` error.
    pub fn unsupported(message: String) -> (r: CommandError)
        ensures
            r.code == "unsupported",
            r.message == message,
    {
        CommandError { code: "unsupported", message }
    }

    /// An `interrupted` error.
    pub fn interrupted(message: String) -> (r: CommandError)
        ensures
            r.code == "interrupted",
            r.message == message,
    {
        CommandError { code: "interrupted", message }
    }

    /// An error of the core library as the editor receives it: the code of its
    /// exit class and its text.
    pub fn from_error(error: &ArcaError) -> (r: CommandError)
        ensures
            r.code == exit_code_label(spec_exit_code(*error)),
            r.message@ == error_text(*error),
    {
        let code = match ExitCode::from_error(error) {
            ExitCode::Success => "success",
            ExitCode::General => "general",
            ExitCode::Usage => "usage",
            ExitCode::Unsupported => "unsupported",
            ExitCode::Security => "security",
            ExitCode::Password => "password",
            ExitCode::Integrity => "integrity",
            ExitCode::Interrupted => "interrupted",
        };
        CommandError { code, message: error.message() }
    }
}

// ---------------------------------------------------------------------------
// Operation labels
// ---------------------------------------------------------------------------

/// The label an operation is shown with: the given one, or `Archive operation`
/// when it holds nothing but white space.
pub fn operation_label(label: String) -> (r: String)
    ensures
        (forall|i: int| 0 <= i < label@.len() ==> is_white_space(#[trigger] label@[i])) ==> r@ == "Archive operation"@,
        !(forall|i: int| 0 <= i < label@.len() ==> is_white_space(#[trigger] label@[i])) ==> r == label,
{
    let mut blank = true;
    for c in it: label.as_str().chars()
        invariant
            it.seq() == label@,
            blank <==> forall|i: int| 0 <= i < it.index() ==> is_white_space(#[trigger] label@[i]),
    {
        if !white_space(c) {
            blank = false;
        }
    }
    if blank {
        "Archive operation".to_owned()
    } else {
        label
    }
}

// ---------------------------------------------------------------------------
// The registry of operations
// ---------------------------------------------------------------------------

/// An operation the editor started: its label, its cancellation, whether a
/// worker took it up, and whether it is publishing its results.
#[derive(Debug)]
pub struct OperationRecord {
    pub label: String,
    pub cancellation: CancellationToken,
    pub claimed: bool,
    pub committing: SharedFlag,
}

impl Clone for OperationRecord {
    fn clone(&self) -> (r: Self)
        ensures
            r == *self,
    {
        OperationRecord {
            label: self.label.clone(),
            cancellation: self.cancellation.clone(),
            claimed: self.claimed,
            committing: self.committing.clone(),
        }
    }
}

/// An operation looked up by its id.
#[derive(Debug)]
pub struct ActiveOperation {
    pub id: u64,
    pub record: OperationRecord,
}

impl Clone for ActiveOperation {
    fn clone(&self) -> (r: Self)
        ensures
            r == *self,
    {
        ActiveOperation { id: self.id, record: self.record.clone() }
    }
}

impl ActiveOperation {
    /// Whether someone asked this operation to stop.
    pub fn cancel_requested(&self) -> (r: bool) {
        self.record.cancellation.is_canceled()
    }

    /// Whether this operation has begun to publish its results.
    pub fn is_committing(&self) -> (r: bool) {
        self.record.committing.is_raised()
    }
}

/// The operations the editor started and has not finished, by id, and the exit
/// status it was asked to leave with once they are done.
#[derive(Debug)]
pub struct OperationRegistry {
    next_id: u64,
    active: HashMap<u64, OperationRecord>,
    pending_exit_code: Option<i32>,
}

/// The operation is active and no worker has taken it up yet.
pub open spec fn claimable(active: Map<u64, OperationRecord>, id: u64) -> bool {
    active.contains_key(id) && !active[id].claimed
}

/// The operations after a worker takes up `id`.
pub open spec fn after_claim(active: Map<u64, OperationRecord>, id: u64) -> Map<u64, OperationRecord> {
    active.insert(id, OperationRecord { claimed: true, ..active[id] })
}

/// Some active operation has this label.
pub open spec fn is_active_label(active: Map<u64, OperationRecord>, label: String) -> bool {
    exists|id: u64| #[trigger] active.contains_key(id) && active[id].label == label
}

/// The record a fresh operation starts with.
pub open spec fn fresh_record(r: OperationRecord, label: String) -> bool {
    r.label == label && !r.claimed
}

impl OperationRegistry {
    /// The operations that are active, by id.
    pub closed spec fn active_view(&self) -> Map<u64, OperationRecord> {
        self.active@
    }

    /// The last id handed out (zero before the first).
    pub closed spec fn issued_view(&self) -> u64 {
        self.next_id
    }

    /// The exit status waiting for the operations to finish.
    pub closed spec fn pending_exit_view(&self) -> Option<i32> {
        self.pending_exit_code
    }

    /// Every active id was handed out, and ids start at one.
    pub closed spec fn wf(&self) -> bool {
        forall|id: u64| #[trigger] self.active@.contains_key(id) ==> 1 <= id <= self.next_id
    }

    /// An empty registry.
    pub fn new() -> (r: OperationRegistry)
        ensures
            r.wf(),
            r.active_view() == Map::<u64, OperationRecord>::empty(),
            r.issued_view() == 0,
            r.pending_exit_view() is None,
    {
        OperationRegistry { next_id: 0, active: HashMap::new(), pending_exit_code: None }
    }

    /// The last id handed out (zero before the first).
    pub fn issued(&self) -> (r: u64)
        ensures
            r == self.issued_view(),
    {
        self.next_id
    }

    /// Registers a new operation under the next id and returns the id.
    pub fn begin(&mut self, label: String) -> (r: Result<u64, CommandError>)
        requires
            old(self).wf(),
            old(self).issued_view() < u64::MAX,
        ensures
            final(self).wf(),
            r matches Ok(id) && id == old(self).issued_view() + 1 && final(self).issued_view() == id
                && !old(self).active_view().contains_key(id)
                && final(self).active_view().dom() == old(self).active_view().dom().insert(id)
                && fresh_record(final(self).active_view()[id], label)
                && forall|k: u64| #[trigger] old(self).active_view().contains_key(k) ==> final(self).active_view()[k] == old(self).active_view()[k],
            final(self).pending_exit_view() == old(self).pending_exit_view(),
    {
        self.next_id = self.next_id + 1;
        let id = self.next_id;
        let record = OperationRecord {
            label,
            cancellation: CancellationToken::new(),
            claimed: false,
            committing: SharedFlag::new(),
        };
        self.active.insert(id, record);
        proof {
            assert(self.active@.dom() =~= old(self).active@.dom().insert(id));
        }
        Ok(id)
    }

    /// The operation with the given id; `usage` when it is no longer active.
    pub fn active(&self, id: u64) -> (r: Result<ActiveOperation, CommandError>)
        ensures
            r is Ok <==> self.active_view().contains_key(id),
            r matches Ok(op) ==> op.id == id && op.record == self.active_view()[id],
            r matches Err(e) ==> e.code == "usage" && e.message@ == "operation is no longer active"@,
    {
        match self.active.get(&id) {
            Some(record) => Ok(ActiveOperation { id, record: record.clone() }),
            None => Err(CommandError::usage("operation is no longer active".to_owned())),
        }
    }

    /// Hands the operation to the worker that runs it, once: `usage` when it is
    /// no longer active or another worker already took it.
    pub fn claim(&mut self, id: u64) -> (r: Result<ActiveOperation, CommandError>)
        requires
            old(self).wf(),
        ensures
            final(self).wf(),
            r is Ok <==> claimable(old(self).active_view(), id),
            r matches Ok(op) ==> op.id == id && op.record == final(self).active_view()[id]
                && final(self).active_view() == after_claim(old(self).active_view(), id),
            r is Err ==> final(self).active_view() == old(self).active_view(),
            r matches Err(e) ==> e.code == "usage" && (!old(self).active_view().contains_key(id) ==> e.message@
                == "operation is no longer active"@) && (old(self).active_view().contains_key(id)
                ==> e.message@ == "operation is already running"@),
            final(self).issued_view() == old(self).issued_view(),
            final(self).pending_exit_view() == old(self).pending_exit_view(),
    {
        match self.active.remove(&id) {
            None => Err(CommandError::usage("operation is no longer active".to_owned())),
            Some(record) => {
                if record.claimed {
                    self.active.insert(id, record);
                    proof {
                        assert(self.active@ =~= old(self).active@);
                    }
                    return Err(CommandError::usage("operation is already running".to_owned()));
                }
                let claimed = OperationRecord { claimed: true, ..record };
                let operation = ActiveOperation { id, record: claimed.clone() };
                self.active.insert(id, claimed);
                proof {
                    assert(self.active@ =~= after_claim(old(self).active@, id));
                }
                Ok(operation)
            },
        }
    }

    /// Drops an operation no worker took up and returns its record; `None`,
    /// changing nothing, when it is not active or already claimed.
    pub fn discard_unclaimed(&mut self, id: u64) -> (r: Result<Option<OperationRecord>, CommandError>)
        requires
            old(self).wf(),
        ensures
            final(self).wf(),
            r is Ok,
            r matches Ok(Some(record)) ==> claimable(old(self).active_view(), id) && record == old(self).active_view()[id]
                && final(self).active_view() == old(self).active_view().remove(id),
            r matches Ok(None) ==> !claimable(old(self).active_view(), id) && final(self).active_view() == old(self).active_view(),
            final(self).issued_view() == old(self).issued_view(),
            final(self).pending_exit_view() == old(self).pending_exit_view(),
    {
        match self.active.remove(&id) {
            None => Ok(None),
            Some(record) => {
                if record.claimed {
                    self.active.insert(id, record);
                    proof {
                        assert(self.active@ =~= old(self).active@);
                    }
                    return Ok(None);
                }
                Ok(Some(record))
            },
        }
    }

    /// Drops an operation and returns its record, if it was active.
    pub fn finish(&mut self, id: u64) -> (r: Result<Option<OperationRecord>, CommandError>)
        requires
            old(self).wf(),
        ensures
            final(self).wf(),
            r is Ok,
            r matches Ok(Some(record)) ==> old(self).active_view().contains_key(id) && record == old(self).active_view()[id],
            r matches Ok(None) ==> !old(self).active_view().contains_key(id),
            final(self).active_view() == old(self).active_view().remove(id),
            final(self).issued_view() == old(self).issued_view(),
            final(self).pending_exit_view() == old(self).pending_exit_view(),
    {
        let record = self.active.remove(&id);
        proof {
            assert(self.active@ =~= old(self).active@.remove(id));
        }
        Ok(record)
    }

    /// Asks an active operation to stop; `usage` when it is not active or is
    /// already publishing its results.
    pub fn request_cancel(&self, id: u64) -> (r: Result<ActiveOperation, CommandError>)
        ensures
            r is Err <== !self.active_view().contains_key(id),
            r matches Ok(op) ==> op.id == id && op.record == self.active_view()[id],
            r matches Err(e) ==> e.code == "usage" && (!self.active_view().contains_key(id) ==> e.message@
                == "operation is no longer active"@) && (self.active_view().contains_key(id) ==> e.message@
                == "operation is committing and cannot be canceled"@),
    {
        let operation = self.active(id)?;
        if operation.is_committing() {
            return Err(CommandError::usage("operation is committing and cannot be canceled".to_owned()));
        }
        operation.record.cancellation.cancel();
        Ok(operation)
    }

    /// The labels of the active operations that are publishing their results,
    /// in no particular order.
    pub fn committing_labels(&self) -> (r: Result<Vec<String>, CommandError>)
        ensures
            r matches Ok(labels) ==> labels@.len() <= self.active_view().len() && forall|i: int| 0 <= i < labels@.len()
                ==> is_active_label(self.active_view(), #[trigger] labels@[i]),
            r is Ok,
    {
        let mut labels: Vec<String> = Vec::new();
        for record in it: self.active.values()
            invariant
                it.seq().unref().to_set() == self.active@.values(),
                it.seq().len() == self.active@.dom().len(),
                labels@.len() <= it.index(),
                forall|i: int| 0 <= i < labels@.len() ==> is_active_label(self.active@, #[trigger] labels@[i]),
        {
            if record.committing.is_raised() {
                proof {
                    let v = *it.seq()[it.index() as int];
                    assert(it.seq().unref()[it.index() as int] == v);
                    assert(self.active@.values().contains(v));
                }
                labels.push(record.label.clone());
            }
        }
        Ok(labels)
    }

    /// Records the exit status to leave with once no operation is active
    /// (zero when none was given).
    pub fn defer_exit(&mut self, code: Option<i32>) -> (r: Result<(), CommandError>)
        requires
            old(self).wf(),
        ensures
            final(self).wf(),
            r is Ok,
            final(self).pending_exit_view() == Some(match code {
                Some(c) => c,
                None => 0i32,
            }),
            final(self).active_view() == old(self).active_view(),
            final(self).issued_view() == old(self).issued_view(),
    {
        self.pending_exit_code = Some(
            match code {
                Some(c) => c,
                None => 0,
            },
        );
        Ok(())
    }

    /// Takes the deferred exit status once no operation is active; `None`,
    /// changing nothing, while some are.
    pub fn take_deferred_exit_if_idle(&mut self) -> (r: Result<Option<i32>, CommandError>)
        requires
            old(self).wf(),
        ensures
            final(self).wf(),
            r is Ok,
            !old(self).active_view().is_empty() ==> r == Ok::<Option<i32>, CommandError>(None) && final(self).pending_exit_view()
                == old(self).pending_exit_view(),
            old(self).active_view().is_empty() ==> r == Ok::<Option<i32>, CommandError>(old(self).pending_exit_view())
                && final(self).pending_exit_view() is None,
            final(self).active_view() == old(self).active_view(),
            final(self).issued_view() == old(self).issued_view(),
    {
        if !self.active.is_empty() {
            return Ok(None);
        }
        Ok(self.pending_exit_code.take())
    }
}

impl OperationRegistry {
    /// Answers a request to close a window (`exit_code` is `None`) or to quit
    /// with an exit status: `None` lets it go ahead; while some operation is
    /// publishing its results it is blocked, and the notice to show is
    /// returned, a quit being remembered to happen once all are done.
    /// Which operations are publishing is read from flags other threads set,
    /// so which answer comes is not stated; what each answer changes is.
    pub fn close_request(&mut self, exit_code: Option<Option<i32>>) -> (r: Option<String>)
        requires
            old(self).wf(),
        ensures
            final(self).wf(),
            final(self).active_view() == old(self).active_view(),
            final(self).issued_view() == old(self).issued_view(),
            old(self).active_view().is_empty() ==> r is None,
            r is None || exit_code is None ==> final(self).pending_exit_view() == old(self).pending_exit_view(),
            r is Some ==> match exit_code {
                Some(code) => final(self).pending_exit_view() == Some(
                    match code {
                        Some(c) => c,
                        None => 0i32,
                    },
                ),
                None => true,
            },
            r matches Some(notice) ==> exists|labels: Seq<String>|
                #![trigger blocked_notice(labels, exit_code is Some)]
                1 <= labels.len() <= old(self).active_view().len() && (forall|i: int| 0 <= i < labels.len()
                    ==> is_active_label(old(self).active_view(), #[trigger] labels[i])) && notice@ == blocked_notice(
                    labels,
                    exit_code is Some,
                ),
    {
        let labels = match self.committing_labels() {
            Ok(labels) => labels,
            Err(_) => {
                let mut fallback: Vec<String> = Vec::new();
                fallback.push("Archive operation".to_owned());
                fallback
            },
        };
        self.answer_close_request(&labels, exit_code)
    }

    /// Answers a close or quit request given the labels of the operations
    /// that are publishing their results: with none it goes ahead (`None`);
    /// otherwise it is blocked with the notice naming them, and a quit is
    /// remembered with its status (0 when none was given).
    pub fn answer_close_request(&mut self, labels: &Vec<String>, exit_code: Option<Option<i32>>) -> (r: Option<
        String,
    >)
        requires
            old(self).wf(),
        ensures
            final(self).wf(),
            final(self).active_view() == old(self).active_view(),
            final(self).issued_view() == old(self).issued_view(),
            r is None <==> labels@.len() == 0,
            r matches Some(notice) ==> notice@ == blocked_notice(labels@, exit_code is Some),
            final(self).pending_exit_view() == (if labels@.len() > 0 && exit_code is Some {
                Some(
                    match exit_code->0 {
                        Some(c) => c,
                        None => 0i32,
                    },
                )
            } else {
                old(self).pending_exit_view()
            }),
    {
        if labels.len() == 0 {
            return None;
        }
        let exit_requested = match exit_code {
            Some(code) => {
                let _ = self.defer_exit(code);
                true
            },
            None => false,
        };
        let notice = close_blocked_message(labels, exit_requested);
        Some(notice)
    }
}

impl Default for OperationRegistry {
    fn default() -> (r: Self)
        ensures
            r.wf(),
            r.active_view() == Map::<u64, OperationRecord>::empty(),
            r.issued_view() == 0,
            r.pending_exit_view() is None,
    {
        OperationRegistry::new()
    }
}

// ---------------------------------------------------------------------------
// What the editor is told about an operation
// ---------------------------------------------------------------------------

/// The phase of an operation as the editor shows it.
#[derive(Clone, Copy, Debug, PartialEq, Eq, Structural)]
pub enum OperationPhase {
    Started,
    Running,
    Scanning,
    Reading,
    Writing,
    Testing,
    Extracting,
    Committing,
    CancelRequested,
    Finished,
    Failed,
    Canceled,
}

/// The editor phase of a core progress phase.
pub open spec fn spec_operation_phase(phase: CoreProgressPhase) -> OperationPhase {
    match phase {
        CoreProgressPhase::Starting => OperationPhase::Running,
        CoreProgressPhase::Scanning => OperationPhase::Scanning,
        CoreProgressPhase::Reading => OperationPhase::Reading,
        CoreProgressPhase::Writing => OperationPhase::Writing,
        CoreProgressPhase::Testing => OperationPhase::Testing,
        CoreProgressPhase::Extracting => OperationPhase::Extracting,
        CoreProgressPhase::Committing => OperationPhase::Committing,
        CoreProgressPhase::Finished => OperationPhase::Finished,
    }
}

/// The editor phase a core progress report is shown in.
pub fn operation_phase(phase: CoreProgressPhase) -> (r: OperationPhase)
    ensures
        r == spec_operation_phase(phase),
{
    match phase {
        CoreProgressPhase::Starting => OperationPhase::Running,
        CoreProgressPhase::Scanning => OperationPhase::Scanning,
        CoreProgressPhase::Reading => OperationPhase::Reading,
        CoreProgressPhase::Writing => OperationPhase::Writing,
        CoreProgressPhase::Testing => OperationPhase::Testing,
        CoreProgressPhase::Extracting => OperationPhase::Extracting,
        CoreProgressPhase::Committing => OperationPhase::Committing,
        CoreProgressPhase::Finished => OperationPhase::Finished,
    }
}

/// The phase a finished operation ends in: `Finished` on success, `Canceled`
/// for an interruption after a cancel request, `Failed` otherwise.
pub fn finished_phase(result: &Result<(), CommandError>, cancel_requested: bool) -> (r: OperationPhase)
    ensures
        result is Ok ==> r == OperationPhase::Finished,
        result matches Err(e) ==> (r == OperationPhase::Canceled <==> cancel_requested && e.code@ == "interrupted"@),
        result matches Err(e) ==> (r == OperationPhase::Failed <==> !(cancel_requested && e.code@ == "interrupted"@)),
{
    match result {
        Ok(()) => OperationPhase::Finished,
        Err(error) => {
            if cancel_requested && str_eq(error.code, "interrupted") {
                OperationPhase::Canceled
            } else {
                OperationPhase::Failed
            }
        },
    }
}

/// The message shown with a finished operation's last phase.
pub fn finished_message(phase: OperationPhase) -> (r: &'static str)
    ensures
        phase == OperationPhase::Canceled ==> r == "Operation canceled",
        phase == OperationPhase::Failed ==> r == "Operation failed",
        phase != OperationPhase::Canceled && phase != OperationPhase::Failed ==> r == "Operation finished",
{
    match phase {
        OperationPhase::Canceled => "Operation canceled",
        OperationPhase::Failed => "Operation failed",
        _ => "Operation finished",
    }
}

/// How a worker's start on an operation turned out.
#[derive(Debug)]
pub enum TrackedStart {
    /// The work was not tied to an operation of the editor.
    Untracked,
    /// The worker claimed the operation and runs it.
    Running(ActiveOperation),
    /// The operation had been canceled before it started; it is finished.
    CanceledBeforeStart(ActiveOperation),
}

impl OperationRegistry {
    /// Starts the work on an operation, if one is given: claims it, and
    /// finishes it at once if a cancel was requested before the start.
    pub fn begin_tracked(&mut self, operation_id: Option<u64>) -> (r: Result<TrackedStart, CommandError>)
        requires
            old(self).wf(),
        ensures
            final(self).wf(),
            operation_id is None ==> (r matches Ok(TrackedStart::Untracked) && final(self).active_view() == old(self).active_view()),
            operation_id matches Some(id) ==> (r is Ok <==> claimable(old(self).active_view(), id)),
            operation_id matches Some(id) ==> (r matches Ok(TrackedStart::Running(op)) ==> op.id == id
                && final(self).active_view() == after_claim(old(self).active_view(), id) && op.record == final(self).active_view()[id]),
            operation_id matches Some(id) ==> (r matches Ok(TrackedStart::CanceledBeforeStart(op)) ==> op.id == id
                && op.record == after_claim(old(self).active_view(), id)[id]
                && final(self).active_view() == after_claim(old(self).active_view(), id).remove(id)),
            r is Err ==> final(self).active_view() == old(self).active_view(),
            r matches Err(e) ==> e.code == "usage",
            final(self).issued_view() == old(self).issued_view(),
            final(self).pending_exit_view() == old(self).pending_exit_view(),
    {
        match operation_id {
            None => Ok(TrackedStart::Untracked),
            Some(id) => {
                let operation = self.claim(id)?;
                if operation.cancel_requested() {
                    let _ = self.finish(operation.id);
                    return Ok(TrackedStart::CanceledBeforeStart(operation));
                }
                Ok(TrackedStart::Running(operation))
            },
        }
    }

    /// The next id `begin` hands out is not in use.
    pub proof fn law_next_id_fresh(&self)
        requires
            self.wf(),
            self.issued_view() < u64::MAX,
        ensures
            !self.active_view().contains_key((self.issued_view() + 1) as u64),
    {
    }
}

/// The notice shown when closing is blocked by the operations with these
/// labels: the one label or the count, then what will happen.
pub open spec fn blocked_notice(labels: Seq<String>, app_exit_requested: bool) -> Seq<char> {
    let action = if app_exit_requested {
        "Arca will exit after it finishes."@
    } else {
        "Close Arca after it finishes."@
    };
    if labels.len() == 1 {
        labels[0]@ + " is finishing changes. "@ + action
    } else {
        decimal_text(labels.len()) + " operations are finishing changes. "@ + action
    }
}

/// The notice shown when closing is blocked by operations that are
/// publishing their results.
pub fn close_blocked_message(labels: &Vec<String>, app_exit_requested: bool) -> (r: String)
    ensures
        r@ == blocked_notice(labels@, app_exit_requested),
{
    let action = if app_exit_requested {
        "Arca will exit after it finishes."
    } else {
        "Close Arca after it finishes."
    };
    if labels.len() == 1 {
        let head = concat_str(labels[0].as_str(), " is finishing changes. ");
        concat_str(head.as_str(), action)
    } else {
        let count = decimal_string(labels.len() as u64);
        let head = concat_str(count.as_str(), " operations are finishing changes. ");
        concat_str(head.as_str(), action)
    }
}

// ---------------------------------------------------------------------------
// Laws of the registry
// ---------------------------------------------------------------------------

/// An operation can be taken up by a worker only once: after a successful
/// claim, claiming it again is refused.
pub proof fn law_claim_only_once(active: Map<u64, OperationRecord>, id: u64)
    requires
        claimable(active, id),
    ensures
        !claimable(after_claim(active, id), id),
        after_claim(active, id).contains_key(id),
{
}

/// Claiming keeps the operation's cancellation: a cancel requested while it
/// was queued is seen by the worker that claims it.
pub proof fn law_claim_keeps_cancellation(active: Map<u64, OperationRecord>, id: u64)
    requires
        claimable(active, id),
    ensures
        after_claim(active, id)[id].cancellation == active[id].cancellation,
        after_claim(active, id)[id].label == active[id].label,
{
}

/// A finished operation is gone: looking it up, claiming it or discarding it
/// finds nothing.
pub proof fn law_finished_is_stale(active: Map<u64, OperationRecord>, id: u64)
    ensures
        !active.remove(id).contains_key(id),
        !claimable(active.remove(id), id),
{
}

/// Claiming only marks the claimed operation; every other one is untouched.
pub proof fn law_claim_touches_one(active: Map<u64, OperationRecord>, id: u64, other: u64)
    requires
        claimable(active, id),
        other != id,
    ensures
        after_claim(active, id).contains_key(other) == active.contains_key(other),
        active.contains_key(other) ==> after_claim(active, id)[other] == active[other],
        after_claim(active, id).dom() == active.dom(),
{
    assert(after_claim(active, id).dom() =~= active.dom());
}

} // verus!

