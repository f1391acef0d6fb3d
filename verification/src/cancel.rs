use vstd::prelude::*;
use std::sync::Arc;
use std::sync::atomic::{AtomicBool, Ordering};

use crate::error::ArcaError;
use crate::progress::{CoreProgress, CoreProgressPhase};

verus! {

/// `Arc::clone` from std: another pointer to the same allocation, so the
/// clone stands for the same value.
#[verifier::external_body]
fn share<T>(shared: &Arc<T>) -> (r: Arc<T>)
    ensures
        r == *shared,
{
    Arc::clone(shared)
}

/// A flag that one party raises and others read, shared by every clone.
///
/// What a read returns depends on what other clones did before it, so no
/// contract here states the value a read gives.
#[derive(Debug)]
pub struct CancellationToken {
    canceled: Arc<AtomicBool>,
}

impl Clone for CancellationToken {
    /// A token sharing this one's flag.
    fn clone(&self) -> (r: Self)
        ensures
            r == *self,
    {
        CancellationToken { canceled: share(&self.canceled) }
    }
}

/// What a cancellation check gives for a reading of the flag: `Canceled`
/// exactly when it was raised.
pub fn cancellation_result(canceled: bool) -> (r: Result<(), ArcaError>)
    ensures
        r is Err <==> canceled,
        r matches Err(e) ==> (e matches ArcaError::Canceled(m) && m@ == "operation was canceled"@),
{
    if canceled {
        return Err(ArcaError::Canceled("operation was canceled".to_owned()));
    }
    Ok(())
}

/// A flag raised by one clone and read by all; no contract states what a read
/// gives, since other clones may raise it at any time.
#[derive(Debug)]
pub struct SharedFlag {
    raised: Arc<AtomicBool>,
}

impl Clone for SharedFlag {
    /// A handle on the same flag.
    fn clone(&self) -> (r: Self)
        ensures
            r == *self,
    {
        SharedFlag { raised: share(&self.raised) }
    }
}

impl SharedFlag {
    /// A flag that is not raised.
    pub fn new() -> (r: SharedFlag) {
        SharedFlag { raised: Arc::new(AtomicBool::new(false)) }
    }

    /// Raises the flag for every handle.
    pub fn raise(&self) {
        self.raised.store(true, Ordering::SeqCst);
    }

    /// Whether some handle raised the flag.
    pub fn is_raised(&self) -> (r: bool) {
        self.raised.load(Ordering::SeqCst)
    }
}

impl CancellationToken {
    /// A token that has not been canceled.
    pub fn new() -> (r: CancellationToken) {
        CancellationToken { canceled: Arc::new(AtomicBool::new(false)) }
    }

    /// Raises the flag for this token and all its clones.
    pub fn cancel(&self) {
        self.canceled.store(true, Ordering::SeqCst);
    }

    /// Whether the flag has been raised on this token or one of its clones.
    pub fn is_canceled(&self) -> (r: bool) {
        self.canceled.load(Ordering::SeqCst)
    }

    /// `Canceled` once the flag is raised, `Ok` before. The flag is read from
    /// memory other clones write to, so which of the two comes is not stated
    /// here; `cancellation_result` states what each reading gives.
    pub fn check(&self) -> (r: Result<(), ArcaError>)
        ensures
            r matches Err(e) ==> (e matches ArcaError::Canceled(m) && m@ == "operation was canceled"@),
    {
        cancellation_result(self.is_canceled())
    }
}

/// Where a running operation reports its progress: a callback shared by
/// every clone of the sink. It is called synchronously, on the thread that
/// reports.
#[derive(Debug)]
pub struct ProgressSink<F: Fn(CoreProgress) + Send + Sync> {
    handler: Arc<F>,
}

impl<F: Fn(CoreProgress) + Send + Sync> ProgressSink<F> {
    /// The callback may be called with any report.
    #[verifier::type_invariant]
    spec fn accepts_every_report(self) -> bool {
        forall|p: CoreProgress| call_requires(*self.handler, (p,))
    }

    /// The callback of this sink.
    pub closed spec fn handler_view(&self) -> F {
        *self.handler
    }

    /// A sink calling `handler` with each report.
    pub fn new(handler: F) -> (r: ProgressSink<F>)
        requires
            forall|p: CoreProgress| call_requires(handler, (p,)),
        ensures
            r.handler_view() == handler,
    {
        ProgressSink { handler: Arc::new(handler) }
    }

    /// Hands a report to the callback.
    pub fn emit(&self, progress: CoreProgress)
        ensures
            call_ensures(self.handler_view(), (progress,), ()),
    {
        proof {
            use_type_invariant(self);
        }
        let handler = &*self.handler;
        handler(progress)
    }
}

impl<F: Fn(CoreProgress) + Send + Sync> Clone for ProgressSink<F> {
    /// A sink sharing this one's callback.
    fn clone(&self) -> (r: Self)
        ensures
            r.handler_view() == self.handler_view(),
    {
        proof {
            use_type_invariant(self);
        }
        ProgressSink { handler: share(&self.handler) }
    }
}

/// What a running operation needs from the one that started it: a way to
/// learn that it should stop, and, when one was given, a sink for its
/// progress reports.
#[derive(Debug)]
pub struct OperationContext<F: Fn(CoreProgress) + Send + Sync> {
    cancellation: CancellationToken,
    progress: Option<ProgressSink<F>>,
}

impl<F: Fn(CoreProgress) + Send + Sync> Clone for OperationContext<F> {
    /// A context observing the same token and reporting to the same sink.
    fn clone(&self) -> (r: Self)
        ensures
            r.cancellation_view() == self.cancellation_view(),
            r.progress_view() is Some <==> self.progress_view() is Some,
            r.progress_view() matches Some(s) ==> s.handler_view() == self.progress_view()->0.handler_view(),
    {
        let progress = match &self.progress {
            Some(sink) => Some(sink.clone()),
            None => None,
        };
        OperationContext { cancellation: self.cancellation.clone(), progress }
    }
}

impl<F: Fn(CoreProgress) + Send + Sync> OperationContext<F> {
    /// A context that observes the given token and reports nowhere.
    pub fn new(cancellation: CancellationToken) -> (r: OperationContext<F>)
        ensures
            r.cancellation_view() == cancellation,
            r.progress_view() is None,
    {
        OperationContext { cancellation, progress: None }
    }

    /// The token this context observes.
    pub closed spec fn cancellation_view(&self) -> CancellationToken {
        self.cancellation
    }

    /// The sink this context reports to, if any.
    pub closed spec fn progress_view(&self) -> Option<ProgressSink<F>> {
        self.progress
    }

    /// The same context, reporting to `progress`.
    pub fn with_progress_sink(self, progress: ProgressSink<F>) -> (r: OperationContext<F>)
        ensures
            r.cancellation_view() == self.cancellation_view(),
            r.progress_view() == Some(progress),
    {
        OperationContext { cancellation: self.cancellation, progress: Some(progress) }
    }

    /// A clone of the token this context observes.
    pub fn cancellation(&self) -> (r: CancellationToken)
        ensures
            r == self.cancellation_view(),
    {
        self.cancellation.clone()
    }

    /// `Canceled` once the observed token is canceled.
    pub fn check_cancelled(&self) -> (r: Result<(), ArcaError>)
        ensures
            r matches Err(e) ==> (e matches ArcaError::Canceled(m) && m@ == "operation was canceled"@),
    {
        self.cancellation.check()
    }

    /// Reports a phase and message without counts to the sink, if there is one.
    pub fn progress(&self, phase: CoreProgressPhase, message: &str)
        ensures
            self.progress_view() matches Some(sink) ==> exists|p: CoreProgress|
                #![trigger call_ensures(sink.handler_view(), (p,), ())]
                p.phase == phase && p.message@ == message@ && p.processed is None && p.total is None && call_ensures(
                    sink.handler_view(),
                    (p,),
                    (),
                ),
    {
        if let Some(sink) = &self.progress {
            let report = CoreProgress::new(phase, message.to_owned());
            sink.emit(report);
        }
    }

    /// Reports a phase and message with a processed count and an optional
    /// total to the sink, if there is one.
    pub fn progress_counts(&self, phase: CoreProgressPhase, message: &str, processed: u64, total: Option<u64>)
        ensures
            self.progress_view() matches Some(sink) ==> exists|p: CoreProgress|
                #![trigger call_ensures(sink.handler_view(), (p,), ())]
                p.phase == phase && p.message@ == message@ && p.processed == Some(processed) && p.total == total
                    && call_ensures(sink.handler_view(), (p,), ()),
    {
        if let Some(sink) = &self.progress {
            let report = CoreProgress::new(phase, message.to_owned()).with_counts(processed, total);
            sink.emit(report);
        }
    }
}

} // verus!
