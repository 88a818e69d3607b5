//! The native resource runtime: a single-owner dispatcher for a
//! non-thread-safe capture engine. Jobs submitted from any caller are
//! serialized into one first-in-first-out queue; a single worker takes them
//! one at a time, so no two jobs' effects on the engine interleave. The
//! surrounding application supplies the worker thread and the engine handle;
//! this state machine decides every acceptance, refusal and hand-out.

use vstd::prelude::*;

verus! {

/// The runtime's failures: submission before startup or after shutdown,
/// a second startup, and a failed one-time engine initialisation.
#[derive(Clone, Copy, Debug, PartialEq, Eq, Structural)]
pub enum RuntimeError {
    RuntimeNotStarted,
    RuntimeAlreadyStarted,
    InitFailed,
    JobChannelClosed,
}

/// Where the runtime stands in its life cycle.
#[derive(Clone, Copy, Debug, PartialEq, Eq, Structural)]
pub enum RuntimePhase {
    /// `startup` has not been called.
    NotStarted,
    /// The worker is up and the one-time engine initialisation is under way.
    Starting,
    /// Initialisation succeeded; jobs are accepted.
    Running,
    /// Initialisation failed; the runtime is unusable.
    Failed,
    /// No further jobs are accepted; queued jobs may still be drained.
    ShutDown,
}

/// The runtime over jobs of type `T`. `queue` holds the accepted jobs not
/// yet handed to the worker, oldest first; the ghost `submitted` and
/// `executed` sequences record every job ever accepted and every job ever
/// handed out, in order.
pub struct ObsRuntime<T> {
    pub phase: RuntimePhase,
    pub queue: Vec<T>,
    pub submitted: Ghost<Seq<T>>,
    pub executed: Ghost<Seq<T>>,
}

impl<T> ObsRuntime<T> {
    /// What has been handed to the worker, followed by what still waits, is
    /// exactly what was accepted, in acceptance order.
    pub open spec fn wf(&self) -> bool {
        self.submitted@ == self.executed@ + self.queue@
    }

    /// A runtime that has not been started: nothing accepted, nothing
    /// handed out.
    pub fn new() -> (r: Self)
        ensures
            r.wf(),
            r.phase == RuntimePhase::NotStarted,
            r.queue@.len() == 0,
            r.submitted@.len() == 0,
            r.executed@.len() == 0,
    {
        let r = ObsRuntime {
            phase: RuntimePhase::NotStarted,
            queue: Vec::new(),
            submitted: Ghost(Seq::empty()),
            executed: Ghost(Seq::empty()),
        };
        proof {
            assert(r.submitted@ =~= r.executed@ + r.queue@);
        }
        r
    }

    /// Begins startup. It succeeds exactly once: any later call, whatever
    /// became of the first, is refused with `RuntimeAlreadyStarted` and
    /// changes nothing. On success the caller must run the one-time engine
    /// initialisation and report its outcome through `complete_startup`.
    pub fn startup(&mut self) -> (r: Result<(), RuntimeError>)
        ensures
            r is Ok <==> old(self).phase == RuntimePhase::NotStarted,
            r is Err ==> r == Result::<(), RuntimeError>::Err(RuntimeError::RuntimeAlreadyStarted)
                && *final(self) == *old(self),
            r is Ok ==> final(self).phase == RuntimePhase::Starting,
            final(self).queue == old(self).queue,
            final(self).submitted == old(self).submitted,
            final(self).executed == old(self).executed,
    {
        match self.phase {
            RuntimePhase::NotStarted => {
                self.phase = RuntimePhase::Starting;
                Ok(())
            },
            _ => Err(RuntimeError::RuntimeAlreadyStarted),
        }
    }

    /// Reports the outcome of the one-time engine initialisation. Success
    /// opens the runtime for submissions; failure is fatal, surfaced as
    /// `InitFailed`, and leaves the runtime permanently unusable.
    pub fn complete_startup(&mut self, init_ok: bool) -> (r: Result<(), RuntimeError>)
        requires
            old(self).phase == RuntimePhase::Starting,
        ensures
            init_ok ==> r is Ok && final(self).phase == RuntimePhase::Running,
            !init_ok ==> r == Result::<(), RuntimeError>::Err(RuntimeError::InitFailed) && final(self).phase == RuntimePhase::Failed,
            final(self).queue == old(self).queue,
            final(self).submitted == old(self).submitted,
            final(self).executed == old(self).executed,
    {
        if init_ok {
            self.phase = RuntimePhase::Running;
            Ok(())
        } else {
            self.phase = RuntimePhase::Failed;
            Err(RuntimeError::InitFailed)
        }
    }

    /// Accepts a job while the runtime runs, appending it to the queue;
    /// before a successful startup every submission is refused with
    /// `RuntimeNotStarted`, and after shutdown with `JobChannelClosed`.
    pub fn submit(&mut self, job: T) -> (r: Result<(), RuntimeError>)
        requires
            old(self).wf(),
        ensures
            final(self).wf(),
            r is Ok <==> old(self).phase == RuntimePhase::Running,
            old(self).phase == RuntimePhase::Running ==> final(self).queue@ == old(self).queue@.push(job) && final(self).submitted@ == old(self).submitted@.push(job),
            (old(self).phase == RuntimePhase::NotStarted || old(self).phase
                == RuntimePhase::Starting || old(self).phase == RuntimePhase::Failed) ==> r
                == Result::<(), RuntimeError>::Err(RuntimeError::RuntimeNotStarted),
            old(self).phase == RuntimePhase::ShutDown ==> r == Result::<(), RuntimeError>::Err(
                RuntimeError::JobChannelClosed,
            ),
            r is Err ==> final(self).queue == old(self).queue && final(self).submitted == old(self).submitted,
            final(self).phase == old(self).phase,
            final(self).executed == old(self).executed,
    {
        match self.phase {
            RuntimePhase::Running => {
                self.queue.push(job);
                proof {
                    self.submitted@ = self.submitted@.push(job);
                    assert(self.submitted@ =~= self.executed@ + self.queue@);
                }
                Ok(())
            },
            RuntimePhase::ShutDown => Err(RuntimeError::JobChannelClosed),
            _ => Err(RuntimeError::RuntimeNotStarted),
        }
    }

    /// Hands the worker the oldest waiting job, if any. Jobs leave in
    /// exactly the order they were accepted; the worker runs each to
    /// completion before asking for the next, so their effects on the
    /// engine are serialized.
    pub fn take_next(&mut self) -> (r: Option<T>)
        requires
            old(self).wf(),
        ensures
            final(self).wf(),
            r is Some <==> old(self).queue@.len() > 0,
            old(self).queue@.len() > 0 ==> r == Some(old(self).queue@[0]) && final(self).queue@
                == old(self).queue@.drop_first() && final(self).executed@ == old(self).executed@.push(old(self).queue@[0]),
            old(self).queue@.len() == 0 ==> *final(self) == *old(self),
            final(self).phase == old(self).phase,
            final(self).submitted == old(self).submitted,
    {
        if self.queue.len() == 0 {
            None
        } else {
            let job = self.queue.remove(0);
            proof {
                self.executed@ = self.executed@.push(job);
                assert(old(self).queue@.remove(0) =~= old(self).queue@.drop_first());
                assert(self.submitted@ =~= self.executed@ + self.queue@);
            }
            Some(job)
        }
    }

    /// Stops further submissions; jobs already queued may still be drained
    /// by the worker.
    pub fn shutdown(&mut self)
        ensures
            final(self).phase == RuntimePhase::ShutDown,
            final(self).queue == old(self).queue,
            final(self).submitted == old(self).submitted,
            final(self).executed == old(self).executed,
    {
        self.phase = RuntimePhase::ShutDown;
    }
}

/// Jobs are handed to the worker in first-in-first-out order: at every
/// point, what has been executed is exactly the oldest prefix of what was
/// submitted, so two jobs' results are always observed in submission order,
/// and the still-queued jobs follow in that same order.
pub proof fn lemma_fifo<T>(r: &ObsRuntime<T>)
    requires
        r.wf(),
    ensures
        r.executed@ == r.submitted@.take(r.executed@.len() as int),
        r.queue@ == r.submitted@.skip(r.executed@.len() as int),
        forall|i: int| 0 <= i < r.executed@.len() ==> r.executed@[i] == r.submitted@[i],
{
    assert(r.executed@ =~= r.submitted@.take(r.executed@.len() as int));
    assert(r.queue@ =~= r.submitted@.skip(r.executed@.len() as int));
}

} // verus!
