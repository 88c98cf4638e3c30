//! Boot orchestration sequencer: a linear state machine over the boot stages,
//! advancing strictly forward on success and jumping straight to shutdown on
//! any fatal failure, so that every run, successful or not, passes through the
//! shutdown stage. A shell that exits with a non-zero status is reported, not
//! treated as a failure.

use vstd::prelude::*;

verus! {

/// The boot stages, in the order a successful run passes through them;
/// `Shutdown` is terminal.
#[derive(Debug, Clone, Copy, PartialEq, Eq, Structural)]
pub enum Stage {
    MountingKernelFs,
    ReadingCmdline,
    ParsingConfig,
    LoadingModules,
    MountingShares,
    ApplyingEnv,
    ExecutingShell,
    ShuttingDown,
    Shutdown,
}

/// The kind of fatal failure a stage reported, by the taxonomy of the boot
/// design; per-module load failures are not fatal and never appear here.
#[derive(Debug, Clone, Copy, PartialEq, Eq, Structural)]
pub enum FailureKind {
    Config,
    Mount,
    Environment,
    Execution,
    Shutdown,
}

/// What the work of the current stage reported back to the sequencer.
#[derive(Debug, Clone, Copy, PartialEq, Eq, Structural)]
pub enum StageEvent {
    /// The stage's work finished; move forward.
    Completed,
    /// The stage's work failed fatally; jump to shutdown.
    Failed(FailureKind),
    /// The shell was spawned, ran, and exited with this status. Any status,
    /// zero or not, completes the stage.
    ShellExited(i32),
}

/// The stage a successful step leaves for; `Shutdown` absorbs.
pub open spec fn next_stage(s: Stage) -> Stage {
    match s {
        Stage::MountingKernelFs => Stage::ReadingCmdline,
        Stage::ReadingCmdline => Stage::ParsingConfig,
        Stage::ParsingConfig => Stage::LoadingModules,
        Stage::LoadingModules => Stage::MountingShares,
        Stage::MountingShares => Stage::ApplyingEnv,
        Stage::ApplyingEnv => Stage::ExecutingShell,
        Stage::ExecutingShell => Stage::ShuttingDown,
        Stage::ShuttingDown => Stage::Shutdown,
        Stage::Shutdown => Stage::Shutdown,
    }
}

/// How many steps separate a stage from `Shutdown` on the success path.
pub open spec fn stage_rank(s: Stage) -> nat {
    match s {
        Stage::MountingKernelFs => 8,
        Stage::ReadingCmdline => 7,
        Stage::ParsingConfig => 6,
        Stage::LoadingModules => 5,
        Stage::MountingShares => 4,
        Stage::ApplyingEnv => 3,
        Stage::ExecutingShell => 2,
        Stage::ShuttingDown => 1,
        Stage::Shutdown => 0,
    }
}

/// The sequencer: the stage the run stands in and the first fatal failure it
/// recorded, if any.
#[derive(Debug, Clone, Copy)]
pub struct Orchestrator {
    pub stage: Stage,
    pub failure: Option<FailureKind>,
}

/// One step of the sequencer. `Completed` and `ShellExited` move to the next
/// stage. `Failed` jumps to `ShuttingDown` (or on to `Shutdown` when the
/// failure struck shutdown itself) and records the failure, first one wins.
pub open spec fn spec_step(st: Orchestrator, ev: StageEvent) -> Orchestrator {
    match ev {
        StageEvent::Failed(k) => Orchestrator {
            stage: if st.stage is ShuttingDown || st.stage is Shutdown {
                Stage::Shutdown
            } else {
                Stage::ShuttingDown
            },
            failure: if st.failure is None {
                Some(k)
            } else {
                st.failure
            },
        },
        _ => Orchestrator { stage: next_stage(st.stage), failure: st.failure },
    }
}

/// The states a run passes through from `st` under the events `evs`, the
/// starting state included.
pub open spec fn spec_run(st: Orchestrator, evs: Seq<StageEvent>) -> Seq<Orchestrator>
    decreases evs.len(),
{
    if evs.len() == 0 {
        seq![st]
    } else {
        seq![st] + spec_run(spec_step(st, evs[0]), evs.drop_first())
    }
}

impl Orchestrator {
    /// A run about to begin: at the first stage, with no failure recorded.
    pub fn new() -> (r: Self)
        ensures
            r.stage == Stage::MountingKernelFs,
            r.failure is None,
    {
        Orchestrator { stage: Stage::MountingKernelFs, failure: None }
    }

    /// Fold one stage outcome into the run.
    pub fn step(&mut self, ev: StageEvent)
        ensures
            *final(self) == spec_step(*old(self), ev),
    {
        match ev {
            StageEvent::Failed(k) => {
                self.stage = if matches!(self.stage, Stage::ShuttingDown)
                    || matches!(self.stage, Stage::Shutdown) {
                    Stage::Shutdown
                } else {
                    Stage::ShuttingDown
                };
                if self.failure.is_none() {
                    self.failure = Some(k);
                }
            },
            _ => {
                self.stage = match self.stage {
                    Stage::MountingKernelFs => Stage::ReadingCmdline,
                    Stage::ReadingCmdline => Stage::ParsingConfig,
                    Stage::ParsingConfig => Stage::LoadingModules,
                    Stage::LoadingModules => Stage::MountingShares,
                    Stage::MountingShares => Stage::ApplyingEnv,
                    Stage::ApplyingEnv => Stage::ExecutingShell,
                    Stage::ExecutingShell => Stage::ShuttingDown,
                    Stage::ShuttingDown => Stage::Shutdown,
                    Stage::Shutdown => Stage::Shutdown,
                };
            },
        }
    }

    /// Whether the run has reached the terminal stage.
    pub fn is_done(&self) -> (r: bool)
        ensures
            r == (self.stage is Shutdown),
    {
        matches!(self.stage, Stage::Shutdown)
    }

    /// Whether no stage has failed fatally so far; this is what the run
    /// reports as its overall outcome.
    pub fn succeeded(&self) -> (r: bool)
        ensures
            r == (self.failure is None),
    {
        self.failure.is_none()
    }

    /// The stage the run stands in.
    pub fn current_stage(&self) -> (r: Stage)
        ensures
            r == self.stage,
    {
        self.stage
    }

    /// The recorded fatal failure, if any.
    pub fn first_failure(&self) -> (r: Option<FailureKind>)
        ensures
            r == self.failure,
    {
        self.failure
    }
}

/// Every step takes the state strictly closer to `Shutdown`, so any run given
/// at least as many events as the current stage's distance ends shut down.
pub proof fn lemma_run_reaches_shutdown(st: Orchestrator, evs: Seq<StageEvent>)
    requires
        evs.len() >= stage_rank(st.stage),
    ensures
        spec_run(st, evs).last().stage is Shutdown,
    decreases evs.len(),
{
    if evs.len() > 0 {
        let st2 = spec_step(st, evs[0]);
        assert(stage_rank(st2.stage) <= evs.len() - 1);
        lemma_run_reaches_shutdown(st2, evs.drop_first());
        assert(spec_run(st, evs).last() == spec_run(st2, evs.drop_first()).last());
    }
}

/// Once the run stands in the shutdown stages with a failure recorded, it
/// stays there: no later event revives an earlier stage or clears the
/// failure.
pub proof fn lemma_shutdown_stages_absorb(st: Orchestrator, evs: Seq<StageEvent>)
    requires
        st.stage is ShuttingDown || st.stage is Shutdown,
        st.failure is Some,
    ensures
        forall|i: int|
            0 <= i < spec_run(st, evs).len() ==> (#[trigger] spec_run(st, evs)[i].stage
                is ShuttingDown || spec_run(st, evs)[i].stage is Shutdown) && spec_run(
                st,
                evs,
            )[i].failure == st.failure,
    decreases evs.len(),
{
    if evs.len() > 0 {
        let st2 = spec_step(st, evs[0]);
        lemma_shutdown_stages_absorb(st2, evs.drop_first());
        assert forall|i: int| 0 <= i < spec_run(st, evs).len() implies (#[trigger] spec_run(
            st,
            evs,
        )[i].stage is ShuttingDown || spec_run(st, evs)[i].stage is Shutdown) && spec_run(
            st,
            evs,
        )[i].failure == st.failure by {
            if i > 0 {
                assert(spec_run(st, evs)[i] == spec_run(st2, evs.drop_first())[i - 1]);
            }
        }
    }
}

/// A fatal failure in any working stage jumps the run directly to the
/// shutdown stage: none of the stages that would have followed (for a mount
/// failure: applying the environment, executing the shell) is ever entered,
/// and the failure stays recorded to the end.
pub proof fn lemma_failure_skips_remaining_stages(
    st: Orchestrator,
    k: FailureKind,
    evs: Seq<StageEvent>,
)
    requires
        !(st.stage is ShuttingDown),
        !(st.stage is Shutdown),
    ensures
        spec_step(st, StageEvent::Failed(k)).stage is ShuttingDown,
        forall|i: int|
            0 <= i < spec_run(spec_step(st, StageEvent::Failed(k)), evs).len() ==> (
            #[trigger] spec_run(spec_step(st, StageEvent::Failed(k)), evs)[i].stage
                is ShuttingDown || spec_run(spec_step(st, StageEvent::Failed(k)), evs)[i].stage
                is Shutdown) && spec_run(spec_step(st, StageEvent::Failed(k)), evs)[i].failure
                is Some,
{
    let st2 = spec_step(st, StageEvent::Failed(k));
    lemma_shutdown_stages_absorb(st2, evs);
}

/// A shell exit status, zero or not, completes the shell stage: the run moves
/// on to shutdown with its recorded outcome unchanged, rather than treating
/// the status as a fatal error.
pub proof fn lemma_shell_exit_status_not_fatal(st: Orchestrator, code: i32)
    requires
        st.stage is ExecutingShell,
    ensures
        spec_step(st, StageEvent::ShellExited(code)).stage is ShuttingDown,
        spec_step(st, StageEvent::ShellExited(code)).failure == st.failure,
{
}

/// A run whose events never report a fatal failure keeps its recorded outcome
/// to the end: starting clean, it ends clean and reports overall completion.
pub proof fn lemma_no_failure_keeps_success(st: Orchestrator, evs: Seq<StageEvent>)
    requires
        forall|i: int| 0 <= i < evs.len() ==> !(#[trigger] evs[i] is Failed),
    ensures
        spec_run(st, evs).last().failure == st.failure,
    decreases evs.len(),
{
    if evs.len() > 0 {
        let st2 = spec_step(st, evs[0]);
        assert(st2.failure == st.failure);
        let rest = evs.drop_first();
        assert forall|i: int| 0 <= i < rest.len() implies !(#[trigger] rest[i] is Failed) by {
            assert(rest[i] == evs[i + 1]);
        }
        lemma_no_failure_keeps_success(st2, evs.drop_first());
        assert(spec_run(st, evs).last() == spec_run(st2, evs.drop_first()).last());
    }
}

} // verus!
