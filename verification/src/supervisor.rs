use vstd::prelude::*;

use crate::app_config::{AppConfig, ConfigError};

verus! {

/// Identifies a subsystem to launch: its registration name. The launch work
/// itself happens outside the core; the supervisor hands descriptors out
/// and takes outcomes back.
#[derive(Debug)]
pub struct SubsystemDescriptor {
    pub name: String,
}

/// The result of one successful launch: the stable identifier of the
/// running unit, suitable for reporting.
#[derive(Debug, Clone, Copy, PartialEq, Eq, Structural)]
pub struct SubsystemHandle {
    pub id: i32,
}

/// A structured startup failure. Its cause is opaque to the core: only the
/// code the subsystem reported is carried.
#[derive(Debug, Clone, Copy, PartialEq, Eq, Structural)]
pub struct StartupError {
    pub code: i32,
}

/// Exactly one outcome is observed per descriptor.
#[derive(Debug, Clone, Copy, PartialEq, Eq, Structural)]
pub enum StartupOutcome {
    Success(SubsystemHandle),
    Failure(StartupError),
}

/// One failed launch in the final report: which subsystem, and its error.
#[derive(Debug)]
pub struct FailedLaunch {
    pub name: String,
    pub error: StartupError,
}

pub struct FailedLaunchV {
    pub name: Seq<char>,
    pub error: StartupError,
}

impl View for FailedLaunch {
    type V = FailedLaunchV;

    open spec fn view(&self) -> FailedLaunchV {
        FailedLaunchV { name: self.name@, error: self.error }
    }
}

pub open spec fn failed_views(s: Seq<FailedLaunch>) -> Seq<FailedLaunchV> {
    s.map_values(|f: FailedLaunch| f@)
}

/// The phase of the bootstrap state machine. `ConfigFailed`, `AllLaunched`
/// and `PartialFailure` are terminal.
#[derive(Debug)]
pub enum Phase {
    Init,
    ConfigLoading,
    ConfigFailed(ConfigError),
    ConfigLoaded(AppConfig),
    Launching(AppConfig),
    AllLaunched(Vec<SubsystemHandle>),
    PartialFailure(Vec<FailedLaunch>, Vec<SubsystemHandle>),
}

/// The terminal report of the bootstrap phase, as handed to the caller.
#[derive(Debug)]
pub enum BootstrapReport {
    /// Every launch succeeded; the handles stand in registration order.
    AllLaunched(Vec<SubsystemHandle>),
    /// At least one launch failed: every failure with its subsystem's name,
    /// and the handles of the launches that did succeed, each list in
    /// registration order.
    PartialFailure(Vec<FailedLaunch>, Vec<SubsystemHandle>),
}

/// The handles of the successful outcomes, in order.
pub open spec fn spec_handles(outs: Seq<StartupOutcome>) -> Seq<SubsystemHandle>
    decreases outs.len(),
{
    if outs.len() == 0 {
        Seq::<SubsystemHandle>::empty()
    } else {
        let rest = spec_handles(outs.drop_last());
        match outs.last() {
            StartupOutcome::Success(h) => rest.push(h),
            StartupOutcome::Failure(_) => rest,
        }
    }
}

/// The failed outcomes paired with their descriptors' names, in order.
pub open spec fn spec_failures(descs: Seq<SubsystemDescriptor>, outs: Seq<StartupOutcome>) -> Seq<
    FailedLaunchV,
>
    decreases outs.len(),
{
    if outs.len() == 0 {
        Seq::<FailedLaunchV>::empty()
    } else {
        let rest = spec_failures(descs, outs.drop_last());
        match outs.last() {
            StartupOutcome::Success(_) => rest,
            StartupOutcome::Failure(e) => rest.push(
                FailedLaunchV { name: descs[outs.len() - 1].name@, error: e },
            ),
        }
    }
}

pub open spec fn all_success(outs: Seq<StartupOutcome>) -> bool {
    forall|i: int| 0 <= i < outs.len() ==> (#[trigger] outs[i]) matches StartupOutcome::Success(_)
}

/// When every outcome succeeded, the handle list has exactly one handle per
/// descriptor, in registration order.
pub proof fn lemma_all_success_handles(outs: Seq<StartupOutcome>)
    requires
        all_success(outs),
    ensures
        spec_handles(outs).len() == outs.len(),
        forall|i: int|
            0 <= i < outs.len() ==> spec_handles(outs)[i] == (#[trigger] outs[i])->Success_0,
    decreases outs.len(),
{
    if outs.len() > 0 {
        assert(all_success(outs.drop_last()));
        lemma_all_success_handles(outs.drop_last());
        assert(outs[outs.len() - 1] matches StartupOutcome::Success(_));
        let rest = spec_handles(outs.drop_last());
        let h = outs.last()->Success_0;
        assert forall|i: int|
            0 <= i < outs.len() implies spec_handles(outs)[i] == (#[trigger] outs[i])->Success_0 by {
            if i < outs.len() - 1 {
                assert(outs.drop_last()[i] == outs[i]);
                assert(rest.push(h)[i] == rest[i]);
            } else {
                assert(rest.push(h)[i] == h);
            }
        }
    }
}

/// Every descriptor's outcome is accounted for: each one lands in exactly
/// one of the two report lists, so the supervisor never declares an overall
/// result without having observed an outcome per descriptor.
pub proof fn lemma_outcomes_accounted(descs: Seq<SubsystemDescriptor>, outs: Seq<StartupOutcome>)
    ensures
        spec_handles(outs).len() + spec_failures(descs, outs).len() == outs.len(),
    decreases outs.len(),
{
    if outs.len() > 0 {
        lemma_outcomes_accounted(descs, outs.drop_last());
    }
}

/// Isolation: each outcome keeps its own place in the report, whatever the
/// other outcomes were. A success's handle is in the handle list; a
/// failure is in the failure list under its subsystem's name.
pub proof fn lemma_isolation(descs: Seq<SubsystemDescriptor>, outs: Seq<StartupOutcome>, i: int)
    requires
        0 <= i < outs.len(),
        outs.len() <= descs.len(),
    ensures
        outs[i] matches StartupOutcome::Success(h) ==> spec_handles(outs).contains(h),
        outs[i] matches StartupOutcome::Failure(e) ==> exists|j: int|
            0 <= j < spec_failures(descs, outs).len() && spec_failures(descs, outs)[j].name
                == descs[i].name@ && spec_failures(descs, outs)[j].error == e,
    decreases outs.len(),
{
    let hs = spec_handles(outs);
    let fs = spec_failures(descs, outs);
    if i == outs.len() - 1 {
        match outs[i] {
            StartupOutcome::Success(h) => {
                assert(hs[hs.len() - 1] == h);
            },
            StartupOutcome::Failure(e) => {
                assert(fs[fs.len() - 1] == FailedLaunchV { name: descs[i].name@, error: e });
            },
        }
    } else {
        lemma_isolation(descs, outs.drop_last(), i);
        let rest_h = spec_handles(outs.drop_last());
        let rest_f = spec_failures(descs, outs.drop_last());
        match outs[i] {
            StartupOutcome::Success(h) => {
                let j = choose|j: int| 0 <= j < rest_h.len() && rest_h[j] == h;
                assert(hs[j] == h);
            },
            StartupOutcome::Failure(e) => {
                let j = choose|j: int|
                    0 <= j < rest_f.len() && rest_f[j].name == descs[i].name@ && rest_f[j].error
                        == e;
                assert(fs[j].name == descs[i].name@ && fs[j].error == e);
            },
        }
    }
}

/// The supervisor: an ordered registry of descriptors and the current
/// bootstrap phase. `launches_started` counts the launches it has handed
/// out, the observable that fail-fast speaks of.
#[derive(Debug)]
pub struct Supervisor {
    pub descriptors: Vec<SubsystemDescriptor>,
    pub phase: Phase,
    pub launches_started: usize,
}

impl Supervisor {
    /// Launches begin only after a configuration success: in every phase up
    /// to and including `ConfigLoaded`, and in `ConfigFailed`, no launch
    /// has been handed out.
    pub open spec fn wf(self) -> bool {
        match self.phase {
            Phase::Init => self.launches_started == 0,
            Phase::ConfigLoading => self.launches_started == 0,
            Phase::ConfigFailed(_) => self.launches_started == 0,
            Phase::ConfigLoaded(_) => self.launches_started == 0,
            _ => true,
        }
    }

    pub fn new(descriptors: Vec<SubsystemDescriptor>) -> (s: Supervisor)
        ensures
            s.phase is Init,
            s.descriptors == descriptors,
            s.launches_started == 0,
            s.wf(),
    {
        Supervisor { descriptors, phase: Phase::Init, launches_started: 0 }
    }

    pub fn descriptor_count(&self) -> (n: usize)
        ensures
            n == self.descriptors@.len(),
    {
        self.descriptors.len()
    }

    pub fn descriptor_name(&self, i: usize) -> (name: String)
        requires
            i < self.descriptors@.len(),
        ensures
            name@ == self.descriptors@[i as int].name@,
    {
        self.descriptors[i].name.clone()
    }

    /// `Init -> ConfigLoading`, at process start.
    pub fn start_config(&mut self)
        requires
            old(self).phase is Init,
            old(self).wf(),
        ensures
            final(self).phase is ConfigLoading,
            final(self).descriptors == old(self).descriptors,
            final(self).launches_started == 0,
            final(self).wf(),
    {
        self.phase = Phase::ConfigLoading;
    }

    /// `ConfigLoading -> ConfigLoaded | ConfigFailed`, carrying the
    /// resolved record or the specific error kind. A failure is terminal.
    pub fn finish_config(&mut self, r: Result<AppConfig, ConfigError>)
        requires
            old(self).phase is ConfigLoading,
            old(self).wf(),
        ensures
            final(self).descriptors == old(self).descriptors,
            final(self).launches_started == 0,
            (match r {
                Ok(c) => final(self).phase == Phase::ConfigLoaded(c),
                Err(e) => final(self).phase == Phase::ConfigFailed(e),
            }),
            final(self).wf(),
    {
        match r {
            Ok(c) => {
                self.phase = Phase::ConfigLoaded(c);
            },
            Err(e) => {
                self.phase = Phase::ConfigFailed(e);
            },
        }
    }

    /// `ConfigLoaded -> Launching`: every registered descriptor is handed
    /// out for launch. Only a loaded configuration allows this step, which
    /// is what makes configuration failure fail-fast.
    pub fn start_launch(&mut self) -> (c: AppConfig)
        requires
            old(self).phase matches Phase::ConfigLoaded(_),
            old(self).wf(),
        ensures
            final(self).phase == Phase::Launching(old(self).phase->ConfigLoaded_0),
            c == old(self).phase->ConfigLoaded_0,
            final(self).descriptors == old(self).descriptors,
            final(self).launches_started == old(self).descriptors@.len(),
    {
        let c = match &self.phase {
            Phase::ConfigLoaded(c) => *c,
            _ => {
                proof {
                    assert(false);
                }
                AppConfig {
                    debug: false,
                    fixversion: crate::num::Decimal { neg: false, mantissa: 0, scale: 0 },
                }
            },
        };
        self.phase = Phase::Launching(c);
        self.launches_started = self.descriptors.len();
        c
    }

    /// `Launching -> AllLaunched | PartialFailure`, once every descriptor's
    /// outcome has been observed: all successes end with every handle in
    /// registration order; any failure ends in `PartialFailure` carrying
    /// every failure by name and the handles that did succeed.
    pub fn finish_launch(&mut self, outcomes: &Vec<StartupOutcome>) -> (report: BootstrapReport)
        requires
            old(self).phase matches Phase::Launching(_),
            outcomes@.len() == old(self).descriptors@.len(),
        ensures
            final(self).descriptors == old(self).descriptors,
            final(self).launches_started == old(self).launches_started,
            final(self).wf(),
            all_success(outcomes@) ==> (report matches BootstrapReport::AllLaunched(hs) && hs@
                == spec_handles(outcomes@) && hs@.len() == outcomes@.len()),
            !all_success(outcomes@) ==> (report matches BootstrapReport::PartialFailure(fs, hs)
                && failed_views(fs@) == spec_failures(old(self).descriptors@, outcomes@) && hs@
                == spec_handles(outcomes@)),
            all_success(outcomes@) ==> (final(self).phase matches Phase::AllLaunched(hs) && hs@
                == spec_handles(outcomes@)),
            !all_success(outcomes@) ==> (final(self).phase matches Phase::PartialFailure(fs, hs)
                && failed_views(fs@) == spec_failures(old(self).descriptors@, outcomes@) && hs@
                == spec_handles(outcomes@)),
    {
        let n = outcomes.len();
        let mut handles: Vec<SubsystemHandle> = Vec::new();
        let mut handles2: Vec<SubsystemHandle> = Vec::new();
        let mut failures: Vec<FailedLaunch> = Vec::new();
        let mut failures2: Vec<FailedLaunch> = Vec::new();
        let mut ok = true;
        let mut i: usize = 0;
        proof {
            assert(outcomes@.take(0) =~= Seq::<StartupOutcome>::empty());
        }
        while i < n
            invariant
                i <= n,
                n == outcomes@.len(),
                n == self.descriptors@.len(),
                handles@ == spec_handles(outcomes@.take(i as int)),
                handles2@ == handles@,
                failed_views(failures@) == spec_failures(
                    self.descriptors@,
                    outcomes@.take(i as int),
                ),
                failed_views(failures2@) == failed_views(failures@),
                ok == all_success(outcomes@.take(i as int)),
            decreases n - i,
        {
            proof {
                assert(outcomes@.take(i as int + 1).drop_last() =~= outcomes@.take(i as int));
                assert(outcomes@.take(i as int + 1).last() == outcomes@[i as int]);
            }
            match outcomes[i] {
                StartupOutcome::Success(h) => {
                    handles.push(h);
                    handles2.push(h);
                    proof {
                        if !all_success(outcomes@.take(i as int)) {
                            let w = choose|k: int|
                                0 <= k < i && !((#[trigger] outcomes@.take(i as int)[k])
                                    matches StartupOutcome::Success(_));
                            assert(!(outcomes@.take(i as int + 1)[w]
                                matches StartupOutcome::Success(_)));
                        }
                    }
                },
                StartupOutcome::Failure(e) => {
                    let f = FailedLaunch { name: self.descriptors[i].name.clone(), error: e };
                    let f2 = FailedLaunch { name: self.descriptors[i].name.clone(), error: e };
                    failures.push(f);
                    failures2.push(f2);
                    ok = false;
                    proof {
                        assert(failed_views(failures@) =~= spec_failures(
                            self.descriptors@,
                            outcomes@.take(i as int + 1),
                        ));
                        assert(failed_views(failures2@) =~= failed_views(failures@));
                        assert(!(outcomes@.take(i as int + 1)[i as int]
                            matches StartupOutcome::Success(_)));
                    }
                },
            }
            i += 1;
        }
        proof {
            assert(outcomes@.take(n as int) =~= outcomes@);
            if all_success(outcomes@) {
                lemma_all_success_handles(outcomes@);
            }
        }
        if ok {
            self.phase = Phase::AllLaunched(handles2);
            BootstrapReport::AllLaunched(handles)
        } else {
            self.phase = Phase::PartialFailure(failures2, handles2);
            BootstrapReport::PartialFailure(failures, handles)
        }
    }
}

/// Fail-fast: a supervisor that failed configuration has handed out no
/// launch, and no transition leads it to a launching phase.
pub proof fn lemma_fail_fast(s: Supervisor)
    requires
        s.wf(),
        s.phase matches Phase::ConfigFailed(_),
    ensures
        s.launches_started == 0,
{
}

} // verus!
