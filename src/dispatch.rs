use vstd::prelude::*;
use crate::error::{AppError, AppErrorV};

verus! {

/// The actions that an invocation asks for.
#[derive(Clone, Copy, PartialEq, Eq, Structural, Debug)]
pub struct Actions {
    pub requirements: bool,
    pub git: bool,
    pub build: bool,
    pub clean: bool,
    pub run: bool,
}

/// One step of an invocation.
#[derive(Clone, Copy, PartialEq, Eq, Structural, Debug)]
pub enum Stage {
    CreateTree,
    ListRequirements,
    Fetch,
    Build,
    Clean,
    RebuildTree,
    Execute,
}

pub open spec fn when(c: bool, s: Seq<Stage>) -> Seq<Stage> {
    if c {
        s
    } else {
        Seq::empty()
    }
}

/// The stages for the requested actions, in their fixed order: the tree first,
/// then listing, fetch, build, clean with a tree rebuild, and execute.
pub open spec fn plan(a: Actions) -> Seq<Stage> {
    seq![Stage::CreateTree]
        + when(a.requirements, seq![Stage::ListRequirements])
        + when(a.git, seq![Stage::Fetch])
        + when(a.build, seq![Stage::Build])
        + when(a.clean, seq![Stage::Clean, Stage::RebuildTree])
        + when(a.run, seq![Stage::Execute])
}

/// The stages that run when `outcomes[i]` tells whether the `i`-th stage that
/// ran succeeded: each runs only after all before it succeeded.
pub open spec fn stages_run(stages: Seq<Stage>, outcomes: Seq<bool>) -> Seq<Stage>
    decreases stages.len(),
{
    if stages.len() == 0 {
        Seq::empty()
    } else if outcomes.len() > 0 && outcomes[0] {
        seq![stages[0]] + stages_run(stages.drop_first(), outcomes.drop_first())
    } else {
        seq![stages[0]]
    }
}

/// The stages for the requested actions (see `plan`).
pub fn dispatch_plan(a: &Actions) -> (r: Vec<Stage>)
    ensures
        r@ == plan(*a),
{
    let mut r: Vec<Stage> = Vec::new();
    r.push(Stage::CreateTree);
    if a.requirements {
        r.push(Stage::ListRequirements);
    }
    if a.git {
        r.push(Stage::Fetch);
    }
    if a.build {
        r.push(Stage::Build);
    }
    if a.clean {
        r.push(Stage::Clean);
        r.push(Stage::RebuildTree);
    }
    if a.run {
        r.push(Stage::Execute);
    }
    assert(r@ =~= plan(*a));
    r
}

/// What the dispatcher asks for next.
#[derive(Clone, Debug)]
pub enum Step {
    Run(Stage),
    /// Every stage ran and succeeded.
    Done,
    /// A stage failed; nothing more runs.
    Failed(AppError),
}

/// Runs the stages of a plan one at a time, stopping at the first failure.
pub struct Dispatcher {
    stages: Vec<Stage>,
    next: usize,
    halted: bool,
    /// The outcome of each stage handed out and reported so far, in order.
    reported: Ghost<Seq<bool>>,
}

pub struct DispatcherV {
    pub stages: Seq<Stage>,
    pub next: nat,
    pub halted: bool,
    pub reported: Seq<bool>,
}

impl View for Dispatcher {
    type V = DispatcherV;

    closed spec fn view(&self) -> DispatcherV {
        DispatcherV { stages: self.stages@, next: self.next as nat, halted: self.halted, reported: self.reported@ }
    }
}

impl Dispatcher {
    pub closed spec fn wf(&self) -> bool {
        &&& self.next <= self.stages@.len()
        &&& self.reported@.len() <= self.next <= self.reported@.len() + 1
        &&& !self.halted ==> forall|j: int| 0 <= j < self.reported@.len() ==> #[trigger] self.reported@[j]
    }

    pub fn new(a: &Actions) -> (r: Dispatcher)
        ensures
            r.wf(),
            r@ == (DispatcherV { stages: plan(*a), next: 0, halted: false, reported: Seq::empty() }),
    {
        Dispatcher { stages: dispatch_plan(a), next: 0, halted: false, reported: Ghost(Seq::empty()) }
    }

    /// Takes the outcome of the stage handed out last (`Ok(())` on the first
    /// call) and says what comes next: a failure ends the run and is handed back
    /// as it came; otherwise the next stage of the plan, or `Done`. A stage is
    /// handed out only when every stage before it succeeded.
    pub fn advance(&mut self, last: Result<(), AppError>) -> (r: Step)
        requires
            old(self).wf(),
        ensures
            final(self).wf(),
            final(self)@.stages == old(self)@.stages,
            old(self)@.halted ==> r is Done && final(self)@ == old(self)@,
            !old(self)@.halted ==> final(self)@.reported == if old(self)@.next > old(self)@.reported.len() {
                old(self)@.reported.push(last is Ok)
            } else {
                old(self)@.reported
            },
            !old(self)@.halted && last is Err ==> final(self)@.next == old(self)@.next && final(self)@.halted
                && r is Failed && r->Failed_0@ == last->Err_0@,
            !old(self)@.halted && last is Ok && old(self)@.next < old(self)@.stages.len()
                ==> final(self)@.next == old(self)@.next + 1 && !final(self)@.halted
                && r == Step::Run(old(self)@.stages[old(self)@.next as int]),
            !old(self)@.halted && last is Ok && old(self)@.next == old(self)@.stages.len()
                ==> final(self)@.next == old(self)@.next && !final(self)@.halted && r is Done,
            r is Run ==> final(self)@.next == final(self)@.reported.len() + 1
                && r->Run_0 == final(self)@.stages[final(self)@.next - 1]
                && forall|j: int| 0 <= j < final(self)@.reported.len() ==> #[trigger] final(self)@.reported[j],
    {
        if self.halted {
            return Step::Done;
        }
        proof {
            if self.next > self.reported@.len() {
                self.reported = Ghost(self.reported@.push(last is Ok));
            }
        }
        match last {
            Err(e) => {
                self.halted = true;
                Step::Failed(e)
            },
            Ok(()) => {
                if self.next < self.stages.len() {
                    let s = self.stages[self.next];
                    self.next = self.next + 1;
                    Step::Run(s)
                } else {
                    Step::Done
                }
            },
        }
    }
}

// ---------------------------------------------------------------- laws

proof fn lemma_run_prefix(stages: Seq<Stage>, outcomes: Seq<bool>, i: int)
    requires
        0 <= i < stages_run(stages, outcomes).len(),
    ensures
        i < stages.len(),
        i <= outcomes.len(),
        stages_run(stages, outcomes)[i] == stages[i],
        forall|j: int| 0 <= j < i ==> #[trigger] outcomes[j],
    decreases stages.len(),
{
    assert(stages.len() > 0);
    if i > 0 {
        assert(outcomes.len() > 0 && outcomes[0]);
        let d = outcomes.drop_first();
        let rest = stages_run(stages.drop_first(), d);
        assert(stages_run(stages, outcomes) == seq![stages[0]] + rest);
        lemma_run_prefix(stages.drop_first(), d, i - 1);
        assert forall|j: int| 0 <= j < i implies #[trigger] outcomes[j] by {
            if j > 0 {
                assert(d[j - 1] == outcomes[j]);
            }
        }
    }
}

/// A stage runs only after every earlier stage of the plan ran and succeeded:
/// where the stage at position `k` failed, no stage after it runs.
pub proof fn lemma_fail_fast(stages: Seq<Stage>, outcomes: Seq<bool>, k: int)
    requires
        0 <= k < outcomes.len(),
        !outcomes[k],
    ensures
        stages_run(stages, outcomes).len() <= k + 1,
{
    if stages_run(stages, outcomes).len() > k + 1 {
        lemma_run_prefix(stages, outcomes, k + 1);
    }
}

/// With clean and execute both requested, clean comes before execute with the
/// tree rebuild between them; if clean fails, execute never runs.
pub proof fn lemma_clean_before_execute(a: Actions, outcomes: Seq<bool>)
    requires
        a.clean,
        a.run,
    ensures
        ({
            let p = plan(a);
            let c = p.len() - 3;
            &&& p[c] == Stage::Clean
            &&& p[c + 1] == Stage::RebuildTree
            &&& p[c + 2] == Stage::Execute
            &&& forall|i: int| 0 <= i < p.len() && p[i] == Stage::Execute ==> i == c + 2
            &&& (outcomes.len() > c && !outcomes[c]) ==> !stages_run(p, outcomes).contains(Stage::Execute)
            &&& (outcomes.len() > c + 1 && !outcomes[c + 1]) ==> !stages_run(p, outcomes).contains(Stage::Execute)
        }),
{
    let p = plan(a);
    let c = p.len() - 3;
    assert(p[c] == Stage::Clean);
    assert(p[c + 1] == Stage::RebuildTree);
    assert(p[c + 2] == Stage::Execute);
    assert forall|i: int| 0 <= i < p.len() && p[i] == Stage::Execute implies i == c + 2 by {}
    if outcomes.len() > c && !outcomes[c] {
        lemma_fail_fast(p, outcomes, c);
        if stages_run(p, outcomes).contains(Stage::Execute) {
            let i = choose|i: int| 0 <= i < stages_run(p, outcomes).len() && stages_run(p, outcomes)[i] == Stage::Execute;
            lemma_run_prefix(p, outcomes, i);
        }
    }
    if outcomes.len() > c + 1 && !outcomes[c + 1] {
        lemma_fail_fast(p, outcomes, c + 1);
        if stages_run(p, outcomes).contains(Stage::Execute) {
            let i = choose|i: int| 0 <= i < stages_run(p, outcomes).len() && stages_run(p, outcomes)[i] == Stage::Execute;
            lemma_run_prefix(p, outcomes, i);
        }
    }
}

/// With build and execute both requested, build comes first; if build fails,
/// execute never runs.
pub proof fn lemma_build_failure_stops_execute(a: Actions, outcomes: Seq<bool>)
    requires
        a.build,
        a.run,
    ensures
        ({
            let p = plan(a);
            let b = p.len() - 2 - if a.clean { 2int } else { 0int };
            &&& p[b] == Stage::Build
            &&& p[p.len() - 1] == Stage::Execute
            &&& b < p.len() - 1
            &&& (outcomes.len() > b && !outcomes[b]) ==> !stages_run(p, outcomes).contains(Stage::Execute)
        }),
{
    let p = plan(a);
    let b = p.len() - 2 - if a.clean { 2int } else { 0int };
    assert(p[b] == Stage::Build);
    assert(p[p.len() - 1] == Stage::Execute);
    if outcomes.len() > b && !outcomes[b] {
        lemma_fail_fast(p, outcomes, b);
        if stages_run(p, outcomes).contains(Stage::Execute) {
            let i = choose|i: int| 0 <= i < stages_run(p, outcomes).len() && stages_run(p, outcomes)[i] == Stage::Execute;
            lemma_run_prefix(p, outcomes, i);
            assert(forall|j: int| 0 <= j < p.len() - 1 ==> p[j] != Stage::Execute);
        }
    }
}

/// When a dispatcher over a plan with clean and execute hands out `Execute`
/// (so every reported outcome was a success, see `Dispatcher::advance`), the
/// clean stage and the tree rebuild after it have both been reported as successes.
pub proof fn lemma_dispatched_execute_after_clean(a: Actions, d: DispatcherV)
    requires
        a.clean,
        a.run,
        d.stages == plan(a),
        1 <= d.next <= d.stages.len(),
        d.next == d.reported.len() + 1,
        d.stages[d.next - 1] == Stage::Execute,
        forall|j: int| 0 <= j < d.reported.len() ==> #[trigger] d.reported[j],
    ensures
        d.reported.len() == d.stages.len() - 1,
        d.stages[d.stages.len() - 3] == Stage::Clean && d.reported[d.stages.len() - 3],
        d.stages[d.stages.len() - 2] == Stage::RebuildTree && d.reported[d.stages.len() - 2],
{
    lemma_clean_before_execute(a, d.reported);
}

/// When a dispatcher over a plan with build and execute hands out `Execute`,
/// the build stage has been reported as a success.
pub proof fn lemma_dispatched_execute_after_build(a: Actions, d: DispatcherV)
    requires
        a.build,
        a.run,
        d.stages == plan(a),
        1 <= d.next <= d.stages.len(),
        d.next == d.reported.len() + 1,
        d.stages[d.next - 1] == Stage::Execute,
        forall|j: int| 0 <= j < d.reported.len() ==> #[trigger] d.reported[j],
    ensures
        ({
            let b = d.stages.len() - 2 - if a.clean { 2int } else { 0int };
            d.stages[b] == Stage::Build && b < d.reported.len() && d.reported[b]
        }),
{
    let p = plan(a);
    assert(p[p.len() - 1] == Stage::Execute);
    assert(forall|j: int| 0 <= j < p.len() - 1 ==> p[j] != Stage::Execute);
    lemma_build_failure_stops_execute(a, d.reported);
}

} // verus!
