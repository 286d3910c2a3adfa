//! One simulation tick per frame: advance the clock, run the fixed-rate
//! stages once per whole fixed step, then the variable-rate stages once.
use crate::order::{as_ints, stable_order};
use crate::stage::{GraphError, Rate, StageGraph};
use crate::time::{Time, TimeView};
use vstd::prelude::*;

verus! {

/// How one run of a stage's action ended.
#[derive(Clone, Copy, PartialEq, Eq, Structural, Debug)]
pub enum StageOutcome {
    Done,
    /// Failed; the other stages of the phase still run.
    Failed,
    /// Failed, and no further stage runs this tick.
    Fatal,
}

/// What a stage's action is told about the run it is part of.
#[derive(Clone, Copy, PartialEq, Eq, Structural, Debug)]
pub struct StageContext {
    pub phase: Rate,
    /// Time credited to the frame.
    pub delta_nanos: u64,
    /// Length of one fixed step.
    pub fixed_step_nanos: u64,
}

/// The work of a stage, run with exclusive access to the world.
pub trait StageAction<W> {
    fn run(&mut self, world: &mut W, ctx: &StageContext) -> StageOutcome;
}

/// One run of one stage.
pub struct StageRun {
    /// Position of the stage in registration order.
    pub stage: usize,
    pub name: String,
    pub outcome: StageOutcome,
}

/// What happened in one tick.
pub struct TickReport {
    /// Fixed steps consumed.
    pub fixed_steps: u64,
    /// Runs of the fixed phase, over all of its passes.
    pub fixed_runs: Vec<StageRun>,
    /// Runs of the variable phase.
    pub variable_runs: Vec<StageRun>,
    /// A stage failed fatally and the rest of the tick was skipped.
    pub aborted: bool,
}

/// Stages of `order` with the given rate, in that order.
pub open spec fn phase_plan(order: Seq<int>, rates: Seq<Rate>, phase: Rate) -> Seq<int>
    decreases order.len(),
{
    if order.len() == 0 {
        Seq::empty()
    } else {
        let p = phase_plan(order.drop_last(), rates, phase);
        if rates[order.last()] == phase {
            p.push(order.last())
        } else {
            p
        }
    }
}

/// `s`, `k` times over.
pub open spec fn repeat(s: Seq<int>, k: nat) -> Seq<int>
    decreases k,
{
    if k == 0 {
        Seq::empty()
    } else {
        repeat(s, (k - 1) as nat) + s
    }
}

/// The stages that runs ran, in order.
pub open spec fn stages_of(runs: Seq<StageRun>) -> Seq<int> {
    Seq::new(runs.len(), |i: int| runs[i].stage as int)
}

/// No run in `runs` was fatal.
pub open spec fn no_fatal(runs: Seq<StageRun>) -> bool {
    forall|i: int| 0 <= i < runs.len() ==> #[trigger] runs[i].outcome != StageOutcome::Fatal
}

/// The runs of a phase that stopped at a fatal failure: a non-empty prefix of
/// the plan whose last run, and only that one, was fatal.
pub open spec fn stopped_at_fatal(runs: Seq<StageRun>, plan: Seq<int>) -> bool {
    &&& 0 < runs.len() <= plan.len()
    &&& stages_of(runs) == plan.take(runs.len() as int)
    &&& runs.last().outcome == StageOutcome::Fatal
    &&& no_fatal(runs.drop_last())
}

/// Each run carries the name of its stage.
pub open spec fn named(runs: Seq<StageRun>, names: Seq<Seq<char>>) -> bool {
    forall|i: int| 0 <= i < runs.len() ==> (#[trigger] runs[i]).name@ == names[runs[i].stage as int]
}

/// `a` is a prefix of `b`.
pub open spec fn is_prefix(a: Seq<int>, b: Seq<int>) -> bool {
    a.len() <= b.len() && b.take(a.len() as int) == a
}

proof fn lemma_plan_grows(order: Seq<int>, rates: Seq<Rate>, phase: Rate, m: int, k: int)
    requires
        0 <= m <= k <= order.len(),
    ensures
        is_prefix(phase_plan(order.take(m), rates, phase), phase_plan(order.take(k), rates, phase)),
    decreases k - m,
{
    if m < k {
        lemma_plan_grows(order, rates, phase, m, k - 1);
        assert(order.take(k).drop_last() == order.take(k - 1));
        let a = phase_plan(order.take(m), rates, phase);
        let b = phase_plan(order.take(k - 1), rates, phase);
        let c = phase_plan(order.take(k), rates, phase);
        assert(c.take(b.len() as int) == b);
        assert(c.take(a.len() as int) == b.take(a.len() as int));
    } else {
        let a = phase_plan(order.take(m), rates, phase);
        assert(a.take(a.len() as int) == a);
    }
}

proof fn lemma_stages_push(runs: Seq<StageRun>, r: StageRun)
    ensures
        stages_of(runs.push(r)) == stages_of(runs).push(r.stage as int),
{
    assert(stages_of(runs.push(r)) =~= stages_of(runs).push(r.stage as int));
}

proof fn lemma_stages_add(a: Seq<StageRun>, b: Seq<StageRun>)
    ensures
        stages_of(a + b) == stages_of(a) + stages_of(b),
{
    assert(stages_of(a + b) =~= stages_of(a) + stages_of(b));
}

/// Once the accumulator is below one step, the steps taken are exactly the
/// whole steps that were pending.
proof fn lemma_steps_are_pending(v: TimeView, steps: int, left: int)
    requires
        v.fixed_step > 0,
        0 <= left < v.fixed_step,
        left == v.accumulator - steps * v.fixed_step,
    ensures
        steps == v.pending_steps(),
        v.drained() == (TimeView { accumulator: left, ..v }),
{
    crate::time::lemma_div_mod_unique(v.accumulator, v.fixed_step, steps, left);
}

/// Runs the stages of a built graph, frame after frame.
pub struct FrameScheduler<A> {
    time: Time,
    graph: StageGraph<A>,
    order: Vec<usize>,
}

impl<A> FrameScheduler<A> {
    pub closed spec fn time_view(&self) -> TimeView {
        self.time@
    }

    pub closed spec fn graph_view(&self) -> StageGraph<A> {
        self.graph
    }

    pub closed spec fn order_view(&self) -> Seq<int> {
        as_ints(self.order@)
    }

    pub open spec fn wf(&self) -> bool {
        &&& self.time_view().wf()
        &&& self.graph_view().wf()
        &&& self.graph_view().all_known()
        &&& self.order_view() == stable_order(self.graph_view().resolved())
        &&& self.order_view().len() == self.graph_view().spec_len()
        &&& forall|p: int|
            0 <= p < self.order_view().len() ==> 0 <= #[trigger] self.order_view()[p]
                < self.graph_view().spec_len()
    }

    pub open spec fn plan(&self, phase: Rate) -> Seq<int> {
        phase_plan(self.order_view(), self.graph_view().rates(), phase)
    }

    /// Resolves the graph's order once; the scheduler then runs it with the
    /// given clock. Fails as [`StageGraph::build`] does.
    pub fn new(graph: StageGraph<A>, time: Time) -> (r: Result<FrameScheduler<A>, GraphError>)
        requires
            graph.wf(),
            time@.wf(),
        ensures
            match r {
                Ok(s) => {
                    &&& s.wf()
                    &&& s.graph_view() == graph
                    &&& s.time_view() == time@
                },
                Err(e) => graph.build_error(e),
            },
    {
        match graph.build() {
            Ok(order) => {
                let s = FrameScheduler { time, graph, order };
                proof {
                    assert forall|p: int| 0 <= p < s.order_view().len() implies 0
                        <= #[trigger] s.order_view()[p] < s.graph_view().spec_len() by {
                        assert(s.order_view()[p] == order@[p] as int);
                    }
                }
                Ok(s)
            },
            Err(e) => Err(e),
        }
    }


    /// Runs, in the resolved order, every stage of the given rate, appending
    /// one record per run to `runs`. Stops after a fatal failure and returns
    /// whether one happened.
    fn run_phase<W>(&mut self, world: &mut W, phase: Rate, runs: &mut Vec<StageRun>) -> (fatal: bool) where
        A: StageAction<W>,

        requires
            old(self).wf(),
        ensures
            final(self).wf(),
            final(self).time_view() == old(self).time_view(),
            final(self).order_view() == old(self).order_view(),
            final(self).graph_view().same_shape(&old(self).graph_view()),
            final(runs)@.len() >= old(runs)@.len(),
            final(runs)@.take(old(runs)@.len() as int) == old(runs)@,
            named(final(runs)@.skip(old(runs)@.len() as int), old(self).graph_view().names()),
            !fatal ==> stages_of(final(runs)@.skip(old(runs)@.len() as int)) == old(self).plan(phase)
                && no_fatal(final(runs)@.skip(old(runs)@.len() as int)),
            fatal ==> stopped_at_fatal(final(runs)@.skip(old(runs)@.len() as int), old(self).plan(phase)),
    {
        let ghost s0 = *self;
        let ghost base = runs@;
        let ghost order = s0.order_view();
        let ghost rates = s0.graph_view().rates();
        let ctx = StageContext {
            phase,
            delta_nanos: self.time.delta_nanos(),
            fixed_step_nanos: self.time.fixed_step_nanos(),
        };
        let n = self.order.len();
        let mut idx: usize = 0;
        let mut fatal = false;
        while idx < n && !fatal
            invariant
                n == order.len(),
                idx <= n,
                self.wf(),
                self.time_view() == s0.time_view(),
                self.order_view() == order,
                self.graph_view().same_shape(&s0.graph_view()),
                rates == s0.graph_view().rates(),
                runs@.len() >= base.len(),
                runs@.take(base.len() as int) == base,
                named(runs@.skip(base.len() as int), s0.graph_view().names()),
                !fatal ==> stages_of(runs@.skip(base.len() as int)) == phase_plan(
                    order.take(idx as int),
                    rates,
                    phase,
                ),
                !fatal ==> no_fatal(runs@.skip(base.len() as int)),
                fatal ==> stopped_at_fatal(
                    runs@.skip(base.len() as int),
                    phase_plan(order, rates, phase),
                ),
            decreases n - idx + (if fatal { 0int } else { 1int }),
        {
            let i = self.order[idx];
            proof {
                assert(order[idx as int] == i as int);
                assert(order.take(idx + 1).drop_last() == order.take(idx as int));
                assert(order.take(idx + 1).last() == i as int);
            }
            if self.graph.rate(i) == phase {
                let ghost g_before = self.graph;
                let outcome = self.graph.action_mut(i).run(world, &ctx);
                proof {
                    g_before.lemma_action_keeps_shape(&self.graph, i as int, self.graph.spec_stages()[i as int].action);
                    g_before.lemma_same_shape_resolves(&self.graph);
                    self.graph.lemma_same_shape_resolves(&s0.graph_view());
                }
                let name = self.graph.name(i).clone();
                let ghost before_runs = runs@;
                let run = StageRun { stage: i, name, outcome };
                runs.push(run);
                proof {
                    assert(runs@.take(base.len() as int) == base) by {
                        assert(runs@.take(base.len() as int) =~= before_runs.take(base.len() as int));
                    }
                    let added_before = before_runs.skip(base.len() as int);
                    assert(runs@.skip(base.len() as int) =~= added_before.push(run));
                    lemma_stages_push(added_before, run);
                    assert(named(runs@.skip(base.len() as int), s0.graph_view().names()));
                }
                if outcome == StageOutcome::Fatal {
                    proof {
                        lemma_plan_grows(order, rates, phase, idx + 1, n as int);
                        assert(order.take(n as int) == order);
                        let added = runs@.skip(base.len() as int);
                        assert(added.drop_last() =~= before_runs.skip(base.len() as int));
                    }
                    fatal = true;
                }
            }
            if !fatal {
                idx = idx + 1;
            }
        }
        proof {
            assert(order.take(n as int) == order);
        }
        fatal
    }

    /// One frame, read from the clock now; see [`FrameScheduler::tick_at`].
    pub fn tick<W>(&mut self, world: &mut W) -> (r: TickReport) where A: StageAction<W>
        requires
            old(self).wf(),
        ensures
            final(self).wf(),
            final(self).graph_view().same_shape(&old(self).graph_view()),
            exists|now: int| 0 <= now <= u64::MAX && old(self).tick_outcome(now, final(self).time_view(), r),
    {
        let now = self.time.total_time();
        self.tick_at(world, now)
    }

    /// What a tick read at `now` owes: the clock advances to `now`; each
    /// whole fixed step is consumed and followed by one pass of the fixed
    /// stages; then the variable stages run once. All runs follow the
    /// resolved order. A fatal failure ends the tick at once, leaving
    /// unconsumed steps in the accumulator.
    pub open spec fn tick_outcome(&self, now: int, t: TimeView, r: TickReport) -> bool {
        let v = self.time_view().advanced(now);
        let fp = self.plan(Rate::Fixed);
        let vp = self.plan(Rate::Variable);
        let names = self.graph_view().names();
        let done = repeat(fp, (r.fixed_steps - 1) as nat).len() as int;
        &&& r.fixed_steps <= v.pending_steps()
        &&& t == (TimeView { accumulator: v.accumulator - r.fixed_steps * v.fixed_step, ..v })
        &&& named(r.fixed_runs@, names)
        &&& named(r.variable_runs@, names)
        &&& if !r.aborted {
            &&& r.fixed_steps == v.pending_steps()
            &&& t == v.drained()
            &&& stages_of(r.fixed_runs@) == repeat(fp, r.fixed_steps as nat)
            &&& no_fatal(r.fixed_runs@)
            &&& stages_of(r.variable_runs@) == vp
            &&& no_fatal(r.variable_runs@)
        } else if r.variable_runs@.len() == 0 && r.fixed_steps >= 1 && r.fixed_runs@.len() > done
            && stopped_at_fatal(r.fixed_runs@.skip(done), fp) {
            &&& stages_of(r.fixed_runs@.take(done)) == repeat(fp, (r.fixed_steps - 1) as nat)
            &&& no_fatal(r.fixed_runs@.take(done))
        } else {
            &&& r.fixed_steps == v.pending_steps()
            &&& stages_of(r.fixed_runs@) == repeat(fp, r.fixed_steps as nat)
            &&& no_fatal(r.fixed_runs@)
            &&& stopped_at_fatal(r.variable_runs@, vp)
        }
    }

    /// One frame read at `now` (nanoseconds since the clock's start); see
    /// [`FrameScheduler::tick_outcome`].
    pub fn tick_at<W>(&mut self, world: &mut W, now: u64) -> (r: TickReport) where
        A: StageAction<W>,

        requires
            old(self).wf(),
        ensures
            final(self).wf(),
            final(self).graph_view().same_shape(&old(self).graph_view()),
            old(self).tick_outcome(now as int, final(self).time_view(), r),
    {
        let ghost s0 = *self;
        self.time.update_at(now);
        let ghost v = self.time@;
        let ghost fp = s0.plan(Rate::Fixed);
        let ghost names = s0.graph_view().names();
        let mut fixed_runs: Vec<StageRun> = Vec::new();
        let mut variable_runs: Vec<StageRun> = Vec::new();
        let mut steps: u64 = 0;
        let mut aborted = false;
        proof {
            assert(stages_of(fixed_runs@) =~= repeat(fp, 0));
        }
        while !aborted && self.time.should_fixed_update()
            invariant
                self.wf(),
                v.wf(),
                v == s0.time_view().advanced(now as int),
                names == s0.graph_view().names(),
                fp == s0.plan(Rate::Fixed),
                self.order_view() == s0.order_view(),
                self.graph_view().same_shape(&s0.graph_view()),
                self.time_view() == (TimeView { accumulator: v.accumulator - steps * v.fixed_step, ..v }),
                steps * v.fixed_step <= v.accumulator,
                named(fixed_runs@, names),
                variable_runs@.len() == 0,
                !aborted ==> stages_of(fixed_runs@) == repeat(fp, steps as nat) && no_fatal(fixed_runs@),
                aborted ==> steps >= 1 && fixed_runs@.len() > repeat(fp, (steps - 1) as nat).len()
                    && stopped_at_fatal(fixed_runs@.skip(repeat(fp, (steps - 1) as nat).len() as int), fp)
                    && stages_of(fixed_runs@.take(repeat(fp, (steps - 1) as nat).len() as int))
                    == repeat(fp, (steps - 1) as nat)
                    && no_fatal(fixed_runs@.take(repeat(fp, (steps - 1) as nat).len() as int)),
            decreases self.time_view().accumulator + (if aborted { 0int } else { 1int }),
        {
            proof {
                assert((steps + 1) * v.fixed_step <= v.accumulator) by (nonlinear_arith)
                    requires
                        self.time_view().accumulator >= v.fixed_step,
                        self.time_view().accumulator == v.accumulator - steps * v.fixed_step,
                ;
                assert(steps + 1 <= v.accumulator) by (nonlinear_arith)
                    requires
                        (steps + 1) * v.fixed_step <= v.accumulator,
                        v.fixed_step > 0,
                ;
                assert(self.time_view().accumulator - v.fixed_step == v.accumulator - (steps + 1)
                    * v.fixed_step) by (nonlinear_arith)
                    requires
                        self.time_view().accumulator == v.accumulator - steps * v.fixed_step,
                ;
            }
            self.time.consume_fixed_update();
            steps = steps + 1;
            let ghost before = fixed_runs@;
            proof {
                assert(self.graph_view().names() == names);
                assert(self.plan(Rate::Fixed) == fp);
            }
            let fatal = self.run_phase(world, Rate::Fixed, &mut fixed_runs);
            proof {
                let added = fixed_runs@.skip(before.len() as int);
                assert(named(added, names));
                assert(!fatal ==> stages_of(added) == fp && no_fatal(added));
                assert(fatal ==> stopped_at_fatal(added, fp));
                self.graph.lemma_same_shape_resolves(&s0.graph);
                assert(fixed_runs@ =~= before + fixed_runs@.skip(before.len() as int));
                lemma_stages_add(before, fixed_runs@.skip(before.len() as int));
                assert(named(fixed_runs@, names)) by {
                    assert forall|k: int| 0 <= k < fixed_runs@.len() implies (#[trigger] fixed_runs@[k]).name@
                        == names[fixed_runs@[k].stage as int] by {
                        if k < before.len() {
                            assert(fixed_runs@[k] == before[k]);
                        } else {
                            assert(fixed_runs@[k] == fixed_runs@.skip(before.len() as int)[k - before.len()]);
                        }
                    }
                }
                assert(repeat(fp, steps as nat) == repeat(fp, (steps - 1) as nat) + fp);
                if !fatal {
                    assert forall|k: int| 0 <= k < fixed_runs@.len() implies #[trigger] fixed_runs@[k].outcome
                        != StageOutcome::Fatal by {
                        if k < before.len() {
                            assert(fixed_runs@[k] == before[k]);
                        } else {
                            assert(fixed_runs@[k] == fixed_runs@.skip(before.len() as int)[k - before.len()]);
                        }
                    }
                } else {
                    assert(fixed_runs@.take(before.len() as int) == before);
                }
            }
            if fatal {
                aborted = true;
            }
        }
        if !aborted {
            proof {
                lemma_steps_are_pending(v, steps as int, self.time_view().accumulator);
            }
            proof {
                assert(self.graph_view().names() == names);
                assert(self.plan(Rate::Variable) == s0.plan(Rate::Variable));
            }
            let fatal = self.run_phase(world, Rate::Variable, &mut variable_runs);
            proof {
                self.graph.lemma_same_shape_resolves(&s0.graph);
                assert(variable_runs@.skip(0) == variable_runs@);
            }
            aborted = fatal;
        }
        let r = TickReport { fixed_steps: steps, fixed_runs, variable_runs, aborted };
        proof {
            vstd::arithmetic::div_mod::lemma_div_is_ordered(steps * v.fixed_step, v.accumulator, v.fixed_step);
            vstd::arithmetic::div_mod::lemma_div_by_multiple(steps as int, v.fixed_step);
            assert(r.fixed_steps <= v.pending_steps());
            assert(self.time_view() == (TimeView { accumulator: v.accumulator - r.fixed_steps * v.fixed_step, ..v }));
            assert(named(r.fixed_runs@, names));
            assert(named(r.variable_runs@, names));
        }
        r
    }

    /// The clock.
    pub fn time(&self) -> (r: &Time)
        ensures
            r@ == self.time_view(),
    {
        &self.time
    }

    /// The stages.
    pub fn graph(&self) -> (r: &StageGraph<A>)
        ensures
            *r == self.graph_view(),
    {
        &self.graph
    }

    /// The resolved order, as stage positions.
    pub fn order(&self) -> (r: &Vec<usize>)
        ensures
            as_ints(r@) == self.order_view(),
    {
        &self.order
    }
}

} // verus!
