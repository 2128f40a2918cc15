//! Batch training: the plan of batches, one headless run, and the choice of
//! the best learned table.
use vstd::prelude::*;
use crate::qlearning::{sum_of, QLearning};
use crate::simulation::{fresh, step_post, total_of, Simulation, TickDraws};
use crate::vehicle::MAX_DT;

verus! {

/// Time step of a headless training run, in microseconds.
pub const TRAINING_DT: u64 = 10000;

/// How many runs to make, how long each lasts, and how many run at once.
#[derive(Clone, Copy, Debug, PartialEq, Eq, Structural)]
pub struct TrainerConfig {
    pub simulation_count: usize,
    /// Simulated duration of one run, in microseconds.
    pub run_duration: u64,
    pub batch_size: usize,
}

/// What a headless run observed: the sum of the total volume after each
/// tick, and the number of ticks.
#[derive(Clone, Copy, Debug, PartialEq, Eq, Structural)]
pub struct RunStats {
    pub volume_sum: u128,
    pub ticks: u64,
}

/// The size of batch `i` when `count` runs go in batches of at most `batch`.
pub open spec fn batch_size_at(count: int, batch: int, i: int) -> int {
    if count - i * batch < batch { count - i * batch } else { batch }
}

/// The number of batches for `count` runs in batches of at most `batch`.
pub open spec fn batch_count(count: int, batch: int) -> int {
    (count + batch - 1) / batch
}

/// The sum of the first `k` batch sizes.
pub open spec fn planned_runs(count: int, batch: int, k: nat) -> int
    decreases k,
{
    if k == 0 {
        0
    } else {
        planned_runs(count, batch, (k - 1) as nat) + batch_size_at(count, batch, k - 1)
    }
}

/// The ticks of a run of `duration` microseconds in steps of `dt`.
pub open spec fn tick_count(duration: int, dt: int) -> int {
    (duration + dt - 1) / dt
}

proof fn lemma_planned_prefix(count: int, batch: int, k: nat)
    requires
        batch > 0,
        k * batch <= count,
    ensures
        planned_runs(count, batch, k) == k * batch,
    decreases k,
{
    if k > 0 {
        assert((k - 1) * batch <= count) by (nonlinear_arith)
            requires
                k * batch <= count,
                batch > 0,
                k > 0,
        ;
        lemma_planned_prefix(count, batch, (k - 1) as nat);
        assert(count - (k - 1) * batch >= batch) by (nonlinear_arith)
            requires
                k * batch <= count,
        ;
        assert((k - 1) * batch + batch == k * batch) by (nonlinear_arith);
        assert(batch_size_at(count, batch, k - 1) == batch);
        assert(planned_runs(count, batch, k) == planned_runs(count, batch, (k - 1) as nat)
            + batch_size_at(count, batch, k - 1));
    } else {
        assert(k * batch == 0) by (nonlinear_arith)
            requires
                k == 0,
        ;
    }
}

/// Running the planned batches makes exactly `count` runs: every batch but
/// the last is full, and the last holds the rest.
pub proof fn lemma_batches_cover(count: int, batch: int)
    requires
        count >= 0,
        batch > 0,
    ensures
        planned_runs(count, batch, batch_count(count, batch) as nat) == count,
        forall|i: int| 0 <= i < batch_count(count, batch) ==> 0 < #[trigger] batch_size_at(count, batch, i) <= batch,
{
    let n = batch_count(count, batch);
    vstd::arithmetic::div_mod::lemma_fundamental_div_mod(count + batch - 1, batch);
    let rm = (count + batch - 1) % batch;
    assert(count + batch - 1 == batch * n + rm);
    assert(n >= 0) by {
        vstd::arithmetic::div_mod::lemma_div_pos_is_pos(count + batch - 1, batch);
    }
    if n > 0 {
        assert((n - 1) * batch <= count - 1) by (nonlinear_arith)
            requires
                count + batch - 1 == batch * n + rm,
                0 <= rm < batch,
        ;
        assert(count <= n * batch) by (nonlinear_arith)
            requires
                count + batch - 1 == batch * n + rm,
                0 <= rm < batch,
        ;
        lemma_planned_prefix(count, batch, (n - 1) as nat);
        assert(planned_runs(count, batch, n as nat) == planned_runs(count, batch, (n - 1) as nat)
            + batch_size_at(count, batch, n - 1));
        assert((n - 1) * batch + batch == n * batch) by (nonlinear_arith);
        assert forall|i: int| 0 <= i < n implies 0 < #[trigger] batch_size_at(count, batch, i) <= batch by {
            assert(i * batch <= (n - 1) * batch) by (nonlinear_arith)
                requires
                    i <= n - 1,
                    batch > 0,
            ;
        }
    } else {
        assert(count == 0) by (nonlinear_arith)
            requires
                count + batch - 1 == batch * n + rm,
                0 <= rm < batch,
                n == 0,
                count >= 0,
        ;
    }
}

/// The sizes of the batches that make `simulation_count` runs, in order.
pub fn batch_plan(config: &TrainerConfig) -> (r: Vec<usize>)
    requires
        config.batch_size > 0,
    ensures
        r@.len() == batch_count(config.simulation_count as int, config.batch_size as int),
        forall|i: int| 0 <= i < r@.len() ==> #[trigger] r@[i]
            == batch_size_at(config.simulation_count as int, config.batch_size as int, i),
{
    let count = config.simulation_count;
    let batch = config.batch_size;
    let mut plan: Vec<usize> = Vec::new();
    let mut done: usize = 0;
    assert(0 * batch == 0);
    while done < count
        invariant
            batch > 0,
            done <= count,
            done == plan@.len() * batch || (done == count && (plan@.len() - 1) * batch < count < plan@.len() * batch),
            forall|i: int| 0 <= i < plan@.len() ==> #[trigger] plan@[i] == batch_size_at(count as int, batch as int, i),
        decreases count - done,
    {
        let size = if count - done < batch { count - done } else { batch };
        let ghost k = plan@.len();
        proof {
            assert(done == k * batch);
            assert((k + 1) * batch == k * batch + batch) by (nonlinear_arith);
        }
        plan.push(size);
        done = done + size;
    }
    proof {
        let k = plan@.len() as int;
        let b = batch as int;
        let c = count as int;
        if done == k * batch {
            assert(c + b - 1 == k * b + (b - 1));
            vstd::arithmetic::div_mod::lemma_fundamental_div_mod_converse(c + b - 1, b, k, b - 1);
        } else {
            assert((k - 1) * b == k * b - b) by (nonlinear_arith);
            vstd::arithmetic::div_mod::lemma_fundamental_div_mod_converse(c + b - 1, b, k, c + b - 1 - k * b);
        }
    }
    plan
}

/// The total volumes after ticks 1 through `k` of a run, added up.
pub open spec fn volume_after_ticks(states: Seq<Simulation>, k: nat) -> int
    decreases k,
{
    if k == 0 {
        0
    } else {
        volume_after_ticks(states, (k - 1) as nat) + total_of(states[k as int].intersection_manager.intersection_volume@)
    }
}

/// `states` are the successive states of ticks of `dt` microseconds, tick
/// `i` taking the well-formed random outcomes `draws[i]`.
pub open spec fn is_run(states: Seq<Simulation>, draws: Seq<TickDraws>, dt: u64) -> bool {
    &&& states.len() == draws.len() + 1
    &&& forall|i: int| 0 <= i < draws.len() ==> (#[trigger] draws[i]).wf()
        && step_post(states[i], states[i + 1], dt, draws[i])
}

/// Runs a simulation headless for `run_duration` microseconds in steps of
/// `dt`, adding up the total volume after every tick.
pub fn run_headless(simulation: &mut Simulation, run_duration: u64, dt: u64) -> (r: RunStats)
    requires
        old(simulation).wf(),
        0 < dt <= MAX_DT,
    ensures
        final(simulation).wf(),
        r.ticks == tick_count(run_duration as int, dt as int),
        r.volume_sum <= r.ticks * (4 * u32::MAX),
        exists|states: Seq<Simulation>, draws: Seq<TickDraws>| {
            &&& #[trigger] is_run(states, draws, dt)
            &&& states[0] == *old(simulation)
            &&& states.last() == *final(simulation)
            &&& draws.len() == r.ticks
            &&& r.volume_sum == volume_after_ticks(states, r.ticks as nat)
        },
{
    let ghost states: Seq<Simulation> = seq![*simulation];
    let ghost draws: Seq<TickDraws> = Seq::empty();
    let mut elapsed: u128 = 0;
    let mut ticks: u64 = 0;
    let mut volume_sum: u128 = 0;
    while elapsed < run_duration as u128
        invariant
            simulation.wf(),
            0 < dt <= MAX_DT,
            elapsed == ticks * dt,
            ticks <= run_duration,
            ticks > 0 ==> (ticks - 1) * dt < run_duration,
            volume_sum <= ticks * (4 * u32::MAX),
            is_run(states, draws, dt),
            states[0] == *old(simulation),
            states.last() == *simulation,
            draws.len() == ticks,
            volume_sum == volume_after_ticks(states, ticks as nat),
        decreases run_duration - ticks,
    {
        let ghost before = *simulation;
        simulation.update(dt);
        let total = simulation.total_volume();
        proof {
            let d = choose|d: TickDraws| d.wf() && d.explore_draw < crate::qlearning::EPSILON_SCALE
                && #[trigger] step_post(before, *simulation, dt, d);
            let states0 = states;
            let draws0 = draws;
            states = states.push(*simulation);
            draws = draws.push(d);
            assert forall|i: int| 0 <= i < draws.len() implies (#[trigger] draws[i]).wf()
                && step_post(states[i], states[i + 1], dt, draws[i]) by {
                if i < draws0.len() {
                    assert(draws[i] == draws0[i]);
                    assert(states[i] == states0[i]);
                    assert(states[i + 1] == states0[i + 1]);
                }
            }
            assert(states[ticks + 1] == *simulation);
            assert(volume_after_ticks(states, ticks as nat) == volume_after_ticks(states0, ticks as nat)) by {
                lemma_volume_prefix(states0, states, ticks as nat);
            }
        }
        proof {
            assert(ticks * dt < run_duration);
            assert(ticks + 1 <= run_duration) by (nonlinear_arith)
                requires
                    ticks * dt < run_duration,
                    dt >= 1,
            ;
            assert((ticks + 1) * dt == ticks * dt + dt) by (nonlinear_arith);
            assert((ticks + 1) * (4 * u32::MAX) == ticks * (4 * u32::MAX) + 4 * u32::MAX) by (nonlinear_arith);
            assert(ticks * (4 * u32::MAX) <= u64::MAX * (4 * u32::MAX)) by (nonlinear_arith)
                requires
                    ticks <= u64::MAX,
            ;
        }
        volume_sum = volume_sum + total as u128;
        ticks = ticks + 1;
        elapsed = elapsed + dt as u128;
    }
    proof {
        let d = run_duration as int;
        let t = dt as int;
        if ticks == 0 {
            assert(d == 0);
            vstd::arithmetic::div_mod::lemma_fundamental_div_mod_converse(d + t - 1, t, 0, t - 1);
        } else {
            assert((ticks - 1) * t == ticks * t - t) by (nonlinear_arith);
            vstd::arithmetic::div_mod::lemma_fundamental_div_mod_converse(d + t - 1, t, ticks as int, d + t - 1 - ticks * t);
        }
    }
    proof {
        assert(is_run(states, draws, dt));
    }
    RunStats { volume_sum, ticks }
}

/// The volume total of a run depends only on the states it adds up.
proof fn lemma_volume_prefix(a: Seq<Simulation>, b: Seq<Simulation>, k: nat)
    requires
        k < a.len(),
        k < b.len(),
        forall|i: int| 0 <= i <= k ==> a[i] == b[i],
    ensures
        volume_after_ticks(a, k) == volume_after_ticks(b, k),
    decreases k,
{
    if k > 0 {
        lemma_volume_prefix(a, b, (k - 1) as nat);
    }
}

/// One training run: a fresh simulation run headless for `run_duration`
/// microseconds in steps of `TRAINING_DT`.
pub fn run_simulation(run_duration: u64) -> (r: (Simulation, RunStats))
    ensures
        r.0.wf(),
        r.1.ticks == tick_count(run_duration as int, TRAINING_DT as int),
        r.1.volume_sum <= r.1.ticks * (4 * u32::MAX),
        exists|states: Seq<Simulation>, draws: Seq<TickDraws>| {
            &&& #[trigger] is_run(states, draws, TRAINING_DT)
            &&& fresh(states[0])
            &&& states.last() == r.0
            &&& draws.len() == r.1.ticks
            &&& r.1.volume_sum == volume_after_ticks(states, r.1.ticks as nat)
        },
{
    let mut simulation = Simulation::new();
    let stats = run_headless(&mut simulation, run_duration, TRAINING_DT);
    (simulation, stats)
}

impl RunStats {
    /// The average total volume per tick in millionths of a vehicle, or zero without ticks.
    pub fn average_volume_micro(&self) -> (r: u128)
        requires
            self.volume_sum <= self.ticks * (4 * u32::MAX),
        ensures
            self.ticks > 0 ==> r == self.volume_sum * 1000000 / (self.ticks as int),
            self.ticks == 0 ==> r == 0,
    {
        if self.ticks > 0 {
            proof {
                assert(self.volume_sum * 1000000 <= u64::MAX * (4 * u32::MAX) * 1000000) by (nonlinear_arith)
                    requires
                        self.volume_sum <= self.ticks * (4 * u32::MAX),
                        self.ticks <= u64::MAX,
                ;
            }
            self.volume_sum * 1000000 / self.ticks as u128
        } else {
            0
        }
    }
}

/// The index of the table with the largest sum of Q-values; among equal
/// sums the last one, or `None` when there is no table.
pub fn select_best(tables: &Vec<QLearning>) -> (r: Option<usize>)
    requires
        forall|i: int| 0 <= i < tables@.len() ==> (#[trigger] tables@[i]).wf(),
    ensures
        tables@.len() == 0 <==> r is None,
        r matches Some(b) ==> {
            &&& b < tables@.len()
            &&& forall|j: int| 0 <= j < tables@.len() ==> sum_of((#[trigger] tables@[j]).cells()) <= sum_of(tables@[b as int].cells())
            &&& forall|j: int| b < j < tables@.len() ==> sum_of((#[trigger] tables@[j]).cells()) < sum_of(tables@[b as int].cells())
        },
{
    if tables.len() == 0 {
        return None;
    }
    let mut best: usize = 0;
    let mut best_sum = tables[0].table_sum();
    let mut i: usize = 1;
    while i < tables.len()
        invariant
            forall|k: int| 0 <= k < tables@.len() ==> (#[trigger] tables@[k]).wf(),
            1 <= i <= tables@.len(),
            best < i,
            best_sum == sum_of(tables@[best as int].cells()),
            forall|j: int| 0 <= j < i ==> sum_of((#[trigger] tables@[j]).cells()) <= sum_of(tables@[best as int].cells()),
            forall|j: int| best < j < i ==> sum_of((#[trigger] tables@[j]).cells()) < sum_of(tables@[best as int].cells()),
        decreases tables@.len() - i,
    {
        let s = tables[i].table_sum();
        if s >= best_sum {
            best = i;
            best_sum = s;
        }
        i += 1;
    }
    Some(best)
}

/// At most one index is the last among the largest table sums, so the
/// choice depends on the tables alone.
pub proof fn lemma_best_unique(tables: Seq<QLearning>, a: int, b: int)
    requires
        0 <= a < tables.len(),
        0 <= b < tables.len(),
        forall|j: int| 0 <= j < tables.len() ==> sum_of((#[trigger] tables[j]).cells()) <= sum_of(tables[a].cells()),
        forall|j: int| a < j < tables.len() ==> sum_of((#[trigger] tables[j]).cells()) < sum_of(tables[a].cells()),
        forall|j: int| 0 <= j < tables.len() ==> sum_of((#[trigger] tables[j]).cells()) <= sum_of(tables[b].cells()),
        forall|j: int| b < j < tables.len() ==> sum_of((#[trigger] tables[j]).cells()) < sum_of(tables[b].cells()),
    ensures
        a == b,
{
    if a < b {
        assert(sum_of(tables[b].cells()) < sum_of(tables[a].cells()));
        assert(sum_of(tables[a].cells()) <= sum_of(tables[b].cells()));
    } else if b < a {
        assert(sum_of(tables[a].cells()) < sum_of(tables[b].cells()));
        assert(sum_of(tables[b].cells()) <= sum_of(tables[a].cells()));
    }
}

} // verus!
