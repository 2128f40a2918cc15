//! The per-tick driver: admission, kinematics, expiry, spawning, reactive
//! stops, stop-light timers and the learning controller.
use vstd::prelude::*;
use crate::geometry::{rectangles_intersect, sat_intersect, Rectangle};
use crate::intersection_manager::{IntersectionManager, ACTION_COUNT, OBS_SIZE};
use crate::qlearning::{QLearning, REWARD_SCALE};
use crate::stop_light::StopLight;
use crate::chance::random_below;
use crate::vehicle::{out_of_world, spawned, Vehicle, MAX_DT};

verus! {

/// Time between spawns, in microseconds: a vehicle spawns once more than this has passed.
pub const SPAWN_INTERVAL: u64 = 20000;

/// Time between controller decisions, in microseconds.
pub const CONTROL_INTERVAL: u64 = 100000;

/// Initial speed of a spawned vehicle, in pixels per second.
pub const SPAWN_SPEED: u32 = 50;

/// Width and height of a spawned vehicle, in pixels.
pub const VEHICLE_SIZE: u32 = 10;

/// The number of entrances, two lanes on each of four approaches.
pub const ENTRANCE_COUNT: u32 = 8;

/// The quadrant, or approach, of an entrance.
pub open spec fn quadrant(entrance: u32) -> int {
    entrance as int / 2
}

/// How many of the entrances belong to quadrant `q`.
pub open spec fn count_quadrant(es: Seq<u32>, q: int) -> nat
    decreases es.len(),
{
    if es.len() == 0 {
        0
    } else {
        count_quadrant(es.drop_last(), q) + if quadrant(es.last()) == q { 1nat } else { 0nat }
    }
}

/// The entrances of a sequence of vehicles.
pub open spec fn entrances(vs: Seq<Vehicle>) -> Seq<u32> {
    vs.map_values(|v: Vehicle| v.entrance)
}

/// A vehicle that is well formed and inside the world.
pub open spec fn settled(v: Vehicle) -> bool {
    v.wf() && !out_of_world(v.bounds.x as int, v.bounds.y as int)
}

pub proof fn lemma_count_concat(a: Seq<u32>, b: Seq<u32>, q: int)
    ensures
        count_quadrant(a + b, q) == count_quadrant(a, q) + count_quadrant(b, q),
    decreases b.len(),
{
    if b.len() == 0 {
        assert(a + b == a);
    } else {
        assert((a + b).drop_last() == a + b.drop_last());
        lemma_count_concat(a, b.drop_last(), q);
    }
}

proof fn lemma_count_single(e: u32, q: int)
    ensures
        count_quadrant(seq![e], q) == if quadrant(e) == q { 1nat } else { 0nat },
{
    reveal_with_fuel(count_quadrant, 2);
    assert(seq![e].drop_last() =~= Seq::<u32>::empty());
    assert(seq![e].last() == e);
    assert(count_quadrant(Seq::<u32>::empty(), q) == 0);
}

/// Removing one entrance lowers the count of its quadrant by one.
proof fn lemma_count_remove(es: Seq<u32>, i: int, q: int)
    requires
        0 <= i < es.len(),
    ensures
        count_quadrant(es, q) == count_quadrant(es.remove(i), q) + if quadrant(es[i]) == q { 1nat } else { 0nat },
{
    let a = es.subrange(0, i);
    let b = es.subrange(i + 1, es.len() as int);
    assert(es == a + seq![es[i]] + b);
    assert(es.remove(i) == a + b);
    lemma_count_concat(a + seq![es[i]], b, q);
    lemma_count_concat(a, seq![es[i]], q);
    lemma_count_concat(a, b, q);
    lemma_count_single(es[i], q);
}

/// The index of the first vehicle from `entrance` at or after `from`, or the length if none.
pub open spec fn find_entrance(s: Seq<Vehicle>, entrance: u32, from: int) -> int
    decreases s.len() - from,
{
    if from < 0 || from >= s.len() {
        s.len() as int
    } else if s[from].entrance == entrance {
        from
    } else {
        find_entrance(s, entrance, from + 1)
    }
}

/// The rectangle overlaps none of the vehicles' bounds.
pub open spec fn clear_of(r: Rectangle, vs: Seq<Vehicle>) -> bool {
    forall|j: int| 0 <= j < vs.len() ==> !#[trigger] sat_intersect(r, vs[j].bounds)
}

/// One admission attempt for `entrance`: the head of its queue joins the
/// active vehicles if it overlaps none of them.
pub open spec fn promote_one(active: Seq<Vehicle>, pending: Seq<Vehicle>, entrance: u32) -> (Seq<Vehicle>, Seq<Vehicle>) {
    let i = find_entrance(pending, entrance, 0);
    if i < pending.len() && clear_of(pending[i].bounds, active) {
        (active.push(pending[i]), pending.remove(i))
    } else {
        (active, pending)
    }
}

/// Admission attempts for entrances `entrance` through 7, in order.
pub open spec fn promote_from(active: Seq<Vehicle>, pending: Seq<Vehicle>, entrance: nat) -> (Seq<Vehicle>, Seq<Vehicle>)
    decreases 8 - entrance,
{
    if entrance >= 8 {
        (active, pending)
    } else {
        let (a, p) = promote_one(active, pending, entrance as u32);
        promote_from(a, p, entrance + 1)
    }
}

/// The state of a new simulation: an empty world at time zero, zero
/// volumes, four stopped manual lights, and a zero 9 by 5 table with the
/// default rates.
pub open spec fn fresh(r: Simulation) -> bool {
    &&& r.vehicles@.len() == 0
    &&& r.release_queue@.len() == 0
    &&& r.intersection_manager.intersection_volume@ == seq![0u32, 0, 0, 0]
    &&& forall|i: int| 0 <= i < 4 ==> #[trigger] r.intersection_manager.stop_lights@[i] == (StopLight {
            line: crate::stop_light::light_line(i as u32),
            flipped_at: 0,
            active: false,
            queued: false,
            queued_at: 0,
            policy: crate::stop_light::LightPolicy::Manual,
        })
    &&& forall|s: int, a: int| 0 <= s < OBS_SIZE && 0 <= a < ACTION_COUNT ==> #[trigger] r.qlearning.q(s, a) == 0
    &&& r.qlearning.learning_rate_spec() == 100
    &&& r.qlearning.discount_spec() == 990
    &&& r.qlearning.epsilon_spec() == crate::qlearning::EPSILON_SCALE
    &&& r.qlearning.epsilon_decay_spec() == 995
    &&& r.id_counter == 0
    &&& r.clock == 0
    &&& r.last_spawn == 0
    &&& r.last_light_change == 0
    &&& r.min_volume == u64::MAX
    &&& r.max_volume == 0
}

pub struct Simulation {
    /// Vehicles on the road.
    pub vehicles: Vec<Vehicle>,
    /// Vehicles waiting to enter, oldest first; the queue of an entrance is
    /// the subsequence of its vehicles.
    pub release_queue: Vec<Vehicle>,
    pub id_counter: usize,
    pub intersection_manager: IntersectionManager,
    pub qlearning: QLearning,
    /// Simulated time, in microseconds.
    pub clock: u64,
    pub last_spawn: u64,
    pub last_light_change: u64,
    /// Least total volume seen by the reward, or `u64::MAX` before the first.
    pub min_volume: u64,
    /// Greatest total volume seen by the reward, or zero before the first.
    pub max_volume: u64,
}

impl Simulation {
    /// Every vehicle is well formed and inside the world, each quadrant's
    /// volume counts exactly its vehicles, queued or active, and the
    /// controller's table matches the observation and the actions.
    pub open spec fn wf(&self) -> bool {
        &&& self.intersection_manager.wf()
        &&& self.qlearning.wf()
        &&& self.qlearning.rows() == OBS_SIZE
        &&& self.qlearning.cols() == ACTION_COUNT
        &&& forall|i: int| 0 <= i < self.vehicles@.len() ==> settled(#[trigger] self.vehicles@[i])
        &&& forall|i: int| 0 <= i < self.release_queue@.len() ==> settled(#[trigger] self.release_queue@[i])
        &&& forall|q: int| 0 <= q < 4 ==> #[trigger] self.intersection_manager.intersection_volume@[q]
            == count_quadrant(entrances(self.vehicles@), q) + count_quadrant(entrances(self.release_queue@), q)
        &&& self.last_spawn <= self.clock
        &&& self.last_light_change <= self.clock
        &&& self.min_volume == u64::MAX ==> self.max_volume == 0
        &&& self.min_volume != u64::MAX ==> self.min_volume <= self.max_volume <= 4 * u32::MAX
    }

    /// An empty world at time zero with stopped lights and a zero table.
    pub fn new() -> (r: Self)
        ensures
            r.wf(),
            fresh(r),
    {
        let intersection_manager = IntersectionManager::new();
        let qlearning = QLearning::new(OBS_SIZE, ACTION_COUNT);
        let r = Simulation {
            vehicles: Vec::new(),
            release_queue: Vec::new(),
            id_counter: 0,
            intersection_manager,
            qlearning,
            clock: 0,
            last_spawn: 0,
            last_light_change: 0,
            min_volume: u64::MAX,
            max_volume: 0,
        };
        proof {
            assert(entrances(r.vehicles@) =~= Seq::<u32>::empty());
            assert(entrances(r.release_queue@) =~= Seq::<u32>::empty());
        }
        r
    }
}

fn find_entrance_exec(s: &Vec<Vehicle>, entrance: u32) -> (r: usize)
    ensures
        r == find_entrance(s@, entrance, 0),
{
    let mut i: usize = 0;
    while i < s.len()
        invariant
            0 <= i <= s@.len(),
            find_entrance(s@, entrance, 0) == find_entrance(s@, entrance, i as int),
        decreases s@.len() - i,
    {
        if s[i].entrance == entrance {
            return i;
        }
        i += 1;
    }
    i
}

fn clear_of_exec(r: &Rectangle, vs: &Vec<Vehicle>) -> (b: bool)
    requires
        r.wf(),
        forall|i: int| 0 <= i < vs@.len() ==> settled(#[trigger] vs@[i]),
    ensures
        b == clear_of(*r, vs@),
{
    let mut j: usize = 0;
    while j < vs.len()
        invariant
            r.wf(),
            forall|i: int| 0 <= i < vs@.len() ==> settled(#[trigger] vs@[i]),
            0 <= j <= vs@.len(),
            forall|k: int| 0 <= k < j ==> !#[trigger] sat_intersect(*r, vs@[k].bounds),
        decreases vs@.len() - j,
    {
        if rectangles_intersect(r, &vs[j].bounds) {
            return false;
        }
        j += 1;
    }
    true
}

/// The volume of each quadrant counts the vehicles of both sequences.
pub open spec fn volumes_match(volume: Seq<u32>, active: Seq<Vehicle>, pending: Seq<Vehicle>) -> bool {
    forall|q: int| 0 <= q < 4 ==> #[trigger] volume[q]
        == count_quadrant(entrances(active), q) + count_quadrant(entrances(pending), q)
}

/// Moving one vehicle from the queue to the road keeps every quadrant's count.
proof fn lemma_promote_counts(active: Seq<Vehicle>, pending: Seq<Vehicle>, i: int, q: int)
    requires
        0 <= i < pending.len(),
    ensures
        count_quadrant(entrances(active.push(pending[i])), q) + count_quadrant(entrances(pending.remove(i)), q)
            == count_quadrant(entrances(active), q) + count_quadrant(entrances(pending), q),
{
    assert(entrances(active.push(pending[i])) =~= entrances(active).push(pending[i].entrance));
    assert(entrances(active).push(pending[i].entrance).drop_last() =~= entrances(active));
    assert(entrances(pending.remove(i)) =~= entrances(pending).remove(i));
    lemma_count_remove(entrances(pending), i, q);
}

impl Simulation {
    /// One admission attempt per entrance, in entrance order.
    pub fn admit_vehicles(&mut self)
        requires
            old(self).wf(),
        ensures
            final(self).wf(),
            (final(self).vehicles@, final(self).release_queue@)
                == promote_from(old(self).vehicles@, old(self).release_queue@, 0),
            final(self).intersection_manager == old(self).intersection_manager,
            final(self).qlearning == old(self).qlearning,
            final(self).clock == old(self).clock,
            final(self).last_spawn == old(self).last_spawn,
            final(self).last_light_change == old(self).last_light_change,
            final(self).id_counter == old(self).id_counter,
            final(self).min_volume == old(self).min_volume,
            final(self).max_volume == old(self).max_volume,
    {
        let mut e: u32 = 0;
        while e < ENTRANCE_COUNT
            invariant
                0 <= e <= 8,
                self.wf(),
                promote_from(self.vehicles@, self.release_queue@, e as nat)
                    == promote_from(old(self).vehicles@, old(self).release_queue@, 0),
                self.intersection_manager == old(self).intersection_manager,
                self.qlearning == old(self).qlearning,
                self.clock == old(self).clock,
                self.last_spawn == old(self).last_spawn,
                self.last_light_change == old(self).last_light_change,
                self.id_counter == old(self).id_counter,
                self.min_volume == old(self).min_volume,
                self.max_volume == old(self).max_volume,
            decreases 8 - e,
        {
            let ghost a0 = self.vehicles@;
            let ghost queue0 = self.release_queue@;
            let i = find_entrance_exec(&self.release_queue, e);
            if i < self.release_queue.len() {
                let candidate = self.release_queue[i];
                if clear_of_exec(&candidate.bounds, &self.vehicles) {
                    let v = self.release_queue.remove(i);
                    self.vehicles.push(v);
                    proof {
                        assert forall|q: int| 0 <= q < 4 implies #[trigger] self.intersection_manager.intersection_volume@[q]
                            == count_quadrant(entrances(self.vehicles@), q) + count_quadrant(entrances(self.release_queue@), q) by {
                            lemma_promote_counts(a0, queue0, i as int, q);
                        }
                        assert forall|k: int| 0 <= k < self.vehicles@.len() implies settled(#[trigger] self.vehicles@[k]) by {
                            if k < a0.len() {
                                assert(self.vehicles@[k] == a0[k]);
                            }
                        }
                        assert forall|k: int| 0 <= k < self.release_queue@.len() implies settled(#[trigger] self.release_queue@[k]) by {
                            if k < i {
                                assert(self.release_queue@[k] == queue0[k]);
                            } else {
                                assert(self.release_queue@[k] == queue0[k + 1]);
                            }
                        }
                    }
                }
            }
            e += 1;
        }
    }
}

/// Every vehicle advanced by `dt` microseconds.
pub open spec fn stepped_all(vs: Seq<Vehicle>, dt: u64) -> Seq<Vehicle> {
    vs.map_values(|v: Vehicle| v.stepped(dt))
}

/// The vehicles still inside the world, in order.
pub open spec fn kept(vs: Seq<Vehicle>) -> Seq<Vehicle>
    decreases vs.len(),
{
    if vs.len() == 0 {
        vs
    } else if out_of_world(vs.last().bounds.x as int, vs.last().bounds.y as int) {
        kept(vs.drop_last())
    } else {
        kept(vs.drop_last()).push(vs.last())
    }
}

/// A quadrant's count over a sequence splits off its first entrance.
proof fn lemma_count_front(es: Seq<u32>, q: int)
    requires
        es.len() > 0,
    ensures
        count_quadrant(es, q) == count_quadrant(es.drop_first(), q) + if quadrant(es[0]) == q { 1nat } else { 0nat },
{
    assert(es == seq![es[0]] + es.drop_first());
    lemma_count_concat(seq![es[0]], es.drop_first(), q);
    lemma_count_single(es[0], q);
}

/// The vehicles kept from a sequence are a subsequence of settled vehicles.
proof fn lemma_kept_settled(vs: Seq<Vehicle>)
    requires
        forall|i: int| 0 <= i < vs.len() ==> (#[trigger] vs[i]).wf(),
    ensures
        forall|i: int| 0 <= i < kept(vs).len() ==> settled(#[trigger] kept(vs)[i]),
    decreases vs.len(),
{
    if vs.len() > 0 {
        lemma_kept_settled(vs.drop_last());
        let k = kept(vs.drop_last());
        if !out_of_world(vs.last().bounds.x as int, vs.last().bounds.y as int) {
            assert(vs.last().wf());
            assert forall|i: int| 0 <= i < kept(vs).len() implies settled(#[trigger] kept(vs)[i]) by {
                if i < k.len() {
                    assert(kept(vs)[i] == k[i]);
                }
            }
        }
    }
}

impl Simulation {
    /// Advances every vehicle on the road by `dt` microseconds, then removes
    /// those that left the world and lowers their quadrants' volumes.
    pub fn advance_vehicles(&mut self, dt: u64)
        requires
            old(self).wf(),
            dt <= MAX_DT,
        ensures
            final(self).wf(),
            final(self).vehicles@ == kept(stepped_all(old(self).vehicles@, dt)),
            final(self).release_queue@ == old(self).release_queue@,
            final(self).intersection_manager.stop_lights@ == old(self).intersection_manager.stop_lights@,
            final(self).qlearning == old(self).qlearning,
            final(self).clock == old(self).clock,
            final(self).last_spawn == old(self).last_spawn,
            final(self).last_light_change == old(self).last_light_change,
            final(self).id_counter == old(self).id_counter,
            final(self).min_volume == old(self).min_volume,
            final(self).max_volume == old(self).max_volume,
    {
        let n = self.vehicles.len();
        let mut moved: Vec<Vehicle> = Vec::new();
        let mut i: usize = 0;
        while i < n
            invariant
                n == self.vehicles@.len(),
                self.wf(),
                self == old(self),
                0 <= i <= n,
                moved@ == stepped_all(self.vehicles@, dt).subrange(0, i as int),
                forall|k: int| 0 <= k < i ==> (#[trigger] moved@[k]).wf(),
                dt <= MAX_DT,
            decreases n - i,
        {
            let mut v = self.vehicles[i];
            v.update(dt);
            moved.push(v);
            i += 1;
            proof {
                assert(moved@ =~= stepped_all(self.vehicles@, dt).subrange(0, i as int));
            }
        }
        let ghost all_moved = moved@;
        assert(all_moved =~= stepped_all(self.vehicles@, dt));
        assert(entrances(all_moved) =~= entrances(self.vehicles@));
        let mut kept_v: Vec<Vehicle> = Vec::new();
        let mut j: usize = 0;
        while j < n
            invariant
                n == moved@.len(),
                moved@ == all_moved,
                0 <= j <= n,
                self.intersection_manager.wf(),
                self.intersection_manager.stop_lights@ == old(self).intersection_manager.stop_lights@,
                forall|k: int| 0 <= k < n ==> (#[trigger] moved@[k]).wf(),
                kept_v@ == kept(moved@.subrange(0, j as int)),
                forall|q: int| 0 <= q < 4 ==> #[trigger] self.intersection_manager.intersection_volume@[q]
                    == count_quadrant(entrances(kept_v@), q)
                        + count_quadrant(entrances(moved@.subrange(j as int, n as int)), q)
                        + count_quadrant(entrances(self.release_queue@), q),
                self.vehicles == old(self).vehicles,
                self.release_queue == old(self).release_queue,
                self.qlearning == old(self).qlearning,
                self.clock == old(self).clock,
                self.last_spawn == old(self).last_spawn,
                self.last_light_change == old(self).last_light_change,
                self.id_counter == old(self).id_counter,
                self.min_volume == old(self).min_volume,
                self.max_volume == old(self).max_volume,
            decreases n - j,
        {
            let v = moved[j];
            let ghost rest = moved@.subrange(j as int, n as int);
            proof {
                assert(entrances(rest).drop_first() =~= entrances(moved@.subrange(j + 1, n as int)));
                assert(entrances(rest)[0] == v.entrance);
                assert forall|q: int| 0 <= q < 4 implies count_quadrant(entrances(rest), q)
                    == count_quadrant(entrances(moved@.subrange(j + 1, n as int)), q) + if quadrant(v.entrance) == q { 1nat } else { 0nat } by {
                    lemma_count_front(entrances(rest), q);
                }
                assert(moved@.subrange(0, j + 1).drop_last() =~= moved@.subrange(0, j as int));
                assert(moved@.subrange(0, j + 1).last() == v);
            }
            let ghost vol0 = self.intersection_manager.intersection_volume@;
            let ghost kept0 = kept_v@;
            if v.check_bounds() {
                let q = (v.entrance / 2) as usize;
                let old_volume = self.intersection_manager.intersection_volume[q];
                proof {
                    assert(old_volume >= 1);
                }
                self.intersection_manager.intersection_volume.set(q, old_volume - 1);
                proof {
                    assert forall|q2: int| 0 <= q2 < 4 implies #[trigger] self.intersection_manager.intersection_volume@[q2]
                        == count_quadrant(entrances(kept_v@), q2)
                            + count_quadrant(entrances(moved@.subrange(j + 1, n as int)), q2)
                            + count_quadrant(entrances(self.release_queue@), q2) by {
                        if q2 != q {
                            assert(self.intersection_manager.intersection_volume@[q2] == vol0[q2]);
                        }
                    }
                }
            } else {
                kept_v.push(v);
                proof {
                    assert(entrances(kept_v@).drop_last() =~= entrances(kept0));
                    assert(entrances(kept_v@).last() == v.entrance);
                    assert forall|q2: int| 0 <= q2 < 4 implies #[trigger] self.intersection_manager.intersection_volume@[q2]
                        == count_quadrant(entrances(kept_v@), q2)
                            + count_quadrant(entrances(moved@.subrange(j + 1, n as int)), q2)
                            + count_quadrant(entrances(self.release_queue@), q2) by {
                        assert(count_quadrant(entrances(kept_v@), q2) == count_quadrant(entrances(kept0), q2)
                            + if quadrant(v.entrance) == q2 { 1nat } else { 0nat });
                    }
                }
            }
            j += 1;
        }
        proof {
            assert(moved@.subrange(0, n as int) =~= all_moved);
            assert(entrances(moved@.subrange(n as int, n as int)) =~= Seq::<u32>::empty());
            lemma_kept_settled(all_moved);
        }
        self.vehicles = kept_v;
    }
}

/// The vehicle's sensor box overlaps the bounds of another vehicle of the sequence.
pub open spec fn sees_vehicle(vs: Seq<Vehicle>, i: int) -> bool {
    exists|j: int| 0 <= j < vs.len() && j != i && #[trigger] sat_intersect(vs[i].vision, vs[j].bounds)
}

/// Vehicles whose sensor box overlaps another vehicle stop.
pub open spec fn halted_by_vehicles(vs: Seq<Vehicle>) -> Seq<Vehicle> {
    Seq::new(vs.len(), |i: int| if sees_vehicle(vs, i) { Vehicle { speed: 0, ..vs[i] } } else { vs[i] })
}

/// The vehicle's sensor box overlaps the line of a stopped light.
pub open spec fn sees_red(v: Vehicle, lights: Seq<StopLight>) -> bool {
    exists|k: int| 0 <= k < lights.len() && #[trigger] sat_intersect(v.vision, lights[k].line) && !lights[k].active
}

/// Vehicles whose sensor box overlaps the line of a stopped light stop.
pub open spec fn halted_by_lights(vs: Seq<Vehicle>, lights: Seq<StopLight>) -> Seq<Vehicle> {
    vs.map_values(|v: Vehicle| if sees_red(v, lights) { Vehicle { speed: 0, ..v } } else { v })
}

proof fn lemma_light_lines_wf(im: IntersectionManager)
    requires
        im.wf(),
    ensures
        forall|k: int| 0 <= k < 4 ==> (#[trigger] im.stop_lights@[k]).line.wf(),
{
    assert forall|k: int| 0 <= k < 4 implies (#[trigger] im.stop_lights@[k]).line.wf() by {
        assert(im.stop_lights@[k].line == crate::stop_light::light_line(k as u32));
    }
}

/// `post` is `pre` after a spawn attempt at `entrance` with turn draw `roll`.
pub open spec fn spawn_post(pre: Simulation, post: Simulation, interval: u64, entrance: u32, roll: u64) -> bool {
    &&& post.vehicles == pre.vehicles
    &&& post.intersection_manager.stop_lights == pre.intersection_manager.stop_lights
    &&& post.qlearning == pre.qlearning
    &&& post.clock == pre.clock
    &&& post.last_light_change == pre.last_light_change
    &&& post.min_volume == pre.min_volume
    &&& post.max_volume == pre.max_volume
    &&& ({
        let q = quadrant(entrance);
        let vol = pre.intersection_manager.intersection_volume@;
        if pre.clock - pre.last_spawn > interval && vol[q] < u32::MAX
            && pre.id_counter < usize::MAX {
            &&& post.release_queue@ == pre.release_queue@.push(
                spawned(pre.id_counter, SPAWN_SPEED, VEHICLE_SIZE, VEHICLE_SIZE, entrance, roll))
            &&& post.intersection_manager.intersection_volume@ == vol.update(q, (vol[q] + 1) as u32)
            &&& post.id_counter == pre.id_counter + 1
            &&& post.last_spawn == pre.clock
        } else {
            &&& post.release_queue == pre.release_queue
            &&& post.intersection_manager.intersection_volume@ == vol
            &&& post.id_counter == pre.id_counter
            &&& post.last_spawn == pre.last_spawn
        }
    })
}

impl Simulation {
    /// Spawns a vehicle at `entrance`, its turn chosen by `roll`, if more than
    /// `interval` microseconds passed since the last spawn. The spawn is
    /// skipped when the quadrant's volume or the vehicle ids are exhausted.
    pub fn spawn_with(&mut self, interval: u64, entrance: u32, roll: u64)
        requires
            old(self).wf(),
            entrance < ENTRANCE_COUNT,
            roll < 3,
        ensures
            final(self).wf(),
            spawn_post(*old(self), *final(self), interval, entrance, roll),
    {
        let q = (entrance / 2) as usize;
        let volume = self.intersection_manager.intersection_volume[q];
        if self.clock - self.last_spawn > interval && volume < u32::MAX && self.id_counter < usize::MAX {
            let vehicle = Vehicle::with_turn_roll(self.id_counter, SPAWN_SPEED, VEHICLE_SIZE, VEHICLE_SIZE, entrance, roll);
            let ghost queue0 = self.release_queue@;
            let ghost vol0 = self.intersection_manager.intersection_volume@;
            self.id_counter += 1;
            self.intersection_manager.intersection_volume.set(q, volume + 1);
            self.release_queue.push(vehicle);
            self.last_spawn = self.clock;
            proof {
                assert(!out_of_world(vehicle.bounds.x as int, vehicle.bounds.y as int));
                assert forall|k: int| 0 <= k < self.release_queue@.len() implies settled(#[trigger] self.release_queue@[k]) by {
                    if k < queue0.len() {
                        assert(self.release_queue@[k] == queue0[k]);
                    }
                }
                assert(entrances(self.release_queue@).drop_last() =~= entrances(queue0));
                assert(entrances(self.release_queue@).last() == entrance);
                assert forall|q2: int| 0 <= q2 < 4 implies #[trigger] self.intersection_manager.intersection_volume@[q2]
                    == count_quadrant(entrances(self.vehicles@), q2) + count_quadrant(entrances(self.release_queue@), q2) by {
                    if q2 != q {
                        assert(self.intersection_manager.intersection_volume@[q2] == vol0[q2]);
                    }
                }
            }
        }
    }

    /// Spawns a vehicle at a random entrance with a random turn if more than
    /// `interval` microseconds passed since the last spawn.
    pub fn spawn_on_timer(&mut self, interval: u64)
        requires
            old(self).wf(),
        ensures
            final(self).wf(),
            exists|entrance: u32, roll: u64| entrance < ENTRANCE_COUNT && roll < 3
                && #[trigger] spawn_post(*old(self), *final(self), interval, entrance, roll),
    {
        let entrance = random_below(ENTRANCE_COUNT as u64) as u32;
        let roll = random_below(3);
        self.spawn_with(interval, entrance, roll);
    }

    /// Stops every vehicle whose sensor box overlaps another vehicle.
    pub fn handle_vehicle_collisions(&mut self)
        requires
            old(self).wf(),
        ensures
            final(self).wf(),
            final(self).vehicles@ == halted_by_vehicles(old(self).vehicles@),
            final(self).release_queue == old(self).release_queue,
            final(self).intersection_manager == old(self).intersection_manager,
            final(self).qlearning == old(self).qlearning,
            final(self).clock == old(self).clock,
            final(self).last_spawn == old(self).last_spawn,
            final(self).last_light_change == old(self).last_light_change,
            final(self).id_counter == old(self).id_counter,
            final(self).min_volume == old(self).min_volume,
            final(self).max_volume == old(self).max_volume,
    {
        let ghost pre = self.vehicles@;
        let n = self.vehicles.len();
        let mut i: usize = 0;
        while i < n
            invariant
                n == pre.len(),
                self.vehicles@.len() == n,
                0 <= i <= n,
                forall|k: int| 0 <= k < n ==> settled(#[trigger] pre[k]),
                forall|k: int| 0 <= k < i ==> #[trigger] self.vehicles@[k] == halted_by_vehicles(pre)[k],
                forall|k: int| i <= k < n ==> #[trigger] self.vehicles@[k] == pre[k],
                self.release_queue == old(self).release_queue,
                self.intersection_manager == old(self).intersection_manager,
                self.qlearning == old(self).qlearning,
                self.clock == old(self).clock,
                self.last_spawn == old(self).last_spawn,
                self.last_light_change == old(self).last_light_change,
                self.id_counter == old(self).id_counter,
                self.min_volume == old(self).min_volume,
                self.max_volume == old(self).max_volume,
                pre == old(self).vehicles@,
            decreases n - i,
        {
            let v = self.vehicles[i];
            let mut j: usize = 0;
            let mut blocked = false;
            while j < n
                invariant
                    n == pre.len(),
                    self.vehicles@.len() == n,
                    0 <= i < n,
                    0 <= j <= n,
                    v == pre[i as int],
                    forall|k: int| 0 <= k < n ==> settled(#[trigger] pre[k]),
                    forall|k: int| 0 <= k < i ==> #[trigger] self.vehicles@[k] == halted_by_vehicles(pre)[k],
                    forall|k: int| i <= k < n ==> #[trigger] self.vehicles@[k] == pre[k],
                    blocked == exists|k: int| 0 <= k < j && k != i && #[trigger] sat_intersect(pre[i as int].vision, pre[k].bounds),
                decreases n - j,
            {
                if j != i && !blocked {
                    let other = self.vehicles[j];
                    if rectangles_intersect(&v.vision, &other.bounds) {
                        blocked = true;
                    }
                }
                j += 1;
            }
            if blocked {
                let mut w = v;
                w.speed = 0;
                self.vehicles.set(i, w);
            }
            i += 1;
        }
        proof {
            assert(self.vehicles@ =~= halted_by_vehicles(pre));
            assert(entrances(self.vehicles@) =~= entrances(pre));
            assert forall|k: int| 0 <= k < self.vehicles@.len() implies settled(#[trigger] self.vehicles@[k]) by {
                assert(settled(pre[k]));
            }
        }
    }

    /// Stops every vehicle whose sensor box overlaps the line of a stopped light.
    pub fn handle_vehicle_stops(&mut self)
        requires
            old(self).wf(),
        ensures
            final(self).wf(),
            final(self).vehicles@ == halted_by_lights(old(self).vehicles@, old(self).intersection_manager.stop_lights@),
            final(self).release_queue == old(self).release_queue,
            final(self).intersection_manager == old(self).intersection_manager,
            final(self).qlearning == old(self).qlearning,
            final(self).clock == old(self).clock,
            final(self).last_spawn == old(self).last_spawn,
            final(self).last_light_change == old(self).last_light_change,
            final(self).id_counter == old(self).id_counter,
            final(self).min_volume == old(self).min_volume,
            final(self).max_volume == old(self).max_volume,
    {
        let ghost pre = self.vehicles@;
        let ghost lights = self.intersection_manager.stop_lights@;
        proof {
            lemma_light_lines_wf(self.intersection_manager);
        }
        let n = self.vehicles.len();
        let mut i: usize = 0;
        while i < n
            invariant
                n == pre.len(),
                self.vehicles@.len() == n,
                0 <= i <= n,
                lights == self.intersection_manager.stop_lights@,
                lights.len() == 4,
                forall|k: int| 0 <= k < 4 ==> (#[trigger] lights[k]).line.wf(),
                forall|k: int| 0 <= k < n ==> settled(#[trigger] pre[k]),
                forall|k: int| 0 <= k < i ==> #[trigger] self.vehicles@[k] == halted_by_lights(pre, lights)[k],
                forall|k: int| i <= k < n ==> #[trigger] self.vehicles@[k] == pre[k],
                self.release_queue == old(self).release_queue,
                self.intersection_manager == old(self).intersection_manager,
                self.qlearning == old(self).qlearning,
                self.clock == old(self).clock,
                self.last_spawn == old(self).last_spawn,
                self.last_light_change == old(self).last_light_change,
                self.id_counter == old(self).id_counter,
                self.min_volume == old(self).min_volume,
                self.max_volume == old(self).max_volume,
                pre == old(self).vehicles@,
            decreases n - i,
        {
            let v = self.vehicles[i];
            let mut k: usize = 0;
            let mut red = false;
            while k < 4
                invariant
                    0 <= k <= 4,
                    v == pre[i as int],
                    settled(v),
                    lights == self.intersection_manager.stop_lights@,
                    lights.len() == 4,
                    forall|m: int| 0 <= m < 4 ==> (#[trigger] lights[m]).line.wf(),
                    red == exists|m: int| 0 <= m < k && #[trigger] sat_intersect(v.vision, lights[m].line) && !lights[m].active,
                decreases 4 - k,
            {
                let light = self.intersection_manager.stop_lights[k];
                if !red && rectangles_intersect(&v.vision, &light.line) && !light.active {
                    red = true;
                }
                k += 1;
            }
            if red {
                let mut w = v;
                w.speed = 0;
                self.vehicles.set(i, w);
            }
            i += 1;
        }
        proof {
            assert(self.vehicles@ =~= halted_by_lights(pre, lights));
            assert(entrances(self.vehicles@) =~= entrances(pre));
            assert forall|k: int| 0 <= k < self.vehicles@.len() implies settled(#[trigger] self.vehicles@[k]) by {
                assert(settled(pre[k]));
            }
        }
    }
}

/// The reward for a total volume given the least and greatest totals seen:
/// minus the volume's position in that range, scaled by `REWARD_SCALE`, or
/// zero while the range is empty.
pub open spec fn reward_for(total: int, min_seen: int, max_seen: int) -> int {
    if max_seen != min_seen {
        -((total - min_seen) * REWARD_SCALE / (max_seen - min_seen))
    } else {
        0
    }
}

pub open spec fn min_u64(a: u64, b: u64) -> u64 {
    if b < a { b } else { a }
}

pub open spec fn max_u64(a: u64, b: u64) -> u64 {
    if b > a { b } else { a }
}

/// The sum of the four quadrant volumes.
pub open spec fn total_of(volume: Seq<u32>) -> int {
    volume[0] + volume[1] + volume[2] + volume[3]
}

/// The lights after the controller takes `action` at time `now`.
pub open spec fn lights_after_action(lights: Seq<StopLight>, action: int, now: u64) -> Seq<StopLight> {
    if action < 4 {
        lights.update(action, lights[action].requested(now))
    } else {
        lights
    }
}

/// One control decision at time `now`: the controller observes, picks
/// `action` by its epsilon-greedy rule with the given random outcomes, acts
/// on the lights, and learns from the reward of the total volume.
pub open spec fn controlled(
    q0: QLearning,
    lights0: Seq<StopLight>,
    volume: Seq<u32>,
    now: u64,
    min0: u64,
    max0: u64,
    explore_draw: u64,
    random_action: usize,
    q1: QLearning,
    lights1: Seq<StopLight>,
    min1: u64,
    max1: u64,
) -> bool {
    let obs = crate::intersection_manager::observation_of(volume, lights0, now);
    let total = total_of(volume);
    &&& min1 == min_u64(min0, total as u64)
    &&& max1 == max_u64(max0, total as u64)
    &&& exists|action: int| {
        &&& 0 <= action < ACTION_COUNT
        &&& explore_draw < q0.epsilon_spec() ==> action == random_action
        &&& explore_draw >= q0.epsilon_spec() ==> forall|row: int| QLearning::row_of(obs, row) ==> q0.best_in_row(row, action)
        &&& lights1 == lights_after_action(lights0, action, now)
        &&& #[trigger] crate::qlearning::is_update(q0, q1, obs, action, reward_for(total, min1 as int, max1 as int),
            crate::intersection_manager::observation_of(volume, lights1, now))
    }
}

impl Simulation {
    /// A fresh simulation whose controller starts from the learned table `policy`.
    pub fn with_policy(policy: QLearning) -> (r: Self)
        requires
            policy.wf(),
            policy.rows() == OBS_SIZE,
            policy.cols() == ACTION_COUNT,
        ensures
            r.wf(),
            r.qlearning == policy,
            r.vehicles@.len() == 0,
            r.release_queue@.len() == 0,
            r.intersection_manager.intersection_volume@ == seq![0u32, 0, 0, 0],
            r.id_counter == 0,
            r.clock == 0,
            r.last_spawn == 0,
            r.last_light_change == 0,
            r.min_volume == u64::MAX,
            r.max_volume == 0,
    {
        let mut r = Simulation::new();
        r.qlearning = policy;
        r
    }

    /// Records `total_volume` among the extremes seen and returns its reward.
    pub fn calculate_reward(&mut self, total_volume: u64) -> (r: i64)
        requires
            old(self).wf(),
            total_volume <= 4 * u32::MAX,
        ensures
            final(self).wf(),
            final(self).min_volume == min_u64(old(self).min_volume, total_volume),
            final(self).max_volume == max_u64(old(self).max_volume, total_volume),
            r == reward_for(total_volume as int, final(self).min_volume as int, final(self).max_volume as int),
            final(self).max_volume == final(self).min_volume ==> r == 0,
            -REWARD_SCALE <= r <= 0,
            final(self).vehicles == old(self).vehicles,
            final(self).release_queue == old(self).release_queue,
            final(self).intersection_manager == old(self).intersection_manager,
            final(self).qlearning == old(self).qlearning,
            final(self).clock == old(self).clock,
            final(self).last_spawn == old(self).last_spawn,
            final(self).last_light_change == old(self).last_light_change,
            final(self).id_counter == old(self).id_counter,
    {
        if total_volume < self.min_volume {
            self.min_volume = total_volume;
        }
        if total_volume > self.max_volume {
            self.max_volume = total_volume;
        }
        if self.max_volume != self.min_volume {
            let span = self.max_volume - self.min_volume;
            let offset = total_volume - self.min_volume;
            proof {
                assert(offset * REWARD_SCALE <= span * REWARD_SCALE) by (nonlinear_arith)
                    requires
                        offset <= span,
                ;
                assert(span * REWARD_SCALE <= 4 * u32::MAX * REWARD_SCALE) by (nonlinear_arith)
                    requires
                        span <= 4 * u32::MAX,
                ;
                vstd::arithmetic::div_mod::lemma_div_is_ordered(offset * REWARD_SCALE, span * REWARD_SCALE, span as int);
                vstd::arithmetic::div_mod::lemma_div_multiples_vanish(REWARD_SCALE as int, span as int);
                assert(span * REWARD_SCALE == span as int * REWARD_SCALE as int);
                vstd::arithmetic::div_mod::lemma_div_pos_is_pos(offset * REWARD_SCALE, span as int);
            }
            let normalized = offset * REWARD_SCALE as u64 / span;
            -(normalized as i64)
        } else {
            0
        }
    }

    /// Takes one control decision with the random outcomes given.
    pub fn control_with(&mut self, explore_draw: u64, random_action: usize)
        requires
            old(self).wf(),
            random_action < ACTION_COUNT,
        ensures
            final(self).wf(),
            controlled(
                old(self).qlearning,
                old(self).intersection_manager.stop_lights@,
                old(self).intersection_manager.intersection_volume@,
                old(self).clock,
                old(self).min_volume,
                old(self).max_volume,
                explore_draw,
                random_action,
                final(self).qlearning,
                final(self).intersection_manager.stop_lights@,
                final(self).min_volume,
                final(self).max_volume,
            ),
            final(self).intersection_manager.intersection_volume == old(self).intersection_manager.intersection_volume,
            final(self).vehicles == old(self).vehicles,
            final(self).release_queue == old(self).release_queue,
            final(self).clock == old(self).clock,
            final(self).last_spawn == old(self).last_spawn,
            final(self).last_light_change == old(self).clock,
            final(self).id_counter == old(self).id_counter,
    {
        let ghost q0 = self.qlearning;
        let ghost lights0 = self.intersection_manager.stop_lights@;
        let now = self.clock;
        let state = self.intersection_manager.get_state(now);
        let action = self.qlearning.choose_action_with(&state, explore_draw, random_action);
        self.intersection_manager.update_from_action(action, now);
        let next_state = self.intersection_manager.get_state(now);
        let total_volume = self.total_volume();
        let reward = self.calculate_reward(total_volume);
        self.qlearning.update(&state, action, reward, &next_state);
        self.last_light_change = now;
        proof {
            assert(self.intersection_manager.stop_lights@ == lights_after_action(lights0, action as int, now));
            assert(crate::qlearning::is_update(q0, self.qlearning, state@, action as int, reward as int, next_state@));
        }
    }
}

/// The random outcomes that one tick consumes.
#[derive(Clone, Copy, Debug, PartialEq, Eq, Structural)]
pub struct TickDraws {
    /// Entrance of a vehicle spawned this tick, in `0..8`.
    pub entrance: u32,
    /// Draw in `0..3` that picks the spawned vehicle's turn.
    pub turn_roll: u64,
    /// Draw in `0..EPSILON_SCALE` compared with the exploration rate.
    pub explore_draw: u64,
    /// Action in `0..5` taken when exploring.
    pub random_action: usize,
}

impl TickDraws {
    pub open spec fn wf(&self) -> bool {
        &&& self.entrance < ENTRANCE_COUNT
        &&& self.turn_roll < 3
        &&& self.random_action < ACTION_COUNT
    }
}

/// The clock moved forward by `dt`, stopping at the largest time.
pub open spec fn clock_after(clock: u64, dt: u64) -> u64 {
    if dt <= u64::MAX - clock { (clock + dt) as u64 } else { u64::MAX }
}

/// `post` is `pre` after one tick of `dt` microseconds with the random outcomes `draws`.
pub open spec fn step_post(pre: Simulation, post: Simulation, dt: u64, draws: TickDraws) -> bool {
    let now = clock_after(pre.clock, dt);
    let (a1, queue1) = promote_from(pre.vehicles@, pre.release_queue@, 0);
    let a3 = kept(stepped_all(a1, dt));
    let q = quadrant(draws.entrance);
    let lights0 = pre.intersection_manager.stop_lights@;
    let ticked = lights0.map_values(|l: StopLight| l.ticked(now));
    &&& post.clock == now
    &&& post.vehicles@ == halted_by_lights(halted_by_vehicles(a3), lights0)
    &&& (now - pre.last_spawn > SPAWN_INTERVAL && pre.id_counter < usize::MAX
        && count_quadrant(entrances(a3), q) + count_quadrant(entrances(queue1), q) < u32::MAX) ==> {
            &&& post.release_queue@ == queue1.push(spawned(
                pre.id_counter, SPAWN_SPEED, VEHICLE_SIZE, VEHICLE_SIZE, draws.entrance, draws.turn_roll))
            &&& post.id_counter == pre.id_counter + 1
            &&& post.last_spawn == now
        }
    &&& !(now - pre.last_spawn > SPAWN_INTERVAL && pre.id_counter < usize::MAX
        && count_quadrant(entrances(a3), q) + count_quadrant(entrances(queue1), q) < u32::MAX) ==> {
            &&& post.release_queue@ == queue1
            &&& post.id_counter == pre.id_counter
            &&& post.last_spawn == pre.last_spawn
        }
    &&& now - pre.last_light_change >= CONTROL_INTERVAL ==> {
            &&& post.last_light_change == now
            &&& controlled(
                pre.qlearning, ticked, post.intersection_manager.intersection_volume@, now,
                pre.min_volume, pre.max_volume, draws.explore_draw, draws.random_action,
                post.qlearning, post.intersection_manager.stop_lights@,
                post.min_volume, post.max_volume)
        }
    &&& now - pre.last_light_change < CONTROL_INTERVAL ==> {
            &&& post.last_light_change == pre.last_light_change
            &&& post.intersection_manager.stop_lights@ == ticked
            &&& post.qlearning == pre.qlearning
            &&& post.min_volume == pre.min_volume
            &&& post.max_volume == pre.max_volume
        }
}

impl Simulation {
    /// One tick of `dt` microseconds with the random outcomes given: admit
    /// queued vehicles, move and expire vehicles, spawn, stop vehicles that
    /// see another vehicle or a stopped light, run the lights' timers, and
    /// let the controller act once its interval has passed.
    pub fn step(&mut self, dt: u64, draws: TickDraws)
        requires
            old(self).wf(),
            dt <= MAX_DT,
            draws.wf(),
        ensures
            final(self).wf(),
            step_post(*old(self), *final(self), dt, draws),
    {
        self.clock = if dt <= u64::MAX - self.clock { self.clock + dt } else { u64::MAX };
        self.admit_vehicles();
        let ghost queue1 = self.release_queue@;
        self.advance_vehicles(dt);
        let ghost a3 = self.vehicles@;
        proof {
            let q = quadrant(draws.entrance);
            assert(self.intersection_manager.intersection_volume@[q]
                == count_quadrant(entrances(a3), q) + count_quadrant(entrances(queue1), q));
        }
        self.spawn_with(SPAWN_INTERVAL, draws.entrance, draws.turn_roll);
        self.handle_vehicle_collisions();
        self.handle_vehicle_stops();
        let now = self.clock;
        self.intersection_manager.update_lights(now);
        if now - self.last_light_change >= CONTROL_INTERVAL {
            self.control_with(draws.explore_draw, draws.random_action);
        }
    }

    /// One tick of `dt` microseconds with fresh random outcomes.
    pub fn update(&mut self, dt: u64)
        requires
            old(self).wf(),
            dt <= MAX_DT,
        ensures
            final(self).wf(),
            exists|draws: TickDraws| draws.wf() && draws.explore_draw < crate::qlearning::EPSILON_SCALE
                && #[trigger] step_post(*old(self), *final(self), dt, draws),
    {
        let draws = TickDraws {
            entrance: random_below(ENTRANCE_COUNT as u64) as u32,
            turn_roll: random_below(3),
            explore_draw: random_below(crate::qlearning::EPSILON_SCALE),
            random_action: random_below(ACTION_COUNT as u64) as usize,
        };
        self.step(dt, draws);
    }

    /// The total of the four quadrant volumes.
    pub fn total_volume(&self) -> (r: u64)
        requires
            self.wf(),
        ensures
            r == total_of(self.intersection_manager.intersection_volume@),
    {
        let v = &self.intersection_manager.intersection_volume;
        v[0] as u64 + v[1] as u64 + v[2] as u64 + v[3] as u64
    }
}

/// An admission attempt either changes nothing or moves the head of the
/// entrance's queue onto the road, and only when it overlaps no vehicle
/// already there.
pub proof fn lemma_admission_clear(active: Seq<Vehicle>, pending: Seq<Vehicle>, entrance: u32)
    ensures
        ({
            let (a, p) = promote_one(active, pending, entrance);
            ||| a == active && p == pending
            ||| {
                let i = find_entrance(pending, entrance, 0);
                &&& 0 <= i < pending.len()
                &&& pending[i].entrance == entrance
                &&& forall|j: int| 0 <= j < i ==> pending[j].entrance != entrance
                &&& clear_of(pending[i].bounds, active)
                &&& a == active.push(pending[i])
                &&& p == pending.remove(i)
            }
        }),
{
    lemma_find_entrance(pending, entrance, 0);
}

/// The search for an entrance finds its first vehicle, or none.
proof fn lemma_find_entrance(s: Seq<Vehicle>, entrance: u32, from: int)
    requires
        0 <= from,
    ensures
        ({
            let i = find_entrance(s, entrance, from);
            &&& i == s.len() || (from <= i < s.len() && s[i].entrance == entrance)
            &&& forall|j: int| from <= j < i && j < s.len() ==> s[j].entrance != entrance
        }),
    decreases s.len() - from,
{
    if from < s.len() && s[from].entrance != entrance {
        lemma_find_entrance(s, entrance, from + 1);
    }
}

} // verus!
