//! Per-approach traffic volumes and the four stop lights, seen as one observation.
use vstd::prelude::*;
use crate::stop_light::{light_line, LightPolicy, StopLight};

verus! {

/// Observation components are in millionths: a volume of one vehicle, an
/// open light, and one second of elapsed time are all `OBS_SCALE`.
pub const OBS_SCALE: u64 = 1000000;

/// The number of components of an observation.
pub const OBS_SIZE: usize = 9;

/// The number of controller actions: flip one of four lights, or do nothing.
pub const ACTION_COUNT: usize = 5;

pub struct IntersectionManager {
    /// Vehicles spawned and not yet expired, per approach.
    pub intersection_volume: Vec<u32>,
    pub stop_lights: Vec<StopLight>,
}

/// The observation component of an open or stopped light.
pub open spec fn light_obs(l: StopLight) -> u64 {
    if l.active { OBS_SCALE } else { 0 }
}

/// The observation at time `now`: four volumes, four light states, and
/// the time since light 0 last flipped (zero if the clock reads earlier).
pub open spec fn observation_of(volume: Seq<u32>, lights: Seq<StopLight>, now: u64) -> Seq<u64> {
    seq![
        (volume[0] * OBS_SCALE) as u64,
        (volume[1] * OBS_SCALE) as u64,
        (volume[2] * OBS_SCALE) as u64,
        (volume[3] * OBS_SCALE) as u64,
        light_obs(lights[0]),
        light_obs(lights[1]),
        light_obs(lights[2]),
        light_obs(lights[3]),
        if now >= lights[0].flipped_at { (now - lights[0].flipped_at) as u64 } else { 0 },
    ]
}

impl IntersectionManager {
    /// Four volumes and four lights, each light guarding its own approach.
    pub open spec fn wf(&self) -> bool {
        &&& self.intersection_volume@.len() == 4
        &&& self.stop_lights@.len() == 4
        &&& forall|i: int| 0 <= i < 4 ==> (#[trigger] self.stop_lights@[i]).line == light_line(i as u32)
    }

    /// The observation at time `now`.
    pub open spec fn observation(&self, now: u64) -> Seq<u64> {
        observation_of(self.intersection_volume@, self.stop_lights@, now)
    }

    /// The sum of the four volumes.
    pub open spec fn total_volume(&self) -> int {
        self.intersection_volume@[0] + self.intersection_volume@[1] + self.intersection_volume@[2]
            + self.intersection_volume@[3]
    }

    /// Zero volumes and four stopped, manually driven lights.
    pub fn new() -> (r: Self)
        ensures
            r.wf(),
            r.intersection_volume@ == seq![0u32, 0, 0, 0],
            forall|i: int| 0 <= i < 4 ==> #[trigger] r.stop_lights@[i] == (StopLight {
                line: light_line(i as u32),
                flipped_at: 0,
                active: false,
                queued: false,
                queued_at: 0,
                policy: LightPolicy::Manual,
            }),
    {
        let mut stop_lights: Vec<StopLight> = Vec::new();
        let mut i: u32 = 0;
        while i < 4
            invariant
                0 <= i <= 4,
                stop_lights@.len() == i,
                forall|j: int| 0 <= j < i ==> #[trigger] stop_lights@[j] == (StopLight {
                    line: light_line(j as u32),
                    flipped_at: 0,
                    active: false,
                    queued: false,
                    queued_at: 0,
                    policy: LightPolicy::Manual,
                }),
            decreases 4 - i,
        {
            stop_lights.push(StopLight::new(i));
            i += 1;
        }
        let mut intersection_volume: Vec<u32> = Vec::new();
        intersection_volume.push(0);
        intersection_volume.push(0);
        intersection_volume.push(0);
        intersection_volume.push(0);
        IntersectionManager { intersection_volume, stop_lights }
    }

    /// Asks light `action` to flip at time `now`; action 4 and above do nothing.
    pub fn update_from_action(&mut self, action: usize, now: u64)
        requires
            old(self).wf(),
        ensures
            final(self).wf(),
            final(self).intersection_volume == old(self).intersection_volume,
            action < 4 ==> final(self).stop_lights@ == old(self).stop_lights@.update(
                action as int,
                old(self).stop_lights@[action as int].requested(now),
            ),
            action >= 4 ==> final(self).stop_lights@ == old(self).stop_lights@,
    {
        if action < 4 {
            let mut light = self.stop_lights[action];
            light.request_flip(now);
            self.stop_lights.set(action, light);
            proof {
                assert forall|i: int| 0 <= i < 4 implies (#[trigger] self.stop_lights@[i]).line == light_line(i as u32) by {
                    if i != action {
                        assert(self.stop_lights@[i] == old(self).stop_lights@[i]);
                    }
                }
            }
        }
    }

    /// Runs every light's own timer at time `now`.
    pub fn update_lights(&mut self, now: u64)
        requires
            old(self).wf(),
        ensures
            final(self).wf(),
            final(self).intersection_volume == old(self).intersection_volume,
            final(self).stop_lights@ == old(self).stop_lights@.map_values(|l: StopLight| l.ticked(now)),
    {
        let ghost pre = self.stop_lights@;
        let mut i: usize = 0;
        while i < 4
            invariant
                0 <= i <= 4,
                self.intersection_volume == old(self).intersection_volume,
                pre == old(self).stop_lights@,
                pre.len() == 4,
                self.stop_lights@.len() == 4,
                forall|j: int| 0 <= j < i ==> #[trigger] self.stop_lights@[j] == pre[j].ticked(now),
                forall|j: int| i <= j < 4 ==> #[trigger] self.stop_lights@[j] == pre[j],
                forall|j: int| 0 <= j < 4 ==> (#[trigger] pre[j]).line == light_line(j as u32),
            decreases 4 - i,
        {
            let mut light = self.stop_lights[i];
            light.update(now);
            self.stop_lights.set(i, light);
            i += 1;
        }
        assert(self.stop_lights@ == pre.map_values(|l: StopLight| l.ticked(now)));
    }

    /// The observation at time `now`.
    pub fn get_state(&self, now: u64) -> (r: Vec<u64>)
        requires
            self.wf(),
        ensures
            r@ == self.observation(now),
    {
        let mut r: Vec<u64> = Vec::new();
        let mut i: usize = 0;
        while i < 4
            invariant
                self.wf(),
                0 <= i <= 4,
                r@.len() == i,
                forall|j: int| 0 <= j < i ==> #[trigger] r@[j] == self.intersection_volume@[j] * OBS_SCALE,
            decreases 4 - i,
        {
            r.push(self.intersection_volume[i] as u64 * OBS_SCALE);
            i += 1;
        }
        let mut k: usize = 0;
        while k < 4
            invariant
                self.wf(),
                0 <= k <= 4,
                r@.len() == 4 + k,
                forall|j: int| 0 <= j < 4 ==> #[trigger] r@[j] == self.intersection_volume@[j] * OBS_SCALE,
                forall|j: int| 4 <= j < 4 + k ==> #[trigger] r@[j] == light_obs(self.stop_lights@[j - 4]),
            decreases 4 - k,
        {
            r.push(if self.stop_lights[k].active { OBS_SCALE } else { 0 });
            k += 1;
        }
        let since = self.stop_lights[0].flipped_at;
        r.push(if now >= since { now - since } else { 0 });
        proof {
            let o = self.observation(now);
            assert(r@[4] == light_obs(self.stop_lights@[0]));
            assert(r@[5] == light_obs(self.stop_lights@[1]));
            assert(r@[6] == light_obs(self.stop_lights@[2]));
            assert(r@[7] == light_obs(self.stop_lights@[3]));
            assert(r@[0] == o[0] && r@[1] == o[1] && r@[2] == o[2] && r@[3] == o[3]);
            assert(r@ =~= o);
        }
        r
    }
}

} // verus!
