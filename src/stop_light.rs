//! Stop lights and the rules by which they flip.
use vstd::prelude::*;
use crate::config::{HEIGHT, WIDTH};
use crate::geometry::{Rectangle, HALF_PIXEL};

verus! {

/// How a stop light decides when to flip.
#[derive(Clone, Copy, Debug, PartialEq, Eq, Structural)]
pub enum LightPolicy {
    /// Flips only when the controller asks.
    Manual,
    /// A request to turn on waits `delay` microseconds before it takes
    /// effect; a request to turn off takes effect at once.
    Delayed { delay: u64 },
    /// Flips by itself after `off` microseconds stopped and `on` microseconds open.
    Cycle { off: u64, on: u64 },
}

#[derive(Clone, Copy, Debug, PartialEq, Eq, Structural)]
pub struct StopLight {
    pub line: Rectangle,
    /// Simulated time of the last flip, in microseconds.
    pub flipped_at: u64,
    /// Open (go) when true, stopped when false.
    pub active: bool,
    /// A request to turn on is waiting.
    pub queued: bool,
    /// Simulated time at which the waiting request was made.
    pub queued_at: u64,
    pub policy: LightPolicy,
}

/// The line of the stop light that guards approach `lane`.
pub open spec fn light_line(lane: u32) -> Rectangle {
    let cx = WIDTH * HALF_PIXEL;
    let cy = HEIGHT * HALF_PIXEL;
    if lane == 0 {
        Rectangle { x: (cx - 60000) as i64, y: (cy + 25000) as i64, width: 1, height: 50, direction: 0 }
    } else if lane == 1 {
        Rectangle { x: (cx - 25000) as i64, y: (cy - 60000) as i64, width: 50, height: 1, direction: 0 }
    } else if lane == 2 {
        Rectangle { x: (cx + 60000) as i64, y: (cy - 25000) as i64, width: 1, height: 50, direction: 0 }
    } else {
        Rectangle { x: (cx + 25000) as i64, y: (cy + 60000) as i64, width: 50, height: 1, direction: 0 }
    }
}

impl StopLight {
    /// The light after a flip at time `now`.
    pub open spec fn flipped(self, now: u64) -> StopLight {
        StopLight { active: !self.active, flipped_at: now, queued: false, ..self }
    }

    /// The light after the controller asks it to flip at time `now`.
    pub open spec fn requested(self, now: u64) -> StopLight {
        match self.policy {
            LightPolicy::Delayed { .. } => if self.active {
                self.flipped(now)
            } else {
                StopLight { queued: true, queued_at: now, ..self }
            },
            _ => self.flipped(now),
        }
    }

    /// The light after its own timer runs at time `now`.
    pub open spec fn ticked(self, now: u64) -> StopLight {
        match self.policy {
            LightPolicy::Manual => self,
            LightPolicy::Delayed { delay } => if self.queued && now >= self.queued_at && now - self.queued_at >= delay {
                self.flipped(now)
            } else {
                self
            },
            LightPolicy::Cycle { off, on } => {
                let limit = if self.active { on } else { off };
                if now >= self.flipped_at && now - self.flipped_at >= limit {
                    self.flipped(now)
                } else {
                    self
                }
            },
        }
    }

    /// The stopped, manually driven light that guards approach `lane`.
    pub fn new(lane: u32) -> (r: Self)
        requires
            lane < 4,
        ensures
            r == (StopLight {
                line: light_line(lane),
                flipped_at: 0,
                active: false,
                queued: false,
                queued_at: 0,
                policy: LightPolicy::Manual,
            }),
            r.line.wf(),
    {
        let cx = WIDTH as i64 * HALF_PIXEL;
        let cy = HEIGHT as i64 * HALF_PIXEL;
        let line = if lane == 0 {
            Rectangle::new(cx - 60000, cy + 25000, 1, 50, 0)
        } else if lane == 1 {
            Rectangle::new(cx - 25000, cy - 60000, 50, 1, 0)
        } else if lane == 2 {
            Rectangle::new(cx + 60000, cy - 25000, 1, 50, 0)
        } else {
            Rectangle::new(cx + 25000, cy + 60000, 50, 1, 0)
        };
        StopLight { line, flipped_at: 0, active: false, queued: false, queued_at: 0, policy: LightPolicy::Manual }
    }

    pub fn set_policy(&mut self, policy: LightPolicy)
        ensures
            *final(self) == (StopLight { policy, ..*old(self) }),
    {
        self.policy = policy;
    }

    /// Runs the light's own timer at time `now`.
    pub fn update(&mut self, now: u64)
        ensures
            *final(self) == old(self).ticked(now),
    {
        match self.policy {
            LightPolicy::Manual => {},
            LightPolicy::Delayed { delay } => {
                if self.queued && now >= self.queued_at && now - self.queued_at >= delay {
                    self.flip(now);
                }
            },
            LightPolicy::Cycle { off, on } => {
                let limit = if self.active { on } else { off };
                if now >= self.flipped_at && now - self.flipped_at >= limit {
                    self.flip(now);
                }
            },
        }
    }

    /// Switches between go and stop at time `now`.
    pub fn flip(&mut self, now: u64)
        ensures
            *final(self) == old(self).flipped(now),
    {
        self.flipped_at = now;
        self.active = !self.active;
        self.queued = false;
    }

    /// The controller's request to flip at time `now`.
    pub fn request_flip(&mut self, now: u64)
        ensures
            *final(self) == old(self).requested(now),
    {
        match self.policy {
            LightPolicy::Delayed { .. } => {
                if self.active {
                    self.flip(now);
                } else {
                    self.queued = true;
                    self.queued_at = now;
                }
            },
            _ => self.flip(now),
        }
    }
}

} // verus!
