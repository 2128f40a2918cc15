//! A vehicle and its maneuver state machine.
use vstd::prelude::*;
use crate::chance::random_below;
use crate::config::{BOX_HALF, HEIGHT, WIDTH};
use crate::geometry::{
    create_vehicle_vision, floor_div, vision_rect, Rectangle, HALF_PIXEL, MAX_COORD, POS_SCALE,
};
use crate::trig::{cos_of, cos_sin, sin_of, FULL_TURN, QUARTER_TURN, TRIG_SCALE};

verus! {

/// Length of the forward sensor box, in pixels.
pub const VISION_LENGTH: u32 = 20;

/// Width of the forward sensor box, in pixels.
pub const VISION_WIDTH: u32 = 10;

/// The speed, in pixels per second, to which every update resets a vehicle by default.
pub const CRUISE_SPEED: u32 = 500;

/// The longest time step, in microseconds, that one update may take.
pub const MAX_DT: u64 = 10000000;

/// A vehicle whose center lies within this many position units of the origin may be updated.
pub const ROAM_LIMIT: i64 = 281474976710656;

/// The centers of vehicles stay within this many position units of the origin.
pub const VEHICLE_LIMIT: i64 = 562949953421312;

/// Divides speed (pixels per second) times time (microseconds) times a
/// fixed-point cosine into position units.
pub const MOTION_DIVISOR: i128 = 1000000000;

/// Hundredths of a degree per radian, times a thousand.
pub const CENTIDEGREES_PER_RADIAN_MILLI: u128 = 5729578;

#[derive(Clone, Copy, Debug, PartialEq, Eq, Structural)]
pub enum State {
    Driving,
    Turning,
    /// Kept for completeness: no transition leads here.
    Stop,
}

#[derive(Clone, Copy, Debug, PartialEq, Eq, Structural)]
pub enum TurnDirection {
    Left,
    Straight,
    Right,
}

#[derive(Clone, Copy, Debug, PartialEq, Eq, Structural)]
pub enum Lane {
    Left,
    Right,
}

/// A vehicle: its bounds, the sensor box ahead of it, its maneuver state,
/// and the entrance it came from.
#[derive(Clone, Copy, Debug, PartialEq, Eq, Structural)]
pub struct Vehicle {
    pub id: usize,
    pub speed: u32,
    pub bounds: Rectangle,
    pub vision: Rectangle,
    pub direction: u32,
    pub state: State,
    pub lane: Lane,
    pub turn: TurnDirection,
    pub entrance: u32,
    pub speed_override: Option<u32>,
}

/// The world's center along x, in position units.
pub open spec fn center_x() -> int {
    WIDTH * HALF_PIXEL
}

/// The world's center along y, in position units.
pub open spec fn center_y() -> int {
    HEIGHT * HALF_PIXEL
}

/// Half the side of the central box, in position units.
pub open spec fn box_half() -> int {
    BOX_HALF * POS_SCALE
}

/// The point lies strictly inside the central intersection box.
pub open spec fn in_center_box(x: int, y: int) -> bool {
    &&& center_x() - box_half() < x < center_x() + box_half()
    &&& center_y() - box_half() < y < center_y() + box_half()
}

/// The point lies outside the world `[0, WIDTH] x [0, HEIGHT]`.
pub open spec fn out_of_world(x: int, y: int) -> bool {
    x > WIDTH * POS_SCALE || x < 0 || y > HEIGHT * POS_SCALE || y < 0
}

/// Where an entrance puts a new vehicle: center, heading and lane.
pub open spec fn entrance_pose(entrance: u32) -> (int, int, u32, Lane) {
    let cx = center_x();
    let cy = center_y();
    let near = 12500int;
    let far = 37500int;
    let w = WIDTH * POS_SCALE;
    let h = HEIGHT * POS_SCALE;
    if entrance == 0 {
        (0, cy + near, 0, Lane::Left)
    } else if entrance == 1 {
        (0, cy + far, 0, Lane::Right)
    } else if entrance == 2 {
        (cx - near, 0, QUARTER_TURN, Lane::Left)
    } else if entrance == 3 {
        (cx - far, 0, QUARTER_TURN, Lane::Right)
    } else if entrance == 4 {
        (w, cy - near, (2 * QUARTER_TURN) as u32, Lane::Left)
    } else if entrance == 5 {
        (w, cy - far, (2 * QUARTER_TURN) as u32, Lane::Right)
    } else if entrance == 6 {
        (cx + near, h, (3 * QUARTER_TURN) as u32, Lane::Left)
    } else {
        (cx + far, h, (3 * QUARTER_TURN) as u32, Lane::Right)
    }
}

/// The intended turn for a draw in `0..3`: two draws in three turn towards
/// the vehicle's own side, the third goes straight.
pub open spec fn turn_for_roll(lane: Lane, roll: u64) -> TurnDirection {
    if roll == 2 {
        TurnDirection::Straight
    } else if lane == Lane::Left {
        TurnDirection::Left
    } else {
        TurnDirection::Right
    }
}

/// Turn radius in position units; zero for going straight.
pub open spec fn turn_radius_of(lane: Lane, turn: TurnDirection) -> u64 {
    match (lane, turn) {
        (Lane::Right, TurnDirection::Right) => 12500,
        (Lane::Right, TurnDirection::Left) => 87500,
        (Lane::Left, TurnDirection::Right) => 37500,
        (Lane::Left, TurnDirection::Left) => 62500,
        (_, TurnDirection::Straight) => 0,
    }
}

/// A coordinate moved for `dt` microseconds at `speed` along a direction
/// whose fixed-point component on this axis is `trig`.
pub open spec fn advance(pos: int, speed: u32, dt: u64, trig: int) -> int {
    pos + (speed * dt * trig) / (MOTION_DIVISOR as int)
}

/// The angle, in heading units, swept in `dt` microseconds at `speed` on a
/// circle of `radius` position units.
pub open spec fn heading_change(speed: u32, dt: u64, radius: u64) -> int {
    (speed * dt * CENTIDEGREES_PER_RADIAN_MILLI) / (radius * 1000000)
}

/// A heading turned by `change`: left turns decrease it, right turns increase it.
pub open spec fn turned_heading(direction: u32, turn: TurnDirection, change: int) -> u32 {
    match turn {
        TurnDirection::Left => ((direction + FULL_TURN - change % (FULL_TURN as int)) % (FULL_TURN as int)) as u32,
        TurnDirection::Right => ((direction + change % (FULL_TURN as int)) % (FULL_TURN as int)) as u32,
        TurnDirection::Straight => direction,
    }
}

/// The nearest multiple of a quarter turn, halves rounding up, in `[0, FULL_TURN)`.
pub open spec fn quantized(direction: u32) -> u32 {
    (((direction + QUARTER_TURN / 2) / (QUARTER_TURN as int) * QUARTER_TURN) % (FULL_TURN as int)) as u32
}

impl Vehicle {
    /// The bounds follow the heading, the sensor box sits ahead of the bounds,
    /// and the center is within `VEHICLE_LIMIT` of the origin.
    pub open spec fn wf(&self) -> bool {
        &&& self.bounds.wf()
        &&& self.bounds.direction == self.direction
        &&& -VEHICLE_LIMIT <= self.bounds.x <= VEHICLE_LIMIT
        &&& -VEHICLE_LIMIT <= self.bounds.y <= VEHICLE_LIMIT
        &&& self.vision == vision_rect((self.bounds.x, self.bounds.y), self.direction, VISION_LENGTH, VISION_WIDTH)
        &&& self.vision.wf()
        &&& self.entrance < 8
    }

    /// The center is near enough to the origin for an update to stay in range.
    pub open spec fn roaming(&self) -> bool {
        &&& -ROAM_LIMIT <= self.bounds.x <= ROAM_LIMIT
        &&& -ROAM_LIMIT <= self.bounds.y <= ROAM_LIMIT
    }

    /// The vehicle moved to `(x, y)` with heading `direction`, its sensor box following.
    pub open spec fn placed(self, x: int, y: int, direction: u32) -> Vehicle {
        Vehicle {
            bounds: Rectangle { x: x as i64, y: y as i64, direction, ..self.bounds },
            vision: vision_rect((x as i64, y as i64), direction, VISION_LENGTH, VISION_WIDTH),
            direction,
            ..self
        }
    }

    /// One step of straight driving; entering the central box starts the turn.
    pub open spec fn driven(self, dt: u64) -> Vehicle {
        let x = advance(self.bounds.x as int, self.speed, dt, cos_of(self.direction));
        let y = advance(self.bounds.y as int, self.speed, dt, sin_of(self.direction));
        let moved = self.placed(x, y, self.direction);
        if in_center_box(x, y) {
            Vehicle { state: State::Turning, ..moved }
        } else {
            moved
        }
    }

    /// The vehicle after `apply_turn(radius, dt)`: rotate, then move along the new heading.
    pub open spec fn turned_by(self, radius: u64, dt: u64) -> Vehicle {
        let direction = if radius == 0 {
            self.direction
        } else {
            turned_heading(self.direction, self.turn, heading_change(self.speed, dt, radius))
        };
        let x = advance(self.bounds.x as int, self.speed, dt, cos_of(direction));
        let y = advance(self.bounds.y as int, self.speed, dt, sin_of(direction));
        self.placed(x, y, direction)
    }

    /// One step of turning; leaving the central box snaps the heading to a
    /// quarter turn and resumes driving.
    pub open spec fn turning(self, dt: u64) -> Vehicle {
        let moved = self.turned_by(turn_radius_of(self.lane, self.turn), dt);
        if in_center_box(moved.bounds.x as int, moved.bounds.y as int) {
            moved
        } else {
            Vehicle {
                state: State::Driving,
                ..moved.placed(moved.bounds.x as int, moved.bounds.y as int, quantized(moved.direction))
            }
        }
    }

    /// The vehicle after `update(dt)`.
    pub open spec fn stepped(self, dt: u64) -> Vehicle {
        let moved = match self.state {
            State::Driving => self.driven(dt),
            State::Turning => self.turning(dt),
            State::Stop => self,
        };
        match self.speed_override {
            Some(s) => Vehicle { speed: s, ..moved },
            None => moved,
        }
    }
}

/// The vehicle that `Vehicle::with_turn_roll` builds.
pub open spec fn spawned(id: usize, speed: u32, width: u32, height: u32, entrance: u32, roll: u64) -> Vehicle {
    let (x, y, direction, lane) = entrance_pose(entrance);
    Vehicle {
        id,
        speed,
        bounds: Rectangle { x: x as i64, y: y as i64, width, height, direction },
        vision: vision_rect((x as i64, y as i64), direction, VISION_LENGTH, VISION_WIDTH),
        direction,
        state: State::Driving,
        lane,
        turn: turn_for_roll(lane, roll),
        entrance,
        speed_override: Some(CRUISE_SPEED),
    }
}

/// A vehicle placed within `VEHICLE_LIMIT` with a sensor box ahead of it is well formed.
proof fn lemma_placed_wf(v: Vehicle, x: int, y: int, direction: u32)
    requires
        v.bounds.wf(),
        v.entrance < 8,
        -VEHICLE_LIMIT <= x <= VEHICLE_LIMIT,
        -VEHICLE_LIMIT <= y <= VEHICLE_LIMIT,
        direction < FULL_TURN,
    ensures
        v.placed(x, y, direction).wf(),
{
    crate::geometry::lemma_vision_near((x as i64, y as i64), direction, VISION_LENGTH, VISION_WIDTH);
}

fn advance_coord(pos: i64, speed: u32, dt: u64, trig: i64) -> (r: i64)
    requires
        -ROAM_LIMIT <= pos <= ROAM_LIMIT,
        dt <= MAX_DT,
        -TRIG_SCALE <= trig <= TRIG_SCALE,
    ensures
        r == advance(pos as int, speed, dt, trig as int),
        -VEHICLE_LIMIT <= r <= VEHICLE_LIMIT,
{
    proof {
        assert(0 <= speed * dt <= 42949672950000000) by (nonlinear_arith)
            requires
                speed <= u32::MAX,
                dt <= MAX_DT,
        ;
    }
    let sd = speed as i128 * dt as i128;
    proof {
        crate::geometry::lemma_mul_abs_le(sd as int, trig as int, 42949672950000000, 1000000);
        crate::geometry::lemma_div_within(sd * trig, 70368744177664, MOTION_DIVISOR as int);
    }
    let d = floor_div(sd * trig as i128, MOTION_DIVISOR);
    (pos as i128 + d) as i64
}

impl Vehicle {
    /// Builds the vehicle that spawns at `entrance`, with `roll` in `0..3`
    /// choosing its intended turn.
    pub fn with_turn_roll(id: usize, speed: u32, width: u32, height: u32, entrance: u32, roll: u64) -> (r: Self)
        requires
            entrance < 8,
            roll < 3,
            0 < width <= crate::geometry::MAX_EXTENT,
            0 < height <= crate::geometry::MAX_EXTENT,
        ensures
            r == spawned(id, speed, width, height, entrance, roll),
            r.wf(),
            r.roaming(),
    {
        let cx = WIDTH as i64 * HALF_PIXEL;
        let cy = HEIGHT as i64 * HALF_PIXEL;
        let w = WIDTH as i64 * POS_SCALE;
        let h = HEIGHT as i64 * POS_SCALE;
        let (x, y, direction, lane) = if entrance == 0 {
            (0i64, cy + 12500, 0u32, Lane::Left)
        } else if entrance == 1 {
            (0i64, cy + 37500, 0u32, Lane::Right)
        } else if entrance == 2 {
            (cx - 12500, 0i64, QUARTER_TURN, Lane::Left)
        } else if entrance == 3 {
            (cx - 37500, 0i64, QUARTER_TURN, Lane::Right)
        } else if entrance == 4 {
            (w, cy - 12500, 2 * QUARTER_TURN, Lane::Left)
        } else if entrance == 5 {
            (w, cy - 37500, 2 * QUARTER_TURN, Lane::Right)
        } else if entrance == 6 {
            (cx + 12500, h, 3 * QUARTER_TURN, Lane::Left)
        } else {
            (cx + 37500, h, 3 * QUARTER_TURN, Lane::Right)
        };
        let turn = if roll == 2 {
            TurnDirection::Straight
        } else if lane == Lane::Left {
            TurnDirection::Left
        } else {
            TurnDirection::Right
        };
        let bounds = Rectangle::new(x, y, width, height, direction);
        let vision = create_vehicle_vision((x, y), direction, VISION_LENGTH, VISION_WIDTH);
        proof {
            crate::geometry::lemma_vision_near((x, y), direction, VISION_LENGTH, VISION_WIDTH);
        }
        Vehicle {
            id,
            speed,
            bounds,
            vision,
            direction,
            state: State::Driving,
            lane,
            turn,
            entrance,
            speed_override: Some(CRUISE_SPEED),
        }
    }

    /// Builds a vehicle at `entrance` with an intended turn drawn at random.
    pub fn new(id: usize, speed: u32, width: u32, height: u32, entrance: u32) -> (r: Self)
        requires
            entrance < 8,
            0 < width <= crate::geometry::MAX_EXTENT,
            0 < height <= crate::geometry::MAX_EXTENT,
        ensures
            exists|roll: u64| roll < 3 && r == spawned(id, speed, width, height, entrance, roll),
            r.wf(),
            r.roaming(),
    {
        let roll = random_below(3);
        Self::with_turn_roll(id, speed, width, height, entrance, roll)
    }

    pub fn state(&self) -> (r: State)
        ensures
            r == self.state,
    {
        self.state
    }

    pub fn turn(&self) -> (r: TurnDirection)
        ensures
            r == self.turn,
    {
        self.turn
    }

    /// Sets the speed that every update resets the vehicle to; `None` keeps
    /// the speed as it is.
    pub fn set_speed_override(&mut self, speed: Option<u32>)
        ensures
            *final(self) == (Vehicle { speed_override: speed, ..*old(self) }),
    {
        self.speed_override = speed;
    }

    /// The turn radius, in position units, for this vehicle's lane and intended turn.
    pub fn get_turn_radius(&self) -> (r: u64)
        ensures
            r == turn_radius_of(self.lane, self.turn),
    {
        match self.lane {
            Lane::Right => match self.turn {
                TurnDirection::Right => 12500,
                TurnDirection::Left => 87500,
                TurnDirection::Straight => 0,
            },
            Lane::Left => match self.turn {
                TurnDirection::Right => 37500,
                TurnDirection::Left => 62500,
                TurnDirection::Straight => 0,
            },
        }
    }

    /// The vehicle has left the world.
    pub fn check_bounds(&self) -> (r: bool)
        ensures
            r == out_of_world(self.bounds.x as int, self.bounds.y as int),
    {
        self.bounds.x > WIDTH as i64 * POS_SCALE || self.bounds.x < 0
            || self.bounds.y > HEIGHT as i64 * POS_SCALE || self.bounds.y < 0
    }
}

impl Vehicle {
    fn move_to(&mut self, x: i64, y: i64, direction: u32)
        requires
            old(self).bounds.wf(),
            old(self).entrance < 8,
            -VEHICLE_LIMIT <= x <= VEHICLE_LIMIT,
            -VEHICLE_LIMIT <= y <= VEHICLE_LIMIT,
            direction < FULL_TURN,
        ensures
            *final(self) == old(self).placed(x as int, y as int, direction),
            final(self).wf(),
    {
        proof {
            lemma_placed_wf(*self, x as int, y as int, direction);
        }
        self.bounds.x = x;
        self.bounds.y = y;
        self.bounds.direction = direction;
        self.direction = direction;
        self.vision = create_vehicle_vision((x, y), direction, VISION_LENGTH, VISION_WIDTH);
    }

    /// Rotates the heading by the angle swept on a circle of `radius`
    /// position units in `delta_time` microseconds, then moves along the new
    /// heading. A zero radius leaves the heading as it is.
    pub fn apply_turn(&mut self, radius: u64, delta_time: u64)
        requires
            old(self).wf(),
            old(self).roaming(),
            delta_time <= MAX_DT,
        ensures
            *final(self) == old(self).turned_by(radius, delta_time),
            final(self).wf(),
    {
        let mut direction = self.direction;
        if radius > 0 {
            proof {
                assert(0 <= self.speed * delta_time * CENTIDEGREES_PER_RADIAN_MILLI <= 246083739120000000000000) by (nonlinear_arith)
                    requires
                        self.speed <= u32::MAX,
                        delta_time <= MAX_DT,
                ;
                assert(0 < radius * 1000000 <= u64::MAX * 1000000) by (nonlinear_arith)
                    requires
                        0 < radius <= u64::MAX,
                ;
            }
            let change = (self.speed as u128 * delta_time as u128 * CENTIDEGREES_PER_RADIAN_MILLI)
                / (radius as u128 * 1000000);
            let m = (change % FULL_TURN as u128) as u32;
            direction = match self.turn {
                TurnDirection::Left => (direction + FULL_TURN - m) % FULL_TURN,
                TurnDirection::Right => (direction + m) % FULL_TURN,
                TurnDirection::Straight => direction,
            };
        }
        let (c, s) = cos_sin(direction);
        let x = advance_coord(self.bounds.x, self.speed, delta_time, c);
        let y = advance_coord(self.bounds.y, self.speed, delta_time, s);
        self.move_to(x, y, direction);
    }

    /// Snaps the heading to the nearest quarter turn.
    pub fn quantize_direction(&mut self)
        requires
            old(self).wf(),
        ensures
            *final(self) == old(self).placed(old(self).bounds.x as int, old(self).bounds.y as int, quantized(old(self).direction)),
            final(self).direction == 0 || final(self).direction == QUARTER_TURN
                || final(self).direction == 2 * QUARTER_TURN || final(self).direction == 3 * QUARTER_TURN,
            final(self).wf(),
    {
        let d = (self.direction + QUARTER_TURN / 2) / QUARTER_TURN * QUARTER_TURN % FULL_TURN;
        let x = self.bounds.x;
        let y = self.bounds.y;
        self.move_to(x, y, d);
    }

    /// Advances the vehicle by `dt` microseconds through its maneuver state machine.
    pub fn update(&mut self, dt: u64)
        requires
            old(self).wf(),
            old(self).roaming(),
            dt <= MAX_DT,
        ensures
            *final(self) == old(self).stepped(dt),
            final(self).wf(),
    {
        match self.state {
            State::Driving => {
                let (c, s) = cos_sin(self.direction);
                let x = advance_coord(self.bounds.x, self.speed, dt, c);
                let y = advance_coord(self.bounds.y, self.speed, dt, s);
                let d = self.direction;
                self.move_to(x, y, d);
                if in_center_box_exec(x, y) {
                    self.state = State::Turning;
                }
            },
            State::Stop => {},
            State::Turning => {
                let radius = self.get_turn_radius();
                self.apply_turn(radius, dt);
                if !in_center_box_exec(self.bounds.x, self.bounds.y) {
                    self.quantize_direction();
                    self.state = State::Driving;
                }
            },
        }
        if let Some(s) = self.speed_override {
            self.speed = s;
        }
    }
}

fn in_center_box_exec(x: i64, y: i64) -> (r: bool)
    ensures
        r == in_center_box(x as int, y as int),
{
    let cx = WIDTH as i64 * HALF_PIXEL;
    let cy = HEIGHT as i64 * HALF_PIXEL;
    let half = BOX_HALF as i64 * POS_SCALE;
    x < cx + half && x > cx - half && y < cy + half && y > cy - half
}

/// Quantizing any heading gives one of the four quarter turns.
pub proof fn lemma_quantized_quarter(direction: u32)
    ensures
        quantized(direction) == 0 || quantized(direction) == QUARTER_TURN
            || quantized(direction) == 2 * QUARTER_TURN || quantized(direction) == 3 * QUARTER_TURN,
{
    let k = (direction + QUARTER_TURN / 2) / (QUARTER_TURN as int);
    let m = (k * QUARTER_TURN) % (FULL_TURN as int);
    vstd::arithmetic::div_mod::lemma_fundamental_div_mod(k * QUARTER_TURN, FULL_TURN as int);
    let j = (k * QUARTER_TURN) / (FULL_TURN as int);
    assert(k * 9000 == 36000 * j + m);
    assert(m == (k - 4 * j) * 9000) by (nonlinear_arith)
        requires
            k * 9000 == 36000 * j + m,
    ;
    assert(0 <= k - 4 * j < 4) by (nonlinear_arith)
        requires
            m == (k - 4 * j) * 9000,
            0 <= m < 36000,
    ;
}

/// Two vehicles spawned at the same entrance with the same size share their
/// place, heading, sensor box and lane, whatever their turn draws.
pub proof fn lemma_spawn_geometry(
    id1: usize, id2: usize, speed: u32, width: u32, height: u32, entrance: u32, roll1: u64, roll2: u64,
)
    ensures
        ({
            let a = spawned(id1, speed, width, height, entrance, roll1);
            let b = spawned(id2, speed, width, height, entrance, roll2);
            &&& a.bounds == b.bounds
            &&& a.vision == b.vision
            &&& a.direction == b.direction
            &&& a.lane == b.lane
            &&& a.state == b.state
        }),
{
}

/// In one update a driving vehicle starts its turn exactly when its new
/// position lies inside the central box, and a turning vehicle resumes
/// driving exactly when its new position lies outside, heading along a
/// quarter turn. Over a run of updates, the step that starts the turn is
/// therefore the first step that ends inside the box.
pub proof fn lemma_step_transitions(v: Vehicle, dt: u64)
    requires
        v.wf(),
        v.roaming(),
        dt <= MAX_DT,
    ensures
        ({
            let w = v.stepped(dt);
            let inside = in_center_box(w.bounds.x as int, w.bounds.y as int);
            &&& v.state == State::Driving ==> (w.state == State::Turning <==> inside)
            &&& v.state == State::Driving && !inside ==> w.state == State::Driving
            &&& v.state == State::Turning ==> (w.state == State::Driving <==> !inside)
            &&& v.state == State::Turning && inside ==> w.state == State::Turning
            &&& v.state == State::Turning && !inside ==> {
                ||| w.direction == 0
                ||| w.direction == QUARTER_TURN
                ||| w.direction == 2 * QUARTER_TURN
                ||| w.direction == 3 * QUARTER_TURN
            }
        }),
{
    let moved = v.turned_by(turn_radius_of(v.lane, v.turn), dt);
    lemma_quantized_quarter(moved.direction);
    crate::geometry::lemma_trig_range(v.direction);
    crate::geometry::lemma_trig_range(moved.direction);
    lemma_advance_range(v.bounds.x as int, v.speed, dt, cos_of(v.direction));
    lemma_advance_range(v.bounds.y as int, v.speed, dt, sin_of(v.direction));
    lemma_advance_range(v.bounds.x as int, v.speed, dt, cos_of(moved.direction));
    lemma_advance_range(v.bounds.y as int, v.speed, dt, sin_of(moved.direction));
}

/// One step of motion from a roaming coordinate stays within `VEHICLE_LIMIT`.
proof fn lemma_advance_range(pos: int, speed: u32, dt: u64, trig: int)
    requires
        -ROAM_LIMIT <= pos <= ROAM_LIMIT,
        dt <= MAX_DT,
        -TRIG_SCALE <= trig <= TRIG_SCALE,
    ensures
        -VEHICLE_LIMIT <= advance(pos, speed, dt, trig) <= VEHICLE_LIMIT,
{
    assert(0 <= speed * dt <= 42949672950000000) by (nonlinear_arith)
        requires
            speed <= u32::MAX,
            dt <= MAX_DT,
    ;
    crate::geometry::lemma_mul_abs_le(speed * dt, trig, 42949672950000000, 1000000);
    crate::geometry::lemma_div_within(speed * dt * trig, 70368744177664, MOTION_DIVISOR as int);
}

} // verus!
