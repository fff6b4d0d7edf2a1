//! The skier and the integration of its motion. Angles are in micro-radians,
//! durations in milliseconds, lengths in thousandths of a pixel and speeds in
//! thousandths of a pixel per second.
use vstd::prelude::*;
use crate::fixed::{
    abs, clamp, cos_fx, div_trunc, lemma_div_trunc_bound, mul_div, saturate, sin_cos, sin_fx,
    TRIG_ONE,
};

verus! {

/// How fast the skis turn while a side is held: micro-radians per millisecond.
pub const STEERING_RATE: i64 = 1_920;

/// The largest angle the skis may turn to either side: three quarters of pi.
pub const MAX_ANGLE: i64 = 2_356_194;

/// The least distance between the skier and an edge of the course.
pub const SKI_MARGIN: i64 = 12_000;

/// The bound on the skier's offset from the centre line: half the course's
/// width less the margin.
pub const LATERAL_LIMIT: i64 = 388_000;

/// The speed the slope adds each millisecond, before drag, when the skis
/// point straight down.
pub const ALONG_ACCELERATION: i64 = 20;

/// The fraction of its speed that the skier keeps over one millisecond, in
/// parts of `DRAG_ONE`: the per-second drag factor 0.88 to the power 1/1000.
pub const DRAG_PER_MS: i64 = 999_872_175;

/// The fixed-point value that stands for 1 in `DRAG_PER_MS`.
pub const DRAG_ONE: i64 = 1_000_000_000;

/// A bound on the forward speed that drag keeps the skier under.
pub const SPEED_LIMIT: i64 = 160_000;

/// The moving part of a run.
#[derive(Clone, Copy, Debug, PartialEq, Eq, Structural)]
pub struct SkierState {
    /// Offset across the course from its centre line.
    pub lateral_offset: i64,
    /// The angle of the skis, zero straight down the slope.
    pub direction: i64,
    /// Speed along the skis.
    pub forward_speed: i64,
    /// Progress down the course since the last gate scrolled away.
    pub distance_scrolled: i64,
    /// The index of the first gate that has not scrolled away.
    pub next_gate_index: usize,
    /// Whether the next gate has been judged since its line reached the ski tip.
    pub inside_gate_zone: bool,
}

impl SkierState {
    /// Angle, offset and speed stay within their bounds.
    pub open spec fn wf(self) -> bool {
        &&& -MAX_ANGLE <= self.direction <= MAX_ANGLE
        &&& -LATERAL_LIMIT <= self.lateral_offset <= LATERAL_LIMIT
        &&& -SPEED_LIMIT <= self.forward_speed <= SPEED_LIMIT
    }

    /// A skier at rest on the centre line, before the first gate.
    pub open spec fn at_start() -> SkierState {
        SkierState {
            lateral_offset: 0,
            direction: 0,
            forward_speed: 0,
            distance_scrolled: 0,
            next_gate_index: 0,
            inside_gate_zone: false,
        }
    }

    /// A skier at rest on the centre line, before the first gate.
    pub fn start() -> (s: SkierState)
        ensures
            s == SkierState::at_start(),
            s.wf(),
    {
        SkierState {
            lateral_offset: 0,
            direction: 0,
            forward_speed: 0,
            distance_scrolled: 0,
            next_gate_index: 0,
            inside_gate_zone: false,
        }
    }
}

/// The angle after steering to `side` (-1 left, 1 right, 0 none) for `dt`
/// milliseconds: turned at the steering rate, then clamped.
pub open spec fn steered(direction: int, side: int, dt: int) -> int {
    clamp(direction + STEERING_RATE * dt * side, -MAX_ANGLE as int, MAX_ANGLE as int)
}

/// The sum of a sequence of tick lengths.
pub open spec fn total_time(dts: Seq<u32>) -> int
    decreases dts.len(),
{
    if dts.len() == 0 {
        0
    } else {
        dts[0] + total_time(dts.drop_first())
    }
}

/// The angle after steering to `side` for each tick length of `dts` in turn.
pub open spec fn steered_through(direction: int, side: int, dts: Seq<u32>) -> int
    decreases dts.len(),
{
    if dts.len() == 0 {
        direction
    } else {
        steered_through(steered(direction, side, dts[0] as int), side, dts.drop_first())
    }
}

proof fn lemma_steered_twice(d: int, side: int, a: int, b: int)
    requires
        -MAX_ANGLE <= d <= MAX_ANGLE,
        -1 <= side <= 1,
        a >= 0,
        b >= 0,
    ensures
        steered(steered(d, side, a), side, b) == steered(d, side, a + b),
{
    if side == 1 {
        assert(STEERING_RATE * a * side == STEERING_RATE * a);
        assert(STEERING_RATE * b * side == STEERING_RATE * b);
        assert(STEERING_RATE * (a + b) * side == STEERING_RATE * a + STEERING_RATE * b);
    } else if side == -1 {
        assert(STEERING_RATE * a * side == -STEERING_RATE * a);
        assert(STEERING_RATE * b * side == -STEERING_RATE * b);
        assert(STEERING_RATE * (a + b) * side == -STEERING_RATE * a - STEERING_RATE * b);
    } else {
        assert(side == 0);
        assert(STEERING_RATE * a * side == 0);
        assert(STEERING_RATE * b * side == 0);
        assert(STEERING_RATE * (a + b) * side == 0);
    }
}

/// Steering is independent of how time is cut into ticks: holding one side
/// through ticks of any lengths turns the skis exactly as one tick of their
/// total length does.
pub proof fn lemma_steering_frame_rate_independent(direction: int, side: int, dts: Seq<u32>)
    requires
        -MAX_ANGLE <= direction <= MAX_ANGLE,
        -1 <= side <= 1,
    ensures
        steered_through(direction, side, dts) == steered(direction, side, total_time(dts)),
    decreases dts.len(),
{
    if dts.len() == 0 {
        assert(STEERING_RATE * 0 * side == 0) by (nonlinear_arith);
    } else {
        let d1 = steered(direction, side, dts[0] as int);
        lemma_steering_frame_rate_independent(d1, side, dts.drop_first());
        lemma_total_time_nonneg(dts.drop_first());
        lemma_steered_twice(direction, side, dts[0] as int, total_time(dts.drop_first()));
    }
}

proof fn lemma_total_time_nonneg(dts: Seq<u32>)
    ensures
        total_time(dts) >= 0,
    decreases dts.len(),
{
    if dts.len() > 0 {
        lemma_total_time_nonneg(dts.drop_first());
    }
}

/// One millisecond of drag.
pub open spec fn drag_step(v: int) -> int {
    div_trunc(v * DRAG_PER_MS, DRAG_ONE as int)
}

/// `n` milliseconds of drag.
pub open spec fn decayed(v: int, n: nat) -> int
    decreases n,
{
    if n == 0 {
        v
    } else {
        drag_step(decayed(v, (n - 1) as nat))
    }
}

/// The speed after `dt` milliseconds: the slope's pull along the skis is
/// added, then drag acts for the whole interval.
pub open spec fn new_speed(v: int, direction: int, dt: nat) -> int {
    decayed(v + div_trunc(ALONG_ACCELERATION * dt * cos_fx(direction), TRIG_ONE as int), dt)
}

/// The part of the speed that points down the course.
pub open spec fn along_speed(v: int, direction: int) -> int {
    div_trunc(v * cos_fx(direction), TRIG_ONE as int)
}

/// The offset across the course after `dt` milliseconds at speed `v`,
/// clamped to the course's margins.
pub open spec fn lateral_step(x: int, v: int, direction: int, dt: int) -> int {
    clamp(
        x + div_trunc(v * dt * sin_fx(direction), TRIG_ONE * 1000),
        -LATERAL_LIMIT as int,
        LATERAL_LIMIT as int,
    )
}

/// The progress down the course after `dt` milliseconds at `along`.
pub open spec fn scroll_step(d: int, along: int, dt: int) -> int {
    saturate(d + div_trunc(along * dt, 1000))
}

/// The skier after `dt` milliseconds of gliding: speed, offset across and
/// progress down the course advance; angle and gate tracking stay.
pub open spec fn glided(s: SkierState, dt: nat) -> SkierState {
    let v = new_speed(s.forward_speed as int, s.direction as int, dt);
    SkierState {
        forward_speed: v as i64,
        lateral_offset: lateral_step(s.lateral_offset as int, v, s.direction as int, dt as int) as i64,
        distance_scrolled: scroll_step(
            s.distance_scrolled as int,
            along_speed(v, s.direction as int),
            dt as int,
        ) as i64,
        ..s
    }
}

proof fn lemma_drag_step_bound(v: int, j: int)
    requires
        j >= 1,
        abs(v) <= SPEED_LIMIT + ALONG_ACCELERATION * j,
    ensures
        abs(drag_step(v)) <= SPEED_LIMIT + ALONG_ACCELERATION * (j - 1),
{
    let m = (SPEED_LIMIT + ALONG_ACCELERATION * j) * DRAG_PER_MS;
    let k = SPEED_LIMIT + ALONG_ACCELERATION * (j - 1);
    lemma_div_trunc_bound(v * DRAG_PER_MS, DRAG_ONE as int, m);
    vstd::arithmetic::div_mod::lemma_div_is_ordered(m, DRAG_ONE * k, DRAG_ONE as int);
    vstd::arithmetic::div_mod::lemma_div_multiples_vanish_fancy(k, 0, DRAG_ONE as int);
}

/// `n` milliseconds of drag on a speed that drag brings under the limit.
fn decay(v: i64, n: u32) -> (r: i64)
    requires
        abs(v as int) <= SPEED_LIMIT + ALONG_ACCELERATION * n,
    ensures
        r == decayed(v as int, n as nat),
        abs(r as int) <= SPEED_LIMIT,
{
    let mut cur: i64 = v;
    let mut i: u32 = 0;
    while i < n
        invariant
            i <= n,
            cur == decayed(v as int, i as nat),
            abs(cur as int) <= SPEED_LIMIT + ALONG_ACCELERATION * (n - i),
        decreases n - i,
    {
        proof {
            lemma_drag_step_bound(cur as int, (n - i) as int);
            lemma_div_trunc_bound(
                cur * DRAG_PER_MS,
                DRAG_ONE as int,
                (SPEED_LIMIT + ALONG_ACCELERATION * (n - i)) * DRAG_PER_MS,
            );
        }
        cur = mul_div(cur, DRAG_PER_MS, DRAG_ONE);
        i = i + 1;
    }
    cur
}

impl SkierState {
    /// Turns the skis to `side` for `dt` milliseconds.
    pub fn steer(&mut self, side: i8, dt: u32)
        requires
            -1 <= side <= 1,
            -MAX_ANGLE <= old(self).direction <= MAX_ANGLE,
        ensures
            *final(self) == (SkierState {
                direction: steered(old(self).direction as int, side as int, dt as int) as i64,
                ..*old(self)
            }),
    {
        let turn: i64 = if side == 0 {
            0
        } else if side > 0 {
            STEERING_RATE * (dt as i64)
        } else {
            -(STEERING_RATE * (dt as i64))
        };
        assert(turn == STEERING_RATE * dt * side) by (nonlinear_arith)
            requires
                -1 <= side <= 1,
                side == 0 ==> turn == 0,
                side > 0 ==> turn == STEERING_RATE * dt,
                side < 0 ==> turn == -(STEERING_RATE * dt),
        ;
        let d = self.direction + turn;
        self.direction = if d < -MAX_ANGLE {
            -MAX_ANGLE
        } else if d > MAX_ANGLE {
            MAX_ANGLE
        } else {
            d
        };
    }

    /// Glides for `dt` milliseconds: the slope and drag change the speed,
    /// which moves the skier across the course and the course past the skier.
    pub fn glide(&mut self, dt: u32)
        requires
            old(self).wf(),
        ensures
            *final(self) == glided(*old(self), dt as nat),
            final(self).wf(),
    {
        let (sin, cos) = sin_cos(self.direction);
        let pull = ALONG_ACCELERATION * (dt as i64);
        proof {
            let m = pull * TRIG_ONE;
            assert(abs(pull * cos) <= m) by (nonlinear_arith)
                requires
                    pull >= 0,
                    -TRIG_ONE <= cos <= TRIG_ONE,
                    m == pull * TRIG_ONE,
            ;
            lemma_div_trunc_bound(pull * cos, TRIG_ONE as int, m);
            vstd::arithmetic::div_mod::lemma_div_multiples_vanish_fancy(pull as int, 0, TRIG_ONE as int);
        }
        let accel = mul_div(pull, cos, TRIG_ONE);
        let v = decay(self.forward_speed + accel, dt);
        proof {
            let m = SPEED_LIMIT * TRIG_ONE;
            assert(abs(v * cos) <= m) by (nonlinear_arith)
                requires
                    -SPEED_LIMIT <= v <= SPEED_LIMIT,
                    -TRIG_ONE <= cos <= TRIG_ONE,
                    m == SPEED_LIMIT * TRIG_ONE,
            ;
            lemma_div_trunc_bound(v * cos, TRIG_ONE as int, m);
        }
        let along = mul_div(v, cos, TRIG_ONE);
        assert(abs(v * dt) <= SPEED_LIMIT * 0xffff_ffff) by (nonlinear_arith)
            requires
                -SPEED_LIMIT <= v <= SPEED_LIMIT,
                0 <= dt <= 0xffff_ffff,
        ;
        let travel = v * (dt as i64);
        proof {
            let m = SPEED_LIMIT * 0xffff_ffff * TRIG_ONE;
            assert(abs(travel * sin) <= m) by (nonlinear_arith)
                requires
                    abs(travel as int) <= SPEED_LIMIT * 0xffff_ffff,
                    -TRIG_ONE <= sin <= TRIG_ONE,
                    m == SPEED_LIMIT * 0xffff_ffff * TRIG_ONE,
            ;
            lemma_div_trunc_bound(travel * sin, TRIG_ONE * 1000, m);
        }
        let across = mul_div(travel, sin, TRIG_ONE * 1000);
        proof {
            let m = SPEED_LIMIT * 0xffff_ffff;
            assert(abs(along * dt) <= m) by (nonlinear_arith)
                requires
                    -SPEED_LIMIT <= along <= SPEED_LIMIT,
                    0 <= dt <= 0xffff_ffff,
                    m == SPEED_LIMIT * 0xffff_ffff,
            ;
            lemma_div_trunc_bound(along * dt, 1000, m);
        }
        let down = mul_div(along, dt as i64, 1000);
        let x = self.lateral_offset + across;
        self.lateral_offset = if x < -LATERAL_LIMIT {
            -LATERAL_LIMIT
        } else if x > LATERAL_LIMIT {
            LATERAL_LIMIT
        } else {
            x
        };
        let d: i128 = self.distance_scrolled as i128 + down as i128;
        self.distance_scrolled = if d < i64::MIN as i128 {
            i64::MIN
        } else if d > i64::MAX as i128 {
            i64::MAX
        } else {
            d as i64
        };
        self.forward_speed = v;
    }
}

} // verus!
