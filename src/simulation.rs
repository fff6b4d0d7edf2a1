//! The run state machine: Ready, Running, then Finished or Failed, and back
//! to Ready with a fresh course once the start signal is withdrawn.
use vstd::prelude::*;
use crate::course::{
    course_shape, course_wf, generate_course, Gate, GATES_IN_SCREEN, GATE_SPAN,
    TOTAL_N_GATES,
};
use crate::fixed::saturate;
use crate::physics::{glided, steered, SkierState, LATERAL_LIMIT, MAX_ANGLE};
use crate::random::seeded_rng;
use crate::tracker::{after_gates, track, RunPhase};

verus! {

/// A key the player can press or release.
#[derive(Clone, Copy, Debug, PartialEq, Eq, Structural)]
pub enum Key {
    /// Steer to the left.
    Left,
    /// Steer to the right.
    Right,
    /// Ask for a run.
    Start,
    /// Withdraw the request for a run.
    Reset,
}

/// The latest input: the side held (-1 left, 0 none, 1 right) and whether a
/// run is requested.
#[derive(Clone, Copy, Debug, PartialEq, Eq, Structural)]
pub struct InputState {
    pub steer_direction: i8,
    pub run_requested: bool,
}

impl InputState {
    pub open spec fn wf(self) -> bool {
        -1 <= self.steer_direction <= 1
    }

    /// No side held and no run requested.
    pub fn idle() -> (r: InputState)
        ensures
            r == (InputState { steer_direction: 0i8, run_requested: false }),
    {
        InputState { steer_direction: 0, run_requested: false }
    }

    /// A key goes down: a steering key sets its side, the start key requests a
    /// run and the reset key withdraws the request.
    pub fn key_down(&mut self, key: Key)
        ensures
            *final(self) == (match key {
                Key::Left => InputState { steer_direction: -1i8, ..*old(self) },
                Key::Right => InputState { steer_direction: 1i8, ..*old(self) },
                Key::Start => InputState { run_requested: true, ..*old(self) },
                Key::Reset => InputState { run_requested: false, ..*old(self) },
            }),
            old(self).wf() ==> final(self).wf(),
    {
        match key {
            Key::Left => self.steer_direction = -1,
            Key::Right => self.steer_direction = 1,
            Key::Start => self.run_requested = true,
            Key::Reset => self.run_requested = false,
        }
    }

    /// A key goes up: releasing either steering key stops steering; other
    /// keys change nothing.
    pub fn key_up(&mut self, key: Key)
        ensures
            *final(self) == (match key {
                Key::Left | Key::Right => InputState { steer_direction: 0i8, ..*old(self) },
                _ => *old(self),
            }),
            old(self).wf() ==> final(self).wf(),
    {
        match key {
            Key::Left | Key::Right => self.steer_direction = 0,
            _ => {},
        }
    }
}

/// Turns readings of a monotonic clock into tick lengths.
#[derive(Clone, Copy, Debug, PartialEq, Eq, Structural)]
pub struct FrameClock {
    /// The last reading consumed, in milliseconds since start.
    pub last_ms: u64,
}

/// The tick length between two readings: zero where the clock stalled or went
/// back, and at most `u32::MAX`.
pub open spec fn tick_length(last: int, now: int) -> int {
    if now <= last {
        0
    } else if now - last > u32::MAX {
        u32::MAX as int
    } else {
        now - last
    }
}

impl FrameClock {
    /// A clock whose first reading is measured from zero.
    pub fn new() -> (r: FrameClock)
        ensures
            r.last_ms == 0,
    {
        FrameClock { last_ms: 0 }
    }

    /// Consumes the reading `now_ms` and returns the tick length since the
    /// last one.
    pub fn elapsed(&mut self, now_ms: u64) -> (dt: u32)
        ensures
            dt == tick_length(old(self).last_ms as int, now_ms as int),
            final(self).last_ms == now_ms,
    {
        let last = self.last_ms;
        self.last_ms = now_ms;
        if now_ms <= last {
            0
        } else if now_ms - last > u32::MAX as u64 {
            u32::MAX
        } else {
            (now_ms - last) as u32
        }
    }
}

/// A gate as the screen shows it.
#[derive(Clone, Copy, Debug, PartialEq, Eq, Structural)]
pub struct GateView {
    pub gate: Gate,
    /// Where this gate's line stands down the screen.
    pub along: i64,
    /// Whether this is the finish gate.
    pub finish: bool,
}

/// How gate `i` of course `c` shows on the screen for skier `s`: the next
/// gate stands two spans below the top, each later one a span higher.
pub open spec fn gate_view(c: Seq<Gate>, s: SkierState, i: int) -> GateView {
    GateView {
        gate: c[i],
        along: saturate(
            s.distance_scrolled + GATE_SPAN * (s.next_gate_index + GATES_IN_SCREEN - 1 - i),
        ) as i64,
        finish: i == c.len() - 1,
    }
}

/// How many gates show on the screen: up to `GATES_IN_SCREEN` from the next.
pub open spec fn n_visible(len: int, next: int) -> int {
    if len - next < GATES_IN_SCREEN {
        len - next
    } else {
        GATES_IN_SCREEN as int
    }
}

/// The whole simulation: course, skier, phase and latest input.
pub struct Simulation {
    pub course: Vec<Gate>,
    pub skier: SkierState,
    pub phase: RunPhase,
    pub input: InputState,
    /// The random source that fresh courses are drawn from.
    pub rng: rand::rngs::StdRng,
}

/// The skier stays within the course's margins and turns no further than the
/// largest angle, in every state that construction and ticks can reach.
pub proof fn lemma_skier_within_bounds(sim: &Simulation)
    requires
        sim.wf(),
    ensures
        -LATERAL_LIMIT <= sim.skier.lateral_offset <= LATERAL_LIMIT,
        -MAX_ANGLE <= sim.skier.direction <= MAX_ANGLE,
{
}

/// The skier once the tick's steering is applied.
pub open spec fn steered_skier(s: SkierState, input: InputState, dt: nat) -> SkierState {
    SkierState {
        direction: steered(s.direction as int, input.steer_direction as int, dt as int) as i64,
        ..s
    }
}

impl Simulation {
    /// The simulation's invariant: a non-empty course of well-formed gates, a
    /// skier within bounds, no gate left behind before the run, and while
    /// running a next gate that exists (with one after it once the next gate
    /// was passed).
    pub open spec fn wf(&self) -> bool {
        &&& self.course@.len() >= 1
        &&& course_wf(self.course@)
        &&& self.skier.wf()
        &&& self.input.wf()
        &&& self.skier.next_gate_index <= self.course@.len()
        &&& self.phase == RunPhase::Ready ==> self.skier.next_gate_index == 0 && !self.skier.inside_gate_zone
        &&& self.phase == RunPhase::Running ==> self.skier.next_gate_index < self.course@.len()
        &&& (self.phase == RunPhase::Running && self.skier.inside_gate_zone) ==> self.skier.next_gate_index + 1 < self.course@.len()
    }

    /// Whether this is the state right after (re)entering Ready: skier at the
    /// start and no input.
    pub open spec fn is_fresh(&self) -> bool {
        &&& self.skier == SkierState::at_start()
        &&& self.phase == RunPhase::Ready
        &&& self.input == (InputState { steer_direction: 0i8, run_requested: false })
    }

    /// A simulation in Ready on a random course of the standard length, drawn
    /// from a generator seeded with `seed`.
    pub fn new(seed: u64) -> (r: Simulation)
        ensures
            r.wf(),
            r.is_fresh(),
            course_shape(r.course@, TOTAL_N_GATES as int),
    {
        let mut rng = seeded_rng(seed);
        let course = generate_course(&mut rng, TOTAL_N_GATES);
        Simulation {
            course,
            skier: SkierState::start(),
            phase: RunPhase::Ready,
            input: InputState::idle(),
            rng,
        }
    }

    /// A simulation in Ready on the given course. Later courses, after each
    /// reset, are drawn from a generator seeded with `seed`.
    pub fn with_course(course: Vec<Gate>, seed: u64) -> (r: Simulation)
        requires
            course@.len() >= 1,
            course_wf(course@),
        ensures
            r.wf(),
            r.is_fresh(),
            r.course@ == course@,
    {
        Simulation {
            course,
            skier: SkierState::start(),
            phase: RunPhase::Ready,
            input: InputState::idle(),
            rng: seeded_rng(seed),
        }
    }

    /// The gates on the screen, from the next one on.
    pub fn visible_gates(&self) -> (r: Vec<GateView>)
        requires
            self.wf(),
        ensures
            r@.len() == n_visible(self.course@.len() as int, self.skier.next_gate_index as int),
            forall|k: int|
                0 <= k < r@.len() ==> #[trigger] r@[k] == gate_view(
                    self.course@,
                    self.skier,
                    self.skier.next_gate_index + k,
                ),
    {
        let next = self.skier.next_gate_index;
        let n = self.course.len();
        let mut r: Vec<GateView> = Vec::new();
        let mut k: usize = 0;
        while k < GATES_IN_SCREEN as usize && k < n - next
            invariant
                self.wf(),
                next == self.skier.next_gate_index,
                n == self.course@.len(),
                k <= GATES_IN_SCREEN,
                k <= n - next,
                r@.len() == k,
                forall|j: int|
                    0 <= j < k ==> #[trigger] r@[j] == gate_view(self.course@, self.skier, next + j),
            decreases GATES_IN_SCREEN - k,
        {
            let i = next + k;
            let above: i64 = GATE_SPAN * (GATES_IN_SCREEN - 1 - k as i64);
            let a: i128 = self.skier.distance_scrolled as i128 + above as i128;
            let along: i64 = if a > i64::MAX as i128 {
                i64::MAX
            } else {
                a as i64
            };
            r.push(GateView { gate: self.course[i], along, finish: i == n - 1 });
            k = k + 1;
        }
        r
    }

    /// Replaces course and skier wholesale and goes back to Ready.
    fn reset(&mut self)
        requires
            old(self).course@.len() >= 1,
        ensures
            final(self).wf(),
            final(self).is_fresh(),
            course_shape(final(self).course@, old(self).course@.len() as int),
    {
        let n = self.course.len();
        self.course = generate_course(&mut self.rng, n);
        self.skier = SkierState::start();
        self.input = InputState::idle();
        self.phase = RunPhase::Ready;
    }

    /// Advances the simulation by `dt` milliseconds. Steering applies in
    /// every phase. Ready starts running once a run is requested; Running
    /// glides and judges gates; Finished and Failed hold the skier still, and
    /// go back to Ready with a fresh course once the request is withdrawn.
    pub fn tick(&mut self, dt: u32)
        requires
            old(self).wf(),
        ensures
            final(self).wf(),
            ({
                let s0 = steered_skier(old(self).skier, old(self).input, dt as nat);
                match old(self).phase {
                    RunPhase::Ready => {
                        &&& final(self).skier == s0
                        &&& final(self).course@ == old(self).course@
                        &&& final(self).input == old(self).input
                        &&& final(self).phase == if old(self).input.run_requested {
                            RunPhase::Running
                        } else {
                            RunPhase::Ready
                        }
                    },
                    RunPhase::Running => {
                        &&& (final(self).skier, final(self).phase) == after_gates(
                            old(self).course@,
                            glided(s0, dt as nat),
                        )
                        &&& final(self).course@ == old(self).course@
                        &&& final(self).input == old(self).input
                    },
                    _ => if old(self).input.run_requested {
                        &&& final(self).skier == (SkierState { forward_speed: 0, ..s0 })
                        &&& final(self).course@ == old(self).course@
                        &&& final(self).input == old(self).input
                        &&& final(self).phase == old(self).phase
                    } else {
                        &&& final(self).is_fresh()
                        &&& course_shape(final(self).course@, old(self).course@.len() as int)
                    },
                }
            }),
    {
        self.skier.steer(self.input.steer_direction, dt);
        match self.phase {
            RunPhase::Ready => {
                if self.input.run_requested {
                    self.phase = RunPhase::Running;
                }
            },
            RunPhase::Running => {
                self.skier.glide(dt);
                self.phase = track(&self.course, &mut self.skier);
            },
            _ => {
                self.skier.forward_speed = 0;
                if !self.input.run_requested {
                    self.reset();
                }
            },
        }
    }
}

} // verus!
