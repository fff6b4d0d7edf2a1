//! Gate judging: when the next gate's line reaches the ski tip, the tip must
//! be strictly between its poles, each inset by a pole's radius.
use vstd::prelude::*;
use crate::course::{Gate, GATE_POLE_RADIUS, GATE_SPAN, SCREEN_HEIGHT};
use crate::physics::SkierState;

verus! {

/// The length of a ski.
pub const SKI_LENGTH: i64 = 50_000;

/// How far the tip of the skis leads their body.
pub const SKI_TIP_LEN: i64 = 20_000;

/// Where the ski tip stands down the screen: fifteen sixteenths of the
/// screen's height, less half a ski and the tip.
pub const SKI_TIP_ALONG: i64 = 517_500;

/// The phase of a run.
#[derive(Clone, Copy, Debug, PartialEq, Eq, Structural)]
pub enum RunPhase {
    Ready,
    Running,
    Finished,
    Failed,
}

/// Where the next gate's line stands down the screen, for a given progress
/// since the last gate scrolled away.
pub open spec fn next_gate_along(distance: int) -> int {
    distance + SCREEN_HEIGHT - GATE_SPAN
}

/// Whether the next gate's line has reached or passed the ski tip.
pub open spec fn reached(distance: int) -> bool {
    SKI_TIP_ALONG <= next_gate_along(distance)
}

/// Whether a tip at offset `x` lies strictly between a gate's inset poles.
pub open spec fn tip_inside(g: Gate, x: int) -> bool {
    g.left + GATE_POLE_RADIUS < x < g.right - GATE_POLE_RADIUS
}

/// The phase that judging the skier's next gate gives: through the gap the
/// run goes on, or ends as finished at the last gate; outside it fails.
pub open spec fn judge(c: Seq<Gate>, s: SkierState) -> RunPhase {
    let i = s.next_gate_index as int;
    if tip_inside(c[i], s.lateral_offset as int) {
        if i == c.len() - 1 {
            RunPhase::Finished
        } else {
            RunPhase::Running
        }
    } else {
        RunPhase::Failed
    }
}

/// When the next gate has scrolled a whole span, it leaves: the progress
/// wraps, the following gate becomes next and the latch re-arms. A gate that
/// leaves unjudged (a long tick carried it past the tip) is judged then.
pub open spec fn scrolled_past(c: Seq<Gate>, s: SkierState) -> (SkierState, RunPhase) {
    if s.distance_scrolled > GATE_SPAN {
        let p = if s.inside_gate_zone {
            RunPhase::Running
        } else {
            judge(c, s)
        };
        (
            SkierState {
                distance_scrolled: (s.distance_scrolled - GATE_SPAN) as i64,
                next_gate_index: (s.next_gate_index + 1) as usize,
                inside_gate_zone: false,
                ..s
            },
            p,
        )
    } else {
        (s, RunPhase::Running)
    }
}

/// One step of gate tracking after the skier has moved: gates that scrolled
/// away leave, then the next gate is judged once when its line reaches the
/// tip, and the latch re-arms while the line is behind the tip.
pub open spec fn after_gates(c: Seq<Gate>, s: SkierState) -> (SkierState, RunPhase) {
    let (s1, p1) = scrolled_past(c, s);
    if p1 != RunPhase::Running {
        (s1, p1)
    } else if reached(s1.distance_scrolled as int) {
        if s1.inside_gate_zone {
            (s1, RunPhase::Running)
        } else {
            (SkierState { inside_gate_zone: true, ..s1 }, judge(c, s1))
        }
    } else {
        (SkierState { inside_gate_zone: false, ..s1 }, RunPhase::Running)
    }
}

/// Gate tracking never takes a run back to Ready: only a reset does.
pub proof fn lemma_running_never_ready(c: Seq<Gate>, s: SkierState)
    ensures
        after_gates(c, s).1 != RunPhase::Ready,
{
}

/// Whether a tip at offset `x` passes between a gate's inset poles; a tip
/// exactly on an inset pole misses.
pub fn tip_inside_gate(g: &Gate, x: i64) -> (r: bool)
    requires
        g.wf(),
    ensures
        r == tip_inside(*g, x as int),
{
    g.left + GATE_POLE_RADIUS < x && x < g.right - GATE_POLE_RADIUS
}

/// Judges the skier's next gate.
pub fn judge_gate(c: &Vec<Gate>, s: &SkierState) -> (r: RunPhase)
    requires
        s.next_gate_index < c@.len(),
        c@[s.next_gate_index as int].wf(),
    ensures
        r == judge(c@, *s),
{
    let i = s.next_gate_index;
    if tip_inside_gate(&c[i], s.lateral_offset) {
        if i == c.len() - 1 {
            RunPhase::Finished
        } else {
            RunPhase::Running
        }
    } else {
        RunPhase::Failed
    }
}

/// Gate tracking for one running tick: returns the new phase.
pub fn track(c: &Vec<Gate>, s: &mut SkierState) -> (p: RunPhase)
    requires
        old(s).next_gate_index < c@.len(),
        old(s).inside_gate_zone ==> old(s).next_gate_index + 1 < c@.len(),
        forall|i: int| 0 <= i < c@.len() ==> (#[trigger] c@[i]).wf(),
    ensures
        (*final(s), p) == after_gates(c@, *old(s)),
        p == RunPhase::Running ==> final(s).next_gate_index < c@.len(),
        p == RunPhase::Running && final(s).inside_gate_zone ==> final(s).next_gate_index + 1 < c@.len(),
        final(s).next_gate_index <= c@.len(),
{
    let len = c.len();
    let mut p = RunPhase::Running;
    if s.distance_scrolled > GATE_SPAN {
        if !s.inside_gate_zone {
            p = judge_gate(c, s);
        }
        assert(s.next_gate_index < len);
        s.distance_scrolled = s.distance_scrolled - GATE_SPAN;
        s.next_gate_index = s.next_gate_index + 1;
        s.inside_gate_zone = false;
    }
    if p != RunPhase::Running {
        return p;
    }
    if s.distance_scrolled >= SKI_TIP_ALONG - (SCREEN_HEIGHT - GATE_SPAN) {
        if !s.inside_gate_zone {
            s.inside_gate_zone = true;
            p = judge_gate(c, s);
        }
    } else {
        s.inside_gate_zone = false;
    }
    p
}

} // verus!
