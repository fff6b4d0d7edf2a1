//! The course: a sequence of gates that alternate between the right and the
//! left half of the slope. Lengths are in thousandths of a screen pixel,
//! measured across the course from its centre line.
use vstd::prelude::*;
use crate::random::draw_in;

verus! {

/// The width of the course.
pub const SCREEN_WIDTH: i64 = 800_000;

/// The height of the visible part of the course.
pub const SCREEN_HEIGHT: i64 = 600_000;

/// Half the width of the course: its edges stand at `-HALF_WIDTH` and
/// `HALF_WIDTH`.
pub const HALF_WIDTH: i64 = 400_000;

/// The distance between the two poles of a gate.
pub const GATE_WIDTH: i64 = 150_000;

/// How far a pole reaches into the gap of its gate.
pub const GATE_POLE_RADIUS: i64 = 4_000;

/// How many gates fit on the screen at once.
pub const GATES_IN_SCREEN: i64 = 3;

/// The distance along the course between two consecutive gates: the
/// screen's height over the number of gates on it.
pub const GATE_SPAN: i64 = 200_000;

/// The least position of the inner pole of a gate: half a gate's width left
/// of the centre line.
pub const POLE_MIN: i64 = -75_000;

/// The bound (excluded) on the position of the inner pole of a gate: one and
/// a half gate widths inside the right edge of the course.
pub const POLE_MAX: i64 = 175_000;

/// The number of gates of a course, the last of them the finish gate.
pub const TOTAL_N_GATES: usize = 8;

/// A gate: the positions of its left and right poles.
#[derive(Clone, Copy, Debug, PartialEq, Eq, Structural)]
pub struct Gate {
    pub left: i64,
    pub right: i64,
}

impl Gate {
    /// A gate has the fixed width and stands within the course.
    pub open spec fn wf(self) -> bool {
        &&& self.right == self.left + GATE_WIDTH
        &&& -HALF_WIDTH <= self.left
        &&& self.right <= HALF_WIDTH
    }
}

/// Whether a gate was placed from a pole position in the allowed range, on
/// the right side (its left pole is that position) or on the left side (the
/// mirror image).
pub open spec fn placed(g: Gate, at_right: bool) -> bool {
    if at_right {
        &&& POLE_MIN <= g.left < POLE_MAX
        &&& g.right == g.left + GATE_WIDTH
    } else {
        &&& POLE_MIN <= -g.right < POLE_MAX
        &&& g.left == g.right - GATE_WIDTH
    }
}

/// Gate `i` of a course stands on the right exactly when `i` is even.
pub open spec fn at_right(i: int) -> bool {
    i % 2 == 0
}

/// A course of `n` gates, each placed on its alternating side.
pub open spec fn course_shape(c: Seq<Gate>, n: int) -> bool {
    &&& c.len() == n
    &&& forall|i: int| 0 <= i < n ==> placed(#[trigger] c[i], at_right(i))
}

/// Every gate of the course is well formed.
pub open spec fn course_wf(c: Seq<Gate>) -> bool {
    forall|i: int| 0 <= i < c.len() ==> (#[trigger] c[i]).wf()
}

/// What a pole position gives, as a gate on the chosen side.
pub open spec fn gate_at(pole: int, at_right: bool) -> Gate
    recommends
        POLE_MIN <= pole < POLE_MAX,
{
    if at_right {
        Gate { left: pole as i64, right: (pole + GATE_WIDTH) as i64 }
    } else {
        Gate { left: (-pole - GATE_WIDTH) as i64, right: (-pole) as i64 }
    }
}

/// A placed gate is well formed.
pub proof fn lemma_placed_wf(g: Gate, at_right: bool)
    requires
        placed(g, at_right),
    ensures
        g.wf(),
{
}

/// A course of the generated shape is well formed.
pub proof fn lemma_course_shape_wf(c: Seq<Gate>, n: int)
    requires
        course_shape(c, n),
    ensures
        course_wf(c),
{
    assert forall|i: int| 0 <= i < c.len() implies (#[trigger] c[i]).wf() by {
        lemma_placed_wf(c[i], at_right(i));
    }
}

/// A gate from a pole position: on the right it spans from the pole
/// rightwards, on the left it is the mirror image.
pub fn gate_for_pole(pole: i64, at_right: bool) -> (g: Gate)
    requires
        POLE_MIN <= pole < POLE_MAX,
    ensures
        g == gate_at(pole as int, at_right),
        placed(g, at_right),
{
    if at_right {
        Gate { left: pole, right: pole + GATE_WIDTH }
    } else {
        Gate { left: -pole - GATE_WIDTH, right: -pole }
    }
}

/// The course whose gate `i` stands at pole position `poles[i]`, on the right
/// for even `i` and on the left for odd `i`.
pub fn course_from_poles(poles: &Vec<i64>) -> (c: Vec<Gate>)
    requires
        forall|i: int| 0 <= i < poles@.len() ==> POLE_MIN <= #[trigger] poles@[i] < POLE_MAX,
    ensures
        c@.len() == poles@.len(),
        forall|i: int| 0 <= i < poles@.len() ==> #[trigger] c@[i] == gate_at(poles@[i] as int, at_right(i)),
        course_shape(c@, poles@.len() as int),
{
    let mut c: Vec<Gate> = Vec::new();
    let mut i: usize = 0;
    while i < poles.len()
        invariant
            i <= poles@.len(),
            c@.len() == i,
            forall|j: int| 0 <= j < poles@.len() ==> POLE_MIN <= #[trigger] poles@[j] < POLE_MAX,
            forall|j: int| 0 <= j < i ==> #[trigger] c@[j] == gate_at(poles@[j] as int, at_right(j)),
            forall|j: int| 0 <= j < i ==> placed(#[trigger] c@[j], at_right(j)),
        decreases poles@.len() - i,
    {
        let g = gate_for_pole(poles[i], i % 2 == 0);
        c.push(g);
        i = i + 1;
    }
    c
}

/// A fresh course of `n` gates, each from a pole position drawn uniformly
/// from `[POLE_MIN, POLE_MAX)`, alternating right and left from the right.
pub fn generate_course(rng: &mut rand::rngs::StdRng, n: usize) -> (c: Vec<Gate>)
    ensures
        course_shape(c@, n as int),
        course_wf(c@),
{
    let mut poles: Vec<i64> = Vec::new();
    let mut i: usize = 0;
    while i < n
        invariant
            i <= n,
            poles@.len() == i,
            forall|j: int| 0 <= j < i ==> POLE_MIN <= #[trigger] poles@[j] < POLE_MAX,
        decreases n - i,
    {
        poles.push(draw_in(rng, POLE_MIN, POLE_MAX));
        i = i + 1;
    }
    let c = course_from_poles(&poles);
    proof {
        lemma_course_shape_wf(c@, n as int);
    }
    c
}

} // verus!
