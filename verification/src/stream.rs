//! The sea current: a sparse set of arrows, each with a phase that turns with
//! time, and the flow they induce at any point of the plane.
//!
//! The flow at a point is the average of the arrows' pulls, weighted by the
//! inverse square of their distance. A pull is the arrow's direction scaled
//! by the cosine of its phase, so an arrow pushes, rests and pulls back in
//! turn. Weights are taken relative to the nearest arrow: that arrow weighs
//! exactly one, every other arrow at most one, and the average is the same.
//! Pulls are taken to the nearest raw unit, weights to twelve decimal
//! places, and the average is rounded to the nearest raw unit.

use vstd::prelude::*;
use crate::curves::{FINE, spec_cos_fine, spec_times_fine, spec_turned, cos_fine, times_fine, turned};
use crate::fixed::{
    UNIT, clamp, round_div, saturate, div_to_nearest, spec_times, times, spec_plus, plus,
};
use crate::settings::stream::{MOVING_ARROW_TIME_SPAN, PHASE_VEL, SAMPLE_SIZE, SPEEDUP};
use crate::vector::Vec2;

verus! {

/// No arrow counts as nearer than this: a hundredth of a unit.
pub const DISTANCE_FLOOR: i64 = 10_000;

/// The arrow that is being edited, if any, by its index in the stream.
#[derive(Clone, Copy, PartialEq, Eq, Debug, Structural)]
pub struct SelectedArrow(pub Option<usize>);

/// A sample of the current: at `pos` the water moves along `dir`.
#[derive(Clone, Copy, PartialEq, Eq, Debug, Structural)]
pub struct Arrow {
    pub pos: Vec2,
    pub dir: Vec2,
}

/// An arrow that drifts with the current, for display.
#[derive(Clone, Copy, PartialEq, Eq, Debug, Structural)]
pub struct MovingArrow {
    pub arrow: Arrow,
    pub start_pos: Vec2,
    /// The distance travelled since the arrow last started over.
    pub time: i64,
}

/// The sea current.
pub struct Stream {
    /// Arrows that describe the current.
    pub arrows: Vec<Arrow>,
    /// The rectangle of the sea: left, top, width, height.
    pub rect: [i64; 4],
    /// The range of current strengths: least, greatest.
    pub strength: [i64; 2],
    /// The phase of each arrow, in turns; as many as there are arrows.
    pub arrow_phases: Vec<i64>,
}

impl Arrow {
    /// The segment that shows the arrow: from its position to where the
    /// water there would be after `speedup` seconds.
    pub fn line(&self, speedup: i64) -> (l: [i64; 4])
        ensures
            l[0] == self.pos.x,
            l[1] == self.pos.y,
            l[2] == spec_plus(self.pos.x, spec_times(self.dir.x, speedup)),
            l[3] == spec_plus(self.pos.y, spec_times(self.dir.y, speedup)),
    {
        [
            self.pos.x,
            self.pos.y,
            plus(self.pos.x, times(self.dir.x, speedup)),
            plus(self.pos.y, times(self.dir.y, speedup)),
        ]
    }
}

/// How many whole cells of the given size fit into an extent; none where
/// either is not positive.
pub open spec fn spec_cells(extent: i64, size: i64) -> u32 {
    if size <= 0 || extent <= 0 {
        0
    } else if extent / size > u32::MAX {
        u32::MAX
    } else {
        (extent / size) as u32
    }
}

/// How many whole cells of the given size fit into an extent; none where
/// either is not positive.
#[verifier::when_used_as_spec(spec_cells)]
pub fn cells(extent: i64, size: i64) -> (n: u32)
    ensures
        n == spec_cells(extent, size),
{
    if size <= 0 || extent <= 0 {
        return 0;
    }
    let q: i64 = extent / size;
    if q > u32::MAX as i64 {
        u32::MAX
    } else {
        q as u32
    }
}

/// The coordinate of the grid line with the given index.
pub open spec fn spec_grid_coord(origin: i64, index: u32, size: i64) -> i64 {
    clamp(index * size + origin)
}

/// The coordinate of the grid line with the given index.
#[verifier::when_used_as_spec(spec_grid_coord)]
pub fn grid_coord(origin: i64, index: u32, size: i64) -> (r: i64)
    ensures
        r == spec_grid_coord(origin, index, size),
{
    assert(-0x8000_0000_0000_0000_0000_0000 <= index * size <= 0x8000_0000_0000_0000_0000_0000)
        by (nonlinear_arith)
        requires
            0 <= index <= 0xffff_ffff,
            -0x8000_0000_0000_0000 <= size <= 0x7fff_ffff_ffff_ffff,
    ;
    saturate((index as i128) * (size as i128) + origin as i128)
}

/// The squared distance from an arrow to `p`, but no less than the square of
/// the distance floor.
pub open spec fn floored_dist2(a: Arrow, p: Vec2) -> int {
    let d = a.pos.spec_minus(p).spec_square_len();
    if d < DISTANCE_FLOOR * DISTANCE_FLOOR {
        DISTANCE_FLOOR * DISTANCE_FLOOR
    } else {
        d
    }
}

/// The least floored squared distance from `p` to the first `n` arrows.
pub open spec fn nearest_dist2(arrows: Seq<Arrow>, p: Vec2, n: int) -> int
    decreases n,
{
    if n <= 1 {
        floored_dist2(arrows[0], p)
    } else {
        let rest = nearest_dist2(arrows, p, n - 1);
        let d = floored_dist2(arrows[n - 1], p);
        if d < rest {
            d
        } else {
            rest
        }
    }
}

/// The weight of an arrow at `p`, relative to the nearest arrow: their
/// squared distances' ratio, between zero and one, in fine units.
pub open spec fn weight(a: Arrow, p: Vec2, nearest: int) -> int {
    (nearest * FINE) / floored_dist2(a, p)
}

/// What an arrow contributes at a given phase: its direction, scaled by the
/// cosine of the phase, to the nearest raw unit.
pub open spec fn pull(a: Arrow, phase: i64) -> Vec2 {
    Vec2 {
        x: spec_times_fine(a.dir.x, spec_cos_fine(phase)),
        y: spec_times_fine(a.dir.y, spec_cos_fine(phase)),
    }
}

/// The magnitude at which a sum of weighted pulls saturates. It takes more
/// than ten million million arrows to get there.
pub const SUM_LIMIT: i128 = 10_000_000_000_000_000_000_000_000_000_000_000_000;

/// A sum of weighted pulls, brought into the range in which it is kept.
pub open spec fn bounded(sum: int) -> int {
    if sum > SUM_LIMIT {
        SUM_LIMIT as int
    } else if sum < -SUM_LIMIT {
        -SUM_LIMIT
    } else {
        sum
    }
}

/// The sum of the first `n` weights.
pub open spec fn total_weight(arrows: Seq<Arrow>, p: Vec2, nearest: int, n: int) -> int
    decreases n,
{
    if n <= 0 {
        0
    } else {
        total_weight(arrows, p, nearest, n - 1) + weight(arrows[n - 1], p, nearest)
    }
}

/// The sum of the first `n` pulls' `x` components, each times its weight.
pub open spec fn weighted_x(
    arrows: Seq<Arrow>,
    phases: Seq<i64>,
    p: Vec2,
    nearest: int,
    n: int,
) -> int
    decreases n,
{
    if n <= 0 {
        0
    } else {
        bounded(
            weighted_x(arrows, phases, p, nearest, n - 1) + pull(arrows[n - 1], phases[n - 1]).x
                * weight(arrows[n - 1], p, nearest),
        )
    }
}

/// The sum of the first `n` pulls' `y` components, each times its weight.
pub open spec fn weighted_y(
    arrows: Seq<Arrow>,
    phases: Seq<i64>,
    p: Vec2,
    nearest: int,
    n: int,
) -> int
    decreases n,
{
    if n <= 0 {
        0
    } else {
        bounded(
            weighted_y(arrows, phases, p, nearest, n - 1) + pull(arrows[n - 1], phases[n - 1]).y
                * weight(arrows[n - 1], p, nearest),
        )
    }
}

/// The flow at `p`: zero where there is no arrow, else the weighted average
/// of the arrows' pulls, rounded to the nearest raw unit.
pub open spec fn flow_at(arrows: Seq<Arrow>, phases: Seq<i64>, p: Vec2) -> Vec2 {
    if arrows.len() == 0 {
        Vec2::spec_zero()
    } else {
        let n = arrows.len() as int;
        let nearest = nearest_dist2(arrows, p, n);
        let total = total_weight(arrows, p, nearest, n);
        Vec2 {
            x: clamp(round_div(weighted_x(arrows, phases, p, nearest, n), total)),
            y: clamp(round_div(weighted_y(arrows, phases, p, nearest, n), total)),
        }
    }
}

/// A floored squared distance lies between the square of the floor and twice
/// the square of the saturation limit.
pub proof fn lemma_floored_dist2_range(a: Arrow, p: Vec2)
    ensures
        100_000_000 <= floored_dist2(a, p) <= 2_000_000_000_000_000_000_000_000,
{
    let d = a.pos.spec_minus(p);
    assert(0 <= d.x * d.x <= 1_000_000_000_000_000_000_000_000) by (nonlinear_arith)
        requires
            -1_000_000_000_000 <= d.x <= 1_000_000_000_000,
    ;
    assert(0 <= d.y * d.y <= 1_000_000_000_000_000_000_000_000) by (nonlinear_arith)
        requires
            -1_000_000_000_000 <= d.y <= 1_000_000_000_000,
    ;
}

/// The nearest distance is the distance of one of the arrows, and no arrow
/// is nearer.
pub proof fn lemma_nearest(arrows: Seq<Arrow>, p: Vec2, n: int)
    requires
        1 <= n <= arrows.len(),
    ensures
        forall|j: int| 0 <= j < n ==> nearest_dist2(arrows, p, n) <= #[trigger] floored_dist2(arrows[j], p),
        exists|j: int| 0 <= j < n && #[trigger] floored_dist2(arrows[j], p) == nearest_dist2(arrows, p, n),
    decreases n,
{
    if n > 1 {
        lemma_nearest(arrows, p, n - 1);
        let j = choose|j: int| 0 <= j < n - 1 && #[trigger] floored_dist2(arrows[j], p) == nearest_dist2(arrows, p, n - 1);
        if floored_dist2(arrows[n - 1], p) < nearest_dist2(arrows, p, n - 1) {
            assert(floored_dist2(arrows[n - 1], p) == nearest_dist2(arrows, p, n));
        } else {
            assert(floored_dist2(arrows[j], p) == nearest_dist2(arrows, p, n));
        }
    } else {
        assert(floored_dist2(arrows[0], p) == nearest_dist2(arrows, p, n));
    }
}

/// A weight taken relative to a distance that is no farther than the arrow
/// lies between zero and one; the arrow at that very distance weighs one.
pub proof fn lemma_weight_range(a: Arrow, p: Vec2, nearest: int)
    requires
        0 < nearest <= floored_dist2(a, p),
    ensures
        0 <= weight(a, p, nearest) <= FINE,
        nearest == floored_dist2(a, p) ==> weight(a, p, nearest) == FINE,
{
    let d = floored_dist2(a, p);
    assert(0 <= nearest * FINE <= d * FINE) by (nonlinear_arith)
        requires
            0 < nearest <= d,
            FINE == 1_000_000_000_000,
    ;
    vstd::arithmetic::div_mod::lemma_div_pos_is_pos(nearest * FINE, d);
    vstd::arithmetic::div_mod::lemma_div_is_ordered(nearest * FINE, d * FINE, d);
    vstd::arithmetic::div_mod::lemma_div_multiples_vanish(FINE as int, d);
}

/// The total weight is at least the weight of any one arrow, at most one per
/// arrow, and at least one as soon as the nearest arrow is counted.
pub proof fn lemma_total_weight(arrows: Seq<Arrow>, p: Vec2, n: int, k: int)
    requires
        0 <= k <= n <= arrows.len(),
        n >= 1,
    ensures
        0 <= total_weight(arrows, p, nearest_dist2(arrows, p, n), k) <= k * FINE,
        forall|j: int| 0 <= j < k ==> total_weight(arrows, p, nearest_dist2(arrows, p, n), k)
            >= #[trigger] weight(arrows[j], p, nearest_dist2(arrows, p, n)),
    decreases k,
{
    let nearest = nearest_dist2(arrows, p, n);
    if k > 0 {
        lemma_total_weight(arrows, p, n, k - 1);
        lemma_nearest(arrows, p, n);
        lemma_floored_dist2_range(arrows[k - 1], p);
        let j = choose|j: int| 0 <= j < n && #[trigger] floored_dist2(arrows[j], p) == nearest;
        lemma_floored_dist2_range(arrows[j], p);
        assert(nearest <= floored_dist2(arrows[k - 1], p));
        lemma_weight_range(arrows[k - 1], p, nearest);
        assert(k * FINE == (k - 1) * FINE + FINE) by (nonlinear_arith);
    }
}

/// With at least one arrow the total weight is at least one: the average is
/// always defined.
pub proof fn lemma_total_weight_positive(arrows: Seq<Arrow>, p: Vec2)
    requires
        arrows.len() >= 1,
    ensures
        total_weight(arrows, p, nearest_dist2(arrows, p, arrows.len() as int), arrows.len() as int)
            >= FINE,
{
    let n = arrows.len() as int;
    let nearest = nearest_dist2(arrows, p, n);
    lemma_nearest(arrows, p, n);
    let j = choose|j: int| 0 <= j < n && #[trigger] floored_dist2(arrows[j], p) == nearest;
    lemma_floored_dist2_range(arrows[j], p);
    lemma_weight_range(arrows[j], p, nearest);
    lemma_total_weight(arrows, p, n, n);
}

/// The squared distance from an arrow to `p`, but no less than the square of
/// the distance floor.
fn floored(a: &Arrow, p: Vec2) -> (d: u128)
    ensures
        d == floored_dist2(*a, p),
        100_000_000 <= d <= 2_000_000_000_000_000_000_000_000,
{
    proof {
        lemma_floored_dist2_range(*a, p);
    }
    let d: u128 = a.pos.minus(p).square_len();
    let floor: u128 = (DISTANCE_FLOOR as u128) * (DISTANCE_FLOOR as u128);
    if d < floor {
        floor
    } else {
        d
    }
}

/// Brings a sum of weighted pulls into the range in which it is kept.
fn keep(sum: i128) -> (r: i128)
    ensures
        r == bounded(sum as int),
        -SUM_LIMIT <= r <= SUM_LIMIT,
{
    if sum > SUM_LIMIT {
        SUM_LIMIT
    } else if sum < -SUM_LIMIT {
        -SUM_LIMIT
    } else {
        sum
    }
}

impl Stream {
    /// Every arrow has its phase.
    pub open spec fn wf(&self) -> bool {
        self.arrows@.len() == self.arrow_phases@.len()
    }

    /// A stream without arrows over the given rectangle.
    pub fn new(rect: [i64; 4], strength: [i64; 2]) -> (s: Stream)
        ensures
            s.wf(),
            s.arrows@.len() == 0,
            s.rect == rect,
            s.strength == strength,
    {
        Stream { arrows: Vec::new(), rect, strength, arrow_phases: Vec::new() }
    }

    /// Appends an arrow with its phase and returns the arrow's index.
    pub fn add_arrow(&mut self, arrow: Arrow, phase: i64) -> (index: usize)
        requires
            old(self).wf(),
        ensures
            final(self).wf(),
            index == old(self).arrows@.len(),
            final(self).arrows@ == old(self).arrows@.push(arrow),
            final(self).arrow_phases@ == old(self).arrow_phases@.push(phase),
            final(self).rect == old(self).rect,
            final(self).strength == old(self).strength,
    {
        let index: usize = self.arrows.len();
        self.arrows.push(arrow);
        self.arrow_phases.push(phase);
        index
    }

    /// The numbers of columns and rows of a sampling grid with cells of the
    /// given size over the sea's rectangle.
    pub fn nm(&self, sample_size: i64) -> (r: [u32; 2])
        ensures
            r[0] == spec_cells(self.rect[2], sample_size),
            r[1] == spec_cells(self.rect[3], sample_size),
    {
        [cells(self.rect[2], sample_size), cells(self.rect[3], sample_size)]
    }

    /// Lets `dt` seconds pass: every phase turns on by the same angle. Phases
    /// are not brought back into one turn, they run on; the cosine brings
    /// them back for itself.
    pub fn update(&mut self, dt: i64)
        requires
            old(self).wf(),
        ensures
            final(self).wf(),
            final(self).arrows@ == old(self).arrows@,
            final(self).rect == old(self).rect,
            final(self).strength == old(self).strength,
            final(self).arrow_phases@.len() == old(self).arrow_phases@.len(),
            forall|i: int| 0 <= i < old(self).arrow_phases@.len() ==>
                #[trigger] final(self).arrow_phases@[i] == spec_turned(
                    old(self).arrow_phases@[i],
                    spec_times(dt, PHASE_VEL),
                ),
    {
        let shift: i64 = times(dt, PHASE_VEL);
        let n: usize = self.arrow_phases.len();
        let mut i: usize = 0;
        while i < n
            invariant
                i <= n,
                n == self.arrow_phases@.len(),
                n == old(self).arrow_phases@.len(),
                self.arrows@ == old(self).arrows@,
                self.rect == old(self).rect,
                self.strength == old(self).strength,
                forall|j: int| 0 <= j < i ==> #[trigger] self.arrow_phases@[j] == spec_turned(
                    old(self).arrow_phases@[j],
                    shift,
                ),
                forall|j: int| i <= j < n ==> #[trigger] self.arrow_phases@[j] == old(self).arrow_phases@[j],
            decreases n - i,
        {
            let turned: i64 = turned(self.arrow_phases[i], shift);
            self.arrow_phases.set(i, turned);
            i = i + 1;
        }
    }

    /// The flow at `pos`: the average of the arrows' pulls, weighted by the
    /// inverse square of their distance; zero where there is no arrow.
    pub fn at(&self, pos: Vec2) -> (flow: Vec2)
        requires
            self.wf(),
        ensures
            flow == flow_at(self.arrows@, self.arrow_phases@, pos),
    {
        let n: usize = self.arrows.len();
        if n == 0 {
            return Vec2::zero();
        }
        let mut nearest: u128 = floored(&self.arrows[0], pos);
        let mut i: usize = 1;
        while i < n
            invariant
                1 <= i <= n,
                n == self.arrows@.len(),
                nearest == nearest_dist2(self.arrows@, pos, i as int),
            decreases n - i,
        {
            let d: u128 = floored(&self.arrows[i], pos);
            if d < nearest {
                nearest = d;
            }
            i = i + 1;
        }
        proof {
            lemma_nearest(self.arrows@, pos, n as int);
            lemma_floored_dist2_range(self.arrows@[0], pos);
        }
        let mut sum_x: i128 = 0;
        let mut sum_y: i128 = 0;
        let mut total: u128 = 0;
        let mut k: usize = 0;
        while k < n
            invariant
                k <= n,
                1 <= n == self.arrows@.len(),
                self.wf(),
                nearest == nearest_dist2(self.arrows@, pos, n as int),
                0 < nearest,
                forall|j: int| 0 <= j < n ==> nearest <= #[trigger] floored_dist2(self.arrows@[j], pos),
                total == total_weight(self.arrows@, pos, nearest as int, k as int),
                total <= k * FINE,
                -SUM_LIMIT <= sum_x <= SUM_LIMIT,
                -SUM_LIMIT <= sum_y <= SUM_LIMIT,
                sum_x == weighted_x(self.arrows@, self.arrow_phases@, pos, nearest as int, k as int),
                sum_y == weighted_y(self.arrows@, self.arrow_phases@, pos, nearest as int, k as int),
            decreases n - k,
        {
            let arrow: &Arrow = &self.arrows[k];
            let d: u128 = floored(arrow, pos);
            proof {
                lemma_weight_range(*arrow, pos, nearest as int);
                assert(nearest * FINE <= 2_000_000_000_000_000_000_000_000_000_000_000_000)
                    by (nonlinear_arith)
                    requires
                        0 < nearest <= d <= 2_000_000_000_000_000_000_000_000,
                        FINE == 1_000_000_000_000,
                ;
            }
            let w: u128 = nearest * FINE / d;
            let cosine: i128 = cos_fine(self.arrow_phases[k]);
            let c: Vec2 = Vec2 { x: times_fine(arrow.dir.x, cosine), y: times_fine(arrow.dir.y, cosine) };
            proof {
                let kk = k as int;
                assert(-1_000_000_000_000_000_000_000_000 <= c.x * w <= 1_000_000_000_000_000_000_000_000)
                    by (nonlinear_arith)
                    requires
                        -1_000_000_000_000 <= c.x <= 1_000_000_000_000,
                        0 <= w <= 1_000_000_000_000,
                ;
                assert(-1_000_000_000_000_000_000_000_000 <= c.y * w <= 1_000_000_000_000_000_000_000_000)
                    by (nonlinear_arith)
                    requires
                        -1_000_000_000_000 <= c.y <= 1_000_000_000_000,
                        0 <= w <= 1_000_000_000_000,
                ;
                assert((kk + 1) * FINE == kk * FINE + FINE) by (nonlinear_arith);
                assert(kk * FINE <= 0xffff_ffff_ffff_ffff * 1_000_000_000_000) by (nonlinear_arith)
                    requires
                        0 <= kk <= 0xffff_ffff_ffff_ffff,
                        FINE == 1_000_000_000_000,
                ;
            }
            sum_x = keep(sum_x + (c.x as i128) * (w as i128));
            sum_y = keep(sum_y + (c.y as i128) * (w as i128));
            total = total + w;
            k = k + 1;
        }
        proof {
            lemma_total_weight_positive(self.arrows@, pos);
            let nn = n as int;
            assert(nn * FINE <= 0xffff_ffff_ffff_ffff * 1_000_000_000_000) by (nonlinear_arith)
                requires
                    0 <= nn <= 0xffff_ffff_ffff_ffff,
                    FINE == 1_000_000_000_000,
            ;
        }
        Vec2 {
            x: saturate(div_to_nearest(sum_x, total as i128)),
            y: saturate(div_to_nearest(sum_y, total as i128)),
        }
    }
}

/// `rand::random_range` over `0..high`: some value of that range, which one
/// is left to chance. The caller rules out an empty range.
#[verifier::external_body]
fn random_below(high: i64) -> (r: i64)
    requires
        high > 0,
    ensures
        0 <= r < high,
{
    rand::random_range(0..high)
}

/// Adds an arrow at `pos` that does not point anywhere yet, with the given
/// phase, and selects it for editing.
pub fn add_arrow_with_phase(
    stream: &mut Stream,
    selected_arrow: &mut SelectedArrow,
    pos: Vec2,
    phase: i64,
)
    requires
        old(stream).wf(),
    ensures
        final(stream).wf(),
        final(stream).arrows@ == old(stream).arrows@.push(Arrow { pos, dir: Vec2::spec_zero() }),
        final(stream).arrow_phases@ == old(stream).arrow_phases@.push(phase),
        final(stream).rect == old(stream).rect,
        final(stream).strength == old(stream).strength,
        *final(selected_arrow) == SelectedArrow(Some(old(stream).arrows@.len() as usize)),
{
    let index: usize = stream.add_arrow(Arrow { pos, dir: Vec2::zero() }, phase);
    *selected_arrow = SelectedArrow(Some(index));
}

/// Adds an arrow at `pos` that does not point anywhere yet, at a phase left
/// to chance, and selects it for editing.
pub fn add_arrow(stream: &mut Stream, selected_arrow: &mut SelectedArrow, pos: Vec2)
    requires
        old(stream).wf(),
    ensures
        final(stream).wf(),
        final(stream).arrows@ == old(stream).arrows@.push(Arrow { pos, dir: Vec2::spec_zero() }),
        final(stream).arrow_phases@.len() == old(stream).arrow_phases@.len() + 1,
        final(stream).arrow_phases@.drop_last() == old(stream).arrow_phases@,
        0 <= final(stream).arrow_phases@.last() < UNIT,
        final(stream).rect == old(stream).rect,
        final(stream).strength == old(stream).strength,
        *final(selected_arrow) == SelectedArrow(Some(old(stream).arrows@.len() as usize)),
{
    let phase: i64 = random_below(UNIT);
    add_arrow_with_phase(stream, selected_arrow, pos, phase);
    assert(stream.arrow_phases@.drop_last() =~= old(stream).arrow_phases@);
}

/// Whether a selection names an arrow of the stream, or none.
pub open spec fn selection_valid(stream: &Stream, selected_arrow: &SelectedArrow) -> bool {
    match selected_arrow.0 {
        Some(id) => id < stream.arrows@.len(),
        None => true,
    }
}

/// Points the selected arrow at `pos`: its direction becomes the displacement
/// from the arrow to `pos`, divided by the current's speed-up. Without a
/// selection nothing changes.
pub fn edit_selected_arrow(stream: &mut Stream, selected_arrow: &SelectedArrow, pos: Vec2)
    requires
        selection_valid(old(stream), selected_arrow),
    ensures
        final(stream).arrow_phases@ == old(stream).arrow_phases@,
        final(stream).rect == old(stream).rect,
        final(stream).strength == old(stream).strength,
        match selected_arrow.0 {
            Some(id) => final(stream).arrows@ == old(stream).arrows@.update(
                id as int,
                Arrow {
                    pos: old(stream).arrows@[id as int].pos,
                    dir: pos.spec_minus(old(stream).arrows@[id as int].pos).spec_divided(SPEEDUP),
                },
            ),
            None => final(stream).arrows@ == old(stream).arrows@,
        },
{
    match selected_arrow.0 {
        Some(id) => {
            let at: Vec2 = stream.arrows[id].pos;
            let dir: Vec2 = pos.minus(at).divided(SPEEDUP);
            stream.arrows.set(id, Arrow { pos: at, dir });
        },
        None => {},
    }
}

/// Ends the editing of an arrow.
pub fn deselect_arrow(selected_arrow: &mut SelectedArrow)
    ensures
        *final(selected_arrow) == SelectedArrow(None),
{
    *selected_arrow = SelectedArrow(None);
}

/// Lets `dt` seconds pass for the stream.
pub fn update_stream(stream: &mut Stream, dt: i64)
    requires
        old(stream).wf(),
    ensures
        final(stream).wf(),
        final(stream).arrows@ == old(stream).arrows@,
        final(stream).rect == old(stream).rect,
        final(stream).strength == old(stream).strength,
        final(stream).arrow_phases@.len() == old(stream).arrow_phases@.len(),
        forall|i: int| 0 <= i < old(stream).arrow_phases@.len() ==>
            #[trigger] final(stream).arrow_phases@[i] == spec_turned(
                old(stream).arrow_phases@[i],
                spec_times(dt, PHASE_VEL),
            ),
{
    stream.update(dt);
}

/// The drifting arrow that starts at the crossing of column `i` and row `j`
/// of the sampling grid.
pub open spec fn grid_arrow(stream: &Stream, i: u32, j: u32) -> MovingArrow {
    let start = Vec2 {
        x: spec_grid_coord(stream.rect[0], i, SAMPLE_SIZE),
        y: spec_grid_coord(stream.rect[1], j, SAMPLE_SIZE),
    };
    MovingArrow {
        arrow: Arrow { pos: start, dir: flow_at(stream.arrows@, stream.arrow_phases@, start) },
        start_pos: start,
        time: 0,
    }
}

/// Replaces the drifting arrows by fresh ones, one at every crossing of the
/// sampling grid, column by column.
pub fn refresh_moving_arrows(stream: &Stream, moving_arrows: &mut Vec<MovingArrow>)
    requires
        stream.wf(),
    ensures
        final(moving_arrows)@.len() == spec_cells(stream.rect[2], SAMPLE_SIZE) * spec_cells(
            stream.rect[3],
            SAMPLE_SIZE,
        ),
        forall|i: u32, j: u32|
            i < spec_cells(stream.rect[2], SAMPLE_SIZE) && j < spec_cells(stream.rect[3], SAMPLE_SIZE)
                ==> final(moving_arrows)@[i * spec_cells(stream.rect[3], SAMPLE_SIZE) + j]
                == #[trigger] grid_arrow(stream, i, j),
{
    moving_arrows.clear();
    let nm: [u32; 2] = stream.nm(SAMPLE_SIZE);
    let n: u32 = nm[0];
    let m: u32 = nm[1];
    let mut i: u32 = 0;
    while i < n
        invariant
            i <= n,
            stream.wf(),
            n == spec_cells(stream.rect[2], SAMPLE_SIZE),
            m == spec_cells(stream.rect[3], SAMPLE_SIZE),
            moving_arrows@.len() == i * m,
            forall|a: u32, b: u32| a < i && b < m ==> moving_arrows@[a * m + b] == #[trigger] grid_arrow(stream, a, b),
        decreases n - i,
    {
        let mut j: u32 = 0;
        while j < m
            invariant
                i < n,
                j <= m,
                stream.wf(),
                moving_arrows@.len() == i * m + j,
                forall|a: u32, b: u32| a < i && b < m ==> moving_arrows@[a * m + b] == #[trigger] grid_arrow(stream, a, b),
                forall|b: u32| b < j ==> moving_arrows@[i * m + b] == #[trigger] grid_arrow(stream, i, b),
            decreases m - j,
        {
            let start: Vec2 = Vec2 {
                x: grid_coord(stream.rect[0], i, SAMPLE_SIZE),
                y: grid_coord(stream.rect[1], j, SAMPLE_SIZE),
            };
            let ghost before = moving_arrows@;
            moving_arrows.push(MovingArrow {
                arrow: Arrow { pos: start, dir: stream.at(start) },
                start_pos: start,
                time: 0,
            });
            proof {
                assert forall|a: u32, b: u32| a < i && b < m implies moving_arrows@[a * m + b]
                    == #[trigger] grid_arrow(stream, a, b) by {
                    assert(a * m + b < i * m) by (nonlinear_arith)
                        requires
                            0 <= a < i,
                            0 <= b < m,
                    ;
                    assert(before[a * m + b] == grid_arrow(stream, a, b));
                }
            }
            j = j + 1;
        }
        proof {
            assert((i + 1) * m == i * m + m) by (nonlinear_arith);
        }
        i = i + 1;
    }
}

/// A drifting arrow `dt` seconds later: carried along its direction, turned
/// into the flow at its new place, and sent back to its start once it has
/// travelled the whole span.
pub open spec fn drifted(stream: &Stream, m: MovingArrow, dt: i64) -> MovingArrow {
    let diff = m.arrow.dir.spec_scaled(spec_times(dt, SPEEDUP));
    let pos = m.arrow.pos.spec_plus(diff);
    let time = spec_plus(m.time, diff.spec_len());
    if time > MOVING_ARROW_TIME_SPAN {
        MovingArrow {
            arrow: Arrow {
                pos: m.start_pos,
                dir: flow_at(stream.arrows@, stream.arrow_phases@, m.start_pos),
            },
            start_pos: m.start_pos,
            time: 0,
        }
    } else {
        MovingArrow {
            arrow: Arrow { pos, dir: flow_at(stream.arrows@, stream.arrow_phases@, pos) },
            start_pos: m.start_pos,
            time,
        }
    }
}

/// Lets `dt` seconds pass for every drifting arrow.
pub fn update_moving_arrows(stream: &Stream, moving_arrows: &mut Vec<MovingArrow>, dt: i64)
    requires
        stream.wf(),
    ensures
        final(moving_arrows)@.len() == old(moving_arrows)@.len(),
        forall|i: int| 0 <= i < old(moving_arrows)@.len() ==> #[trigger] final(moving_arrows)@[i]
            == drifted(stream, old(moving_arrows)@[i], dt),
{
    let n: usize = moving_arrows.len();
    let mut i: usize = 0;
    while i < n
        invariant
            i <= n,
            stream.wf(),
            n == moving_arrows@.len(),
            n == old(moving_arrows)@.len(),
            forall|j: int| 0 <= j < i ==> #[trigger] moving_arrows@[j] == drifted(
                stream,
                old(moving_arrows)@[j],
                dt,
            ),
            forall|j: int| i <= j < n ==> #[trigger] moving_arrows@[j] == old(moving_arrows)@[j],
        decreases n - i,
    {
        let m: MovingArrow = moving_arrows[i];
        let diff: Vec2 = m.arrow.dir.scaled(times(dt, SPEEDUP));
        let pos: Vec2 = m.arrow.pos.plus(diff);
        let time: i64 = plus(m.time, diff.len());
        let next: MovingArrow = if time > MOVING_ARROW_TIME_SPAN {
            MovingArrow {
                arrow: Arrow { pos: m.start_pos, dir: stream.at(m.start_pos) },
                start_pos: m.start_pos,
                time: 0,
            }
        } else {
            MovingArrow { arrow: Arrow { pos, dir: stream.at(pos) }, start_pos: m.start_pos, time }
        };
        moving_arrows.set(i, next);
        i = i + 1;
    }
}

/// A tick of no time turns no phase.
pub proof fn lemma_no_time_no_turn(phase: i64)
    ensures
        spec_turned(phase, spec_times(0, PHASE_VEL)) == phase,
{
}

/// A pull at full weight, added to another, is far from where sums saturate.
proof fn lemma_small_sum(c: int, before: int)
    requires
        -1_000_000_000_000 <= c <= 1_000_000_000_000,
        -1_000_000_000_000 <= before <= 1_000_000_000_000,
    ensures
        bounded(before * FINE + c * FINE) == (before + c) * FINE,
        -2_000_000_000_000_000_000_000_000 <= (before + c) * FINE <= 2_000_000_000_000_000_000_000_000,
{
    assert((before + c) * FINE == before * FINE + c * FINE) by (nonlinear_arith);
    assert(-2_000_000_000_000_000_000_000_000 <= (before + c) * FINE
        <= 2_000_000_000_000_000_000_000_000) by (nonlinear_arith)
        requires
            -2_000_000_000_000 <= before + c <= 2_000_000_000_000,
            FINE == 1_000_000_000_000,
    ;
}

/// A lone arrow rules the whole sea: the flow is its pull, wherever one asks.
pub proof fn lemma_lone_arrow(arrows: Seq<Arrow>, phases: Seq<i64>, p: Vec2)
    requires
        arrows.len() == 1,
        phases.len() == 1,
    ensures
        flow_at(arrows, phases, p) == pull(arrows[0], phases[0]),
{
    let nearest = nearest_dist2(arrows, p, 1);
    lemma_floored_dist2_range(arrows[0], p);
    lemma_weight_range(arrows[0], p, nearest);
    let pulled = pull(arrows[0], phases[0]);
    assert(total_weight(arrows, p, nearest, 0) == 0);
    assert(total_weight(arrows, p, nearest, 1) == FINE);
    assert(weighted_x(arrows, phases, p, nearest, 0) == 0);
    assert(weighted_y(arrows, phases, p, nearest, 0) == 0);
    lemma_small_sum(pulled.x as int, 0);
    lemma_small_sum(pulled.y as int, 0);
    assert(weighted_x(arrows, phases, p, nearest, 1) == pulled.x * FINE);
    assert(weighted_y(arrows, phases, p, nearest, 1) == pulled.y * FINE);
}

/// Two arrows at the same distance count the same: the flow is the mean of
/// their pulls.
pub proof fn lemma_equidistant_arrows_average(arrows: Seq<Arrow>, phases: Seq<i64>, p: Vec2)
    requires
        arrows.len() == 2,
        phases.len() == 2,
        floored_dist2(arrows[0], p) == floored_dist2(arrows[1], p),
    ensures
        flow_at(arrows, phases, p) == (Vec2 {
            x: round_div(pull(arrows[0], phases[0]).x + pull(arrows[1], phases[1]).x, 2) as i64,
            y: round_div(pull(arrows[0], phases[0]).y + pull(arrows[1], phases[1]).y, 2) as i64,
        }),
{
    let nearest = nearest_dist2(arrows, p, 2);
    assert(nearest_dist2(arrows, p, 1) == floored_dist2(arrows[0], p));
    assert(nearest == floored_dist2(arrows[0], p));
    lemma_floored_dist2_range(arrows[0], p);
    lemma_weight_range(arrows[0], p, nearest);
    lemma_weight_range(arrows[1], p, nearest);
    let a = pull(arrows[0], phases[0]);
    let b = pull(arrows[1], phases[1]);
    assert(total_weight(arrows, p, nearest, 0) == 0);
    assert(total_weight(arrows, p, nearest, 1) == FINE);
    assert(total_weight(arrows, p, nearest, 2) == 2 * FINE);
    assert(weighted_x(arrows, phases, p, nearest, 0) == 0);
    assert(weighted_y(arrows, phases, p, nearest, 0) == 0);
    lemma_small_sum(a.x as int, 0);
    lemma_small_sum(a.y as int, 0);
    lemma_small_sum(b.x as int, a.x as int);
    lemma_small_sum(b.y as int, a.y as int);
    assert(weighted_x(arrows, phases, p, nearest, 1) == a.x * FINE);
    assert(weighted_y(arrows, phases, p, nearest, 1) == a.y * FINE);
    assert(weighted_x(arrows, phases, p, nearest, 2) == (a.x + b.x) * FINE);
    assert(weighted_y(arrows, phases, p, nearest, 2) == (a.y + b.y) * FINE);
}

/// A stream without arrows is still everywhere.
pub proof fn lemma_empty_stream_is_still(arrows: Seq<Arrow>, phases: Seq<i64>, p: Vec2)
    requires
        arrows.len() == 0,
    ensures
        flow_at(arrows, phases, p) == Vec2::spec_zero(),
{
}

} // verus!
