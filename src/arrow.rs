//! One arrow of the flock and the forces that steer it.
use crate::fixed::{
    fadd, fdiv, fmul, fsub, fx_add, fx_div, fx_div_count, fx_mul, fx_sub, in_range, tdiv, EPSILON,
    HALF, LIMIT, SCALE,
};
use crate::messages::{Color, FlockingParameters};
use crate::vector::{along, scaled_unit_length, Vec2};
use vstd::prelude::*;

verus! {

/// What an arrow sees of another arrow during one tick.
#[derive(Clone, Copy, Debug, PartialEq, Eq, Structural)]
pub struct NeighborData {
    pub position: Vec2,
    pub velocity: Vec2,
    pub size: i64,
}

impl NeighborData {
    pub open spec fn wf(self) -> bool {
        self.position.wf() && self.velocity.wf() && in_range(self.size as int)
    }
}

/// A circle that arrows steer away from.
#[derive(Clone, Copy, Debug, PartialEq, Eq, Structural)]
pub struct Obstacle {
    pub position: Vec2,
    pub radius: i64,
}

impl Obstacle {
    pub open spec fn wf(self) -> bool {
        self.position.wf() && in_range(self.radius as int)
    }
}

/// An arrow. `angle` is its heading, held as a vector whose polar angle it
/// is: the last velocity longer than `EPSILON`.
#[derive(Clone, Copy, Debug, PartialEq, Eq, Structural)]
pub struct Arrow {
    pub position: Vec2,
    pub velocity: Vec2,
    pub acceleration: Vec2,
    pub size: i64,
    pub color: Color,
    pub angle: Vec2,
}

/// The running sums of one pass over the neighbours.
#[derive(Clone, Copy, Debug, PartialEq, Eq, Structural)]
pub struct FlockSums {
    pub separation: Vec2,
    pub alignment: Vec2,
    pub alignment_count: u64,
    pub cohesion: Vec2,
    pub cohesion_count: u64,
}

pub open spec fn all_obstacles_wf(s: Seq<Obstacle>) -> bool {
    forall|i: int| 0 <= i < s.len() ==> #[trigger] s[i].wf()
}

pub open spec fn all_neighbors_wf(s: Seq<NeighborData>) -> bool {
    forall|i: int| 0 <= i < s.len() ==> #[trigger] s[i].wf()
}

/// The point forces act on: the top-left corner moved by half the size on
/// each axis.
pub open spec fn center_of(position: Vec2, size: i64) -> Vec2 {
    let h = fmul(size as int, HALF as int) as i64;
    position.plus(Vec2 { x: h, y: h })
}

/// Velocity after the push of one obstacle on an arrow centred at `c`.
pub open spec fn avoid_step(v: Vec2, c: Vec2, o: Obstacle, p: FlockingParameters) -> Vec2 {
    let to = c.minus(o.position);
    let d = to.len();
    if d < fadd(p.obstacle_avoidance_distance as int, o.radius as int) && to.longer(EPSILON as int) {
        v.plus(to.unit().times(avoid_force(d, o.radius as int, p)))
    } else {
        v
    }
}

/// Strength of the push of an obstacle of radius `r` at distance `d`.
pub open spec fn avoid_force(d: int, r: int, p: FlockingParameters) -> int {
    fmul(
        fsub(SCALE as int, fdiv(fsub(d, r), p.obstacle_avoidance_distance as int)),
        p.obstacle_avoidance_strength as int,
    )
}

/// Velocity after the pushes of all obstacles, taken in order.
pub open spec fn avoid_all(v: Vec2, c: Vec2, obs: Seq<Obstacle>, p: FlockingParameters) -> Vec2
    decreases obs.len(),
{
    if obs.len() == 0 {
        v
    } else {
        avoid_step(avoid_all(v, c, obs.drop_last(), p), c, obs.last(), p)
    }
}

pub open spec fn empty_sums() -> FlockSums {
    FlockSums {
        separation: Vec2::zero(),
        alignment: Vec2::zero(),
        alignment_count: 0,
        cohesion: Vec2::zero(),
        cohesion_count: 0,
    }
}

/// Weight of the separation push of a neighbour at distance `d`.
pub open spec fn separation_weight(d: int, p: FlockingParameters) -> int {
    fsub(SCALE as int, fdiv(d, p.separation_distance as int))
}

/// The sums after one more neighbour. A neighbour closer than `EPSILON`
/// (the arrow itself) is skipped.
pub open spec fn neighbor_step(s: FlockSums, c: Vec2, n: NeighborData, p: FlockingParameters) -> FlockSums {
    let nc = center_of(n.position, n.size);
    let diff = c.minus(nc);
    let d = diff.len();
    if d < EPSILON {
        s
    } else {
        FlockSums {
            separation: if d < p.separation_distance {
                s.separation.plus(diff.unit().times(separation_weight(d, p)))
            } else {
                s.separation
            },
            alignment: if d < p.alignment_distance {
                s.alignment.plus(n.velocity)
            } else {
                s.alignment
            },
            alignment_count: if d < p.alignment_distance {
                (s.alignment_count + 1) as u64
            } else {
                s.alignment_count
            },
            cohesion: if d < p.cohesion_distance {
                s.cohesion.plus(nc)
            } else {
                s.cohesion
            },
            cohesion_count: if d < p.cohesion_distance {
                (s.cohesion_count + 1) as u64
            } else {
                s.cohesion_count
            },
        }
    }
}

/// The sums over all neighbours, taken in order.
pub open spec fn flock_sums(c: Vec2, nbs: Seq<NeighborData>, p: FlockingParameters) -> FlockSums
    decreases nbs.len(),
{
    if nbs.len() == 0 {
        empty_sums()
    } else {
        neighbor_step(flock_sums(c, nbs.drop_last(), p), c, nbs.last(), p)
    }
}

/// Each component of `v` divided by the count `n`.
pub open spec fn average(v: Vec2, n: int) -> Vec2 {
    Vec2 { x: tdiv(v.x as int, n) as i64, y: tdiv(v.y as int, n) as i64 }
}

/// The alignment force: the direction of the mean velocity of the
/// neighbours in reach.
pub open spec fn alignment_of(s: FlockSums) -> Vec2 {
    if s.alignment_count > 0 {
        average(s.alignment, s.alignment_count as int).unit()
    } else {
        s.alignment
    }
}

/// Strength of the cohesion pull at distance `dtc` from the centre of
/// mass: one half, rising linearly to one at `cohesion_distance`.
pub open spec fn cohesion_strength(dtc: int, cohesion_distance: int) -> int {
    let f = fdiv(dtc, cohesion_distance);
    let factor = if f < SCALE { f } else { SCALE as int };
    fadd(HALF as int, fmul(factor, HALF as int))
}

/// The cohesion force: toward the centre of mass of the neighbours in
/// reach, with `cohesion_strength`.
pub open spec fn cohesion_of(c: Vec2, s: FlockSums, p: FlockingParameters) -> Vec2 {
    if s.cohesion_count > 0 {
        let to_center = average(s.cohesion, s.cohesion_count as int).minus(c);
        let dtc = to_center.len();
        if to_center.longer(EPSILON as int) {
            to_center.unit().times(cohesion_strength(dtc, p.cohesion_distance as int))
        } else {
            Vec2::zero()
        }
    } else {
        s.cohesion
    }
}

/// Separation, alignment and cohesion of an arrow centred at `c`.
pub open spec fn flocking(c: Vec2, nbs: Seq<NeighborData>, p: FlockingParameters) -> (Vec2, Vec2, Vec2) {
    let s = flock_sums(c, nbs, p);
    (s.separation, alignment_of(s), cohesion_of(c, s, p))
}

/// `v` rescaled to length `max_speed` where it is longer.
pub open spec fn clamp_speed(v: Vec2, max_speed: int) -> Vec2 {
    if v.longer(max_speed) {
        v.unit().times(max_speed)
    } else {
        v
    }
}

/// One coordinate after wrapping: past `bound` it goes to `-size`, below
/// `-size` it goes to `bound`.
pub open spec fn wrap(x: int, size: int, bound: int) -> int {
    if x > bound {
        -size
    } else if x < -size {
        bound
    } else {
        x
    }
}

impl Arrow {
    pub open spec fn wf(self) -> bool {
        &&& self.position.wf()
        &&& self.velocity.wf()
        &&& self.acceleration.wf()
        &&& self.angle.wf()
        &&& 0 < self.size <= LIMIT
    }

    /// Velocity after avoidance, flocking and acceleration, before the
    /// speed clamp.
    pub open spec fn steered(self, obs: Seq<Obstacle>, nbs: Seq<NeighborData>, p: FlockingParameters) -> Vec2 {
        let c = center_of(self.position, self.size);
        let v1 = avoid_all(self.velocity, c, obs, p);
        let f = flocking(c, nbs, p);
        v1.plus(f.0.times(p.separation_strength as int)).plus(
            f.1.times(p.alignment_strength as int),
        ).plus(f.2.times(p.cohesion_strength as int)).plus(self.acceleration)
    }

    /// The arrow after one tick.
    pub open spec fn stepped(
        self,
        width: int,
        height: int,
        obs: Seq<Obstacle>,
        nbs: Seq<NeighborData>,
        p: FlockingParameters,
    ) -> Arrow {
        let v = clamp_speed(self.steered(obs, nbs, p), p.max_speed as int);
        let moved = self.position.plus(v);
        Arrow {
            position: Vec2 {
                x: wrap(moved.x as int, self.size as int, width) as i64,
                y: wrap(moved.y as int, self.size as int, height) as i64,
            },
            velocity: v,
            angle: if v.longer(EPSILON as int) {
                v
            } else {
                self.angle
            },
            ..self
        }
    }

    /// What the other arrows see of this one.
    pub open spec fn as_neighbor(self) -> NeighborData {
        NeighborData { position: self.position, velocity: self.velocity, size: self.size }
    }

    pub fn position(&self) -> (r: Vec2)
        ensures
            r == self.position,
    {
        self.position
    }

    pub fn velocity(&self) -> (r: Vec2)
        ensures
            r == self.velocity,
    {
        self.velocity
    }

    pub fn size(&self) -> (r: i64)
        ensures
            r == self.size,
    {
        self.size
    }

    pub fn angle(&self) -> (r: Vec2)
        ensures
            r == self.angle,
    {
        self.angle
    }

    pub fn color(&self) -> (r: Color)
        ensures
            r == self.color,
    {
        self.color
    }

    /// A new arrow, heading along `velocity` where that is longer than
    /// `EPSILON`, else along the x axis.
    pub fn new(position: Vec2, velocity: Vec2, acceleration: Vec2, size: i64, color: Color) -> (a: Arrow)
        requires
            velocity.wf(),
        ensures
            a.position == position,
            a.velocity == velocity,
            a.acceleration == acceleration,
            a.size == size,
            a.color == color,
            a.angle == (if velocity.longer(EPSILON as int) {
                velocity
            } else {
                Vec2::zero()
            }),
    {
        let angle = if velocity.longer_than(EPSILON) {
            velocity
        } else {
            Vec2::new(0, 0)
        };
        Arrow { position, velocity, acceleration, size, color, angle }
    }
}

fn center_point(position: Vec2, size: i64) -> (c: Vec2)
    requires
        position.wf(),
        in_range(size as int),
    ensures
        c == center_of(position, size),
        c.wf(),
{
    let h = fx_mul(size, HALF);
    position.add(Vec2::new(h, h))
}

fn wrap_coordinate(x: i64, size: i64, bound: i64) -> (r: i64)
    requires
        in_range(size as int),
    ensures
        r == wrap(x as int, size as int, bound as int),
{
    if x > bound {
        -size
    } else if x < -size {
        bound
    } else {
        x
    }
}

/// Velocity `v` of an arrow centred at `c` after every obstacle's push.
fn avoid_obstacles(v: Vec2, c: Vec2, obstacles: &[Obstacle], params: &FlockingParameters) -> (r: Vec2)
    requires
        v.wf(),
        c.wf(),
        all_obstacles_wf(obstacles@),
        params.wf(),
    ensures
        r == avoid_all(v, c, obstacles@, *params),
        r.wf(),
{
    let mut cur = v;
    let mut i: usize = 0;
    while i < obstacles.len()
        invariant
            i <= obstacles@.len(),
            v.wf(),
            c.wf(),
            all_obstacles_wf(obstacles@),
            params.wf(),
            cur.wf(),
            cur == avoid_all(v, c, obstacles@.take(i as int), *params),
        decreases obstacles.len() - i,
    {
        let o = obstacles[i];
        assert(o.wf());
        let to = c.sub(o.position);
        let d = to.length();
        let reach = fx_add(params.obstacle_avoidance_distance, o.radius);
        if d < reach && to.longer_than(EPSILON) {
            let shortfall = fx_div(fx_sub(d, o.radius), params.obstacle_avoidance_distance);
            let force = fx_mul(fx_sub(SCALE, shortfall), params.obstacle_avoidance_strength);
            cur = cur.add(to.normalize().mul(force));
        }
        proof {
            assert(obstacles@.take(i + 1).drop_last() =~= obstacles@.take(i as int));
        }
        i = i + 1;
    }
    proof {
        assert(obstacles@.take(i as int) =~= obstacles@);
    }
    cur
}

/// The sums `s` after the neighbour `n`, for an arrow centred at `c`.
fn add_neighbor(s: FlockSums, c: Vec2, n: NeighborData, params: &FlockingParameters) -> (r: FlockSums)
    requires
        s.separation.wf(),
        s.alignment.wf(),
        s.cohesion.wf(),
        s.alignment_count < u64::MAX,
        s.cohesion_count < u64::MAX,
        c.wf(),
        n.wf(),
        params.wf(),
    ensures
        r == neighbor_step(s, c, n, *params),
        r.separation.wf(),
        r.alignment.wf(),
        r.cohesion.wf(),
        r.alignment_count <= s.alignment_count + 1,
        r.cohesion_count <= s.cohesion_count + 1,
        r.cohesion_count > s.cohesion_count ==> params.cohesion_distance > EPSILON,
{
    let nc = center_point(n.position, n.size);
    let diff = c.sub(nc);
    let d = diff.length();
    if d < EPSILON {
        return s;
    }
    let mut r = s;
    if d < params.separation_distance {
        let weight = fx_sub(SCALE, fx_div(d, params.separation_distance));
        r.separation = s.separation.add(diff.normalize().mul(weight));
    }
    if d < params.alignment_distance {
        r.alignment = s.alignment.add(n.velocity);
        r.alignment_count = s.alignment_count + 1;
    }
    if d < params.cohesion_distance {
        r.cohesion = s.cohesion.add(nc);
        r.cohesion_count = s.cohesion_count + 1;
    }
    r
}

fn cohesion_strength_at(dtc: i64, cohesion_distance: i64) -> (r: i64)
    requires
        in_range(dtc as int),
        1 <= cohesion_distance <= LIMIT,
    ensures
        r == cohesion_strength(dtc as int, cohesion_distance as int),
        in_range(r as int),
{
    let f = fx_div(dtc, cohesion_distance);
    let factor = if f < SCALE {
        f
    } else {
        SCALE
    };
    fx_add(HALF, fx_mul(factor, HALF))
}

impl Arrow {
    fn calculate_flocking(&self, neighbors: &[NeighborData], params: &FlockingParameters) -> (r: (
        Vec2,
        Vec2,
        Vec2,
    ))
        requires
            self.wf(),
            all_neighbors_wf(neighbors@),
            params.wf(),
        ensures
            r == flocking(center_of(self.position, self.size), neighbors@, *params),
            r.0.wf(),
            r.1.wf(),
            r.2.wf(),
    {
        let c = center_point(self.position, self.size);
        let zero = Vec2::new(0, 0);
        let mut s = FlockSums {
            separation: zero,
            alignment: zero,
            alignment_count: 0,
            cohesion: zero,
            cohesion_count: 0,
        };
        let mut i: usize = 0;
        proof {
            assert(neighbors@.take(0) =~= Seq::<NeighborData>::empty());
        }
        while i < neighbors.len()
            invariant
                i <= neighbors@.len(),
                c == center_of(self.position, self.size),
                c.wf(),
                all_neighbors_wf(neighbors@),
                params.wf(),
                s == flock_sums(c, neighbors@.take(i as int), *params),
                s.separation.wf(),
                s.alignment.wf(),
                s.cohesion.wf(),
                s.alignment_count <= i,
                s.cohesion_count <= i,
                s.cohesion_count > 0 ==> params.cohesion_distance > EPSILON,
            decreases neighbors.len() - i,
        {
            let n = neighbors[i];
            assert(n.wf());
            s = add_neighbor(s, c, n, params);
            proof {
                assert(neighbors@.take(i + 1).drop_last() =~= neighbors@.take(i as int));
            }
            i = i + 1;
        }
        proof {
            assert(neighbors@.take(i as int) =~= neighbors@);
        }
        let alignment = if s.alignment_count > 0 {
            let n = s.alignment_count;
            Vec2::new(fx_div_count(s.alignment.x, n), fx_div_count(s.alignment.y, n)).normalize()
        } else {
            s.alignment
        };
        let cohesion = if s.cohesion_count > 0 {
            let n = s.cohesion_count;
            let com = Vec2::new(fx_div_count(s.cohesion.x, n), fx_div_count(s.cohesion.y, n));
            let to_center = com.sub(c);
            let dtc = to_center.length();
            if to_center.longer_than(EPSILON) {
                let strength = cohesion_strength_at(dtc, params.cohesion_distance);
                to_center.normalize().mul(strength)
            } else {
                Vec2::new(0, 0)
            }
        } else {
            s.cohesion
        };
        (s.separation, alignment, cohesion)
    }

    /// One tick: obstacle avoidance, flocking, acceleration, the speed
    /// clamp, the heading, the move and the wrap at the edges.
    pub fn update(
        &mut self,
        screen_width: i64,
        screen_height: i64,
        obstacles: &[Obstacle],
        neighbors: &[NeighborData],
        params: &FlockingParameters,
    )
        requires
            old(self).wf(),
            in_range(screen_width as int),
            in_range(screen_height as int),
            all_obstacles_wf(obstacles@),
            all_neighbors_wf(neighbors@),
            params.wf(),
        ensures
            *final(self) == old(self).stepped(
                screen_width as int,
                screen_height as int,
                obstacles@,
                neighbors@,
                *params,
            ),
            final(self).wf(),
    {
        let c = center_point(self.position, self.size);
        let mut v = avoid_obstacles(self.velocity, c, obstacles, params);
        let (separation, alignment, cohesion) = self.calculate_flocking(neighbors, params);
        v = v.add(separation.mul(params.separation_strength));
        v = v.add(alignment.mul(params.alignment_strength));
        v = v.add(cohesion.mul(params.cohesion_strength));
        v = v.add(self.acceleration);
        if v.longer_than(params.max_speed) {
            v = v.normalize().mul(params.max_speed);
        }
        if v.longer_than(EPSILON) {
            self.angle = v;
        }
        self.velocity = v;
        let moved = self.position.add(v);
        self.position = Vec2::new(
            wrap_coordinate(moved.x, self.size, screen_width),
            wrap_coordinate(moved.y, self.size, screen_height),
        );
    }
}

/// An arrow whose move takes it past the right edge reappears at `-size`,
/// whatever else happened in the tick.
pub proof fn wrap_past_right_edge(
    a: Arrow,
    width: int,
    height: int,
    obs: Seq<Obstacle>,
    nbs: Seq<NeighborData>,
    p: FlockingParameters,
)
    requires
        a.wf(),
        in_range(width),
        a.position.plus(clamp_speed(a.steered(obs, nbs, p), p.max_speed as int)).x > width,
    ensures
        a.stepped(width, height, obs, nbs, p).position.x == -a.size,
{
}

/// A lone neighbour whose centre is farther than `EPSILON` from the
/// arrow's, at distance `d < separation_distance`, pushes the arrow away
/// from it, along the unit vector from the neighbour's centre to the
/// arrow's, with weight `1 - d / separation_distance`, which is positive:
/// the push has that length up to rounding (the bounds of
/// `scaled_unit_length`).
pub proof fn separation_from_one_neighbor(c: Vec2, n: NeighborData, p: FlockingParameters)
    requires
        c.wf(),
        n.wf(),
        p.wf(),
        c.minus(center_of(n.position, n.size)).longer(EPSILON as int),
        c.minus(center_of(n.position, n.size)).len() < p.separation_distance,
    ensures
        ({
            let diff = c.minus(center_of(n.position, n.size));
            let d = diff.len();
            let w = separation_weight(d, p);
            &&& flocking(c, seq![n], p).0 == diff.unit().times(w)
            &&& w == SCALE - tdiv(d * SCALE, p.separation_distance as int)
            &&& 0 < w <= SCALE
            &&& flocking(c, seq![n], p).0.norm_sq() * (SCALE * SCALE) <= (SCALE * SCALE + 3000) * (w * w)
            &&& (SCALE * SCALE - 5 * SCALE) * (w * w) - (4 * w + 2) * (SCALE * SCALE) < flocking(
                c,
                seq![n],
                p,
            ).0.norm_sq() * (SCALE * SCALE)
        }),
{
    let diff = c.minus(center_of(n.position, n.size));
    crate::vector::length_bounds(diff);
    let d = diff.len();
    let sd = p.separation_distance as int;
    assert(seq![n].drop_last() =~= Seq::<NeighborData>::empty());
    assert(0 <= d * SCALE < sd * SCALE) by (nonlinear_arith)
        requires
            0 <= d < sd,
    ;
    crate::fixed::lemma_tdiv_bounded(d * SCALE, sd);
    vstd::arithmetic::div_mod::lemma_div_is_ordered(d * SCALE, sd * SCALE - 1, sd);
    assert((sd * SCALE - 1) / sd < SCALE as int) by {
        vstd::arithmetic::div_mod::lemma_fundamental_div_mod(sd * SCALE - 1, sd);
        vstd::arithmetic::div_mod::lemma_mod_bound(sd * SCALE - 1, sd);
        assert(sd * ((sd * SCALE - 1) / sd) <= sd * SCALE - 1);
        if (sd * SCALE - 1) / sd >= SCALE {
            vstd::arithmetic::mul::lemma_mul_inequality(SCALE as int, (sd * SCALE - 1) / sd, sd);
            assert(sd * SCALE <= sd * ((sd * SCALE - 1) / sd)) by (nonlinear_arith)
                requires
                    SCALE * sd <= ((sd * SCALE - 1) / sd) * sd,
            ;
        }
    }
    let w = diff.unit().times(separation_weight(d, p));
    assert(Vec2::zero().plus(w) == w);
    reveal_with_fuel(flock_sums, 2);
    assert(flock_sums(c, seq![n].drop_last(), p) == empty_sums());
    assert(seq![n].last() == n);
    assert(flock_sums(c, seq![n], p).separation == w);
    scaled_unit_length(diff, separation_weight(d, p));
}

/// The cohesion pull grows with the distance to the centre of mass: it
/// never falls as the distance grows, it is one half at the least and one
/// at the most, and it is exactly one from `cohesion_distance` on.
pub proof fn cohesion_pull_grows(d1: int, d2: int, cd: int)
    requires
        0 <= d1 <= d2 <= LIMIT,
        1 <= cd <= LIMIT,
    ensures
        cohesion_strength(d1, cd) <= cohesion_strength(d2, cd),
        HALF <= cohesion_strength(d1, cd) <= SCALE,
        d2 >= cd ==> cohesion_strength(d2, cd) == SCALE,
{
    assert(0 <= d1 * SCALE <= d2 * SCALE) by (nonlinear_arith)
        requires
            0 <= d1 <= d2,
    ;
    crate::fixed::lemma_tdiv_monotonic(d1 * SCALE, d2 * SCALE, cd);
    crate::fixed::lemma_tdiv_bounded(d1 * SCALE, cd);
    if d2 >= cd {
        assert(cd * SCALE <= d2 * SCALE) by (nonlinear_arith)
            requires
                cd <= d2,
        ;
        crate::fixed::lemma_tdiv_monotonic(cd * SCALE, d2 * SCALE, cd);
        vstd::arithmetic::div_mod::lemma_div_by_multiple(SCALE as int, cd);
        assert(cd * SCALE == SCALE * cd) by (nonlinear_arith);
    }
    let f1 = fdiv(d1, cd);
    let f2 = fdiv(d2, cd);
    let g1 = if f1 < SCALE { f1 } else { SCALE as int };
    let g2 = if f2 < SCALE { f2 } else { SCALE as int };
    assert(0 <= g1 <= g2 <= SCALE);
    assert(0 <= g1 * HALF <= g2 * HALF <= SCALE * HALF) by (nonlinear_arith)
        requires
            0 <= g1 <= g2 <= SCALE,
    ;
    crate::fixed::lemma_tdiv_monotonic(g1 * HALF, g2 * HALF, SCALE as int);
    crate::fixed::lemma_tdiv_monotonic(g2 * HALF, SCALE * HALF, SCALE as int);
    crate::fixed::lemma_tdiv_bounded(g1 * HALF, SCALE as int);
    vstd::arithmetic::div_mod::lemma_div_by_multiple(HALF as int, SCALE as int);
}

/// Where a velocity is longer than `max_speed` (itself at least
/// `EPSILON`), the clamp rescales it to `max_speed` along its own
/// direction: each component keeps its sign and is `v`'s component times
/// `max_speed / |v|` to within `max_speed / SCALE + 1` millionths (`along`),
/// and the squared length is `max_speed²` up to rounding (at most
/// `3000 / SCALE²` of it more, and at most `5 / SCALE` of it plus
/// `4 * max_speed + 2` less; for five units, a length within twenty
/// millionths of a unit of five).
pub proof fn speed_clamp_keeps_direction(v: Vec2, m: int)
    requires
        v.wf(),
        EPSILON <= m <= LIMIT,
        v.longer(m),
    ensures
        clamp_speed(v, m) == v.unit().times(m),
        v.x >= 0 ==> clamp_speed(v, m).x >= 0,
        v.x <= 0 ==> clamp_speed(v, m).x <= 0,
        v.y >= 0 ==> clamp_speed(v, m).y >= 0,
        v.y <= 0 ==> clamp_speed(v, m).y <= 0,
        clamp_speed(v, m).norm_sq() * (SCALE * SCALE) <= (SCALE * SCALE + 3000) * (m * m),
        (SCALE * SCALE - 5 * SCALE) * (m * m) - (4 * m + 2) * (SCALE * SCALE) < clamp_speed(v, m).norm_sq()
            * (SCALE * SCALE),
        along(v.x as int, clamp_speed(v, m).x as int, v, m),
        along(v.y as int, clamp_speed(v, m).y as int, v, m),
{
    assert(v.norm_sq() > EPSILON * EPSILON) by (nonlinear_arith)
        requires
            v.norm_sq() > m * m,
            m >= EPSILON,
    ;
    scaled_unit_length(v, m);
}

/// Where the neighbours in reach have their centre of mass farther than
/// `EPSILON` from the arrow's centre `c`, the cohesion force points there
/// with length `cohesion_strength` of that distance, up to rounding (the
/// bounds of `scaled_unit_length`).
pub proof fn cohesion_pull_length(c: Vec2, s: FlockSums, p: FlockingParameters)
    requires
        s.cohesion_count > 0,
        p.wf(),
        p.cohesion_distance >= 1,
        average(s.cohesion, s.cohesion_count as int).minus(c).longer(EPSILON as int),
    ensures
        ({
            let to_center = average(s.cohesion, s.cohesion_count as int).minus(c);
            let st = cohesion_strength(to_center.len(), p.cohesion_distance as int);
            &&& cohesion_of(c, s, p) == to_center.unit().times(st)
            &&& HALF <= st <= SCALE
            &&& cohesion_of(c, s, p).norm_sq() * (SCALE * SCALE) <= (SCALE * SCALE + 3000) * (st * st)
            &&& (SCALE * SCALE - 5 * SCALE) * (st * st) - (4 * st + 2) * (SCALE * SCALE) < cohesion_of(
                c,
                s,
                p,
            ).norm_sq() * (SCALE * SCALE)
        }),
{
    let to_center = average(s.cohesion, s.cohesion_count as int).minus(c);
    crate::vector::length_bounds(to_center);
    let d = to_center.len();
    cohesion_pull_grows(d, d, p.cohesion_distance as int);
    let st = cohesion_strength(d, p.cohesion_distance as int);
    scaled_unit_length(to_center, st);
}

/// After a tick every arrow lies in the box padded by its size: each
/// coordinate is between `-size` and the screen's width or height.
pub proof fn stays_in_padded_box(
    a: Arrow,
    width: int,
    height: int,
    obs: Seq<Obstacle>,
    nbs: Seq<NeighborData>,
    p: FlockingParameters,
)
    requires
        a.wf(),
        0 <= width <= LIMIT,
        0 <= height <= LIMIT,
    ensures
        -a.size <= a.stepped(width, height, obs, nbs, p).position.x <= width,
        -a.size <= a.stepped(width, height, obs, nbs, p).position.y <= height,
{
}

/// An arrow that does not cross an edge moves by exactly its new,
/// clamped velocity.
pub proof fn moves_by_its_velocity(
    a: Arrow,
    width: int,
    height: int,
    obs: Seq<Obstacle>,
    nbs: Seq<NeighborData>,
    p: FlockingParameters,
)
    requires
        a.wf(),
        ({
            let moved = a.position.plus(a.stepped(width, height, obs, nbs, p).velocity);
            -a.size <= moved.x <= width && -a.size <= moved.y <= height
        }),
    ensures
        a.stepped(width, height, obs, nbs, p).position == a.position.plus(
            a.stepped(width, height, obs, nbs, p).velocity,
        ),
{
}

} // verus!
