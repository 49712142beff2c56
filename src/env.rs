//! Collision worlds made of balls and axis-aligned boxes.

use vstd::prelude::*;

use crate::metric::{sq, SquaredEuclidean};
use crate::nn::DistanceAabb;
use crate::space::Vector;
use crate::Metric;

verus! {

struct Ball<const N: usize> {
    pos: Vector<N>,
    r: i32,
}

struct Aabb<const N: usize> {
    los: Vector<N>,
    his: Vector<N>,
}

/// Whether a ball at `pos` with radius `br` touches the ball at `c` with radius `r`.
pub open spec fn balls_touch<const N: usize>(pos: Vector<N>, br: i32, c: Vector<N>, r: i32) -> bool {
    SquaredEuclidean.dist(pos, c) <= sq(br + r)
}

/// Whether the box `[lo, hi]` touches the ball at `c` with radius `r`.
pub open spec fn box_touches<const N: usize>(lo: Vector<N>, hi: Vector<N>, c: Vector<N>, r: i32) -> bool {
    SquaredEuclidean.aabb_dist(c, lo, hi) <= sq(r as int)
}

/// Whether one of `balls` touches the ball at `c` with radius `r`.
pub open spec fn any_ball_touches<const N: usize>(balls: Seq<(Vector<N>, i32)>, c: Vector<N>, r: i32) -> bool {
    exists|i: int| 0 <= i < balls.len() && #[trigger] balls_touch(balls[i].0, balls[i].1, c, r)
}

/// Whether one of `boxes` touches the ball at `c` with radius `r`.
pub open spec fn any_box_touches<const N: usize>(boxes: Seq<(Vector<N>, Vector<N>)>, c: Vector<N>, r: i32) -> bool {
    exists|i: int| 0 <= i < boxes.len() && #[trigger] box_touches(boxes[i].0, boxes[i].1, c, r)
}

fn balls_collide<const N: usize>(balls: &Vec<Ball<N>>, c: &Vector<N>, r: i32) -> (hit: bool)
    requires
        r >= 0,
        forall|i: int| 0 <= i < balls@.len() ==> (#[trigger] balls@[i]).r >= 0,
    ensures
        hit == any_ball_touches(balls@.map_values(|b: Ball<N>| (b.pos, b.r)), *c, r),
{
    let ghost view = balls@.map_values(|b: Ball<N>| (b.pos, b.r));
    let mut i: usize = 0;
    while i < balls.len()
        invariant
            i <= balls@.len(),
            r >= 0,
            view == balls@.map_values(|b: Ball<N>| (b.pos, b.r)),
            forall|j: int| 0 <= j < balls@.len() ==> (#[trigger] balls@[j]).r >= 0,
            forall|j: int| 0 <= j < i ==> !#[trigger] balls_touch(view[j].0, view[j].1, *c, r),
        decreases balls@.len() - i,
    {
        let b = &balls[i];
        let reach: i64 = b.r as i64 + r as i64;
        assert(0 <= reach <= 0x1_0000_0000);
        assert(reach * reach <= 0x1_0000_0000 * 0x1_0000_0000) by (nonlinear_arith)
            requires
                0 <= reach <= 0x1_0000_0000,
        ;
        let reach_sq: u128 = (reach as u128) * (reach as u128);
        assert(view[i as int] == (b.pos, b.r));
        assert(reach_sq == sq(b.r + r));
        if SquaredEuclidean.distance(&b.pos, c) <= reach_sq {
            assert(balls_touch(view[i as int].0, view[i as int].1, *c, r));
            return true;
        }
        i = i + 1;
    }
    false
}

fn boxes_collide<const N: usize>(boxes: &Vec<Aabb<N>>, c: &Vector<N>, r: i32) -> (hit: bool)
    requires
        r >= 0,
    ensures
        hit == any_box_touches(boxes@.map_values(|b: Aabb<N>| (b.los, b.his)), *c, r),
{
    let ghost view = boxes@.map_values(|b: Aabb<N>| (b.los, b.his));
    let mut i: usize = 0;
    while i < boxes.len()
        invariant
            i <= boxes@.len(),
            r >= 0,
            view == boxes@.map_values(|b: Aabb<N>| (b.los, b.his)),
            forall|j: int| 0 <= j < i ==> !#[trigger] box_touches(view[j].0, view[j].1, *c, r),
        decreases boxes@.len() - i,
    {
        let b = &boxes[i];
        assert(r * r <= 0x8000_0000 * 0x8000_0000) by (nonlinear_arith)
            requires
                0 <= r < 0x8000_0000,
        ;
        let r_sq: u128 = (r as u128) * (r as u128);
        assert(view[i as int] == (b.los, b.his));
        assert(r_sq == sq(r as int));
        if SquaredEuclidean.distance_to_aabb(c, &b.los, &b.his) <= r_sq {
            assert(box_touches(view[i as int].0, view[i as int].1, *c, r));
            return true;
        }
        i = i + 1;
    }
    false
}

/// A two-dimensional world of balls and axis-aligned boxes.
pub struct World2d {
    aabbs: Vec<Aabb<2>>,
    balls: Vec<Ball<2>>,
}

impl World2d {
    /// The balls, as center and radius.
    pub closed spec fn spec_balls(self) -> Seq<(Vector<2>, i32)> {
        self.balls@.map_values(|b: Ball<2>| (b.pos, b.r))
    }

    /// The boxes, as lowest and highest corner.
    pub closed spec fn spec_aabbs(self) -> Seq<(Vector<2>, Vector<2>)> {
        self.aabbs@.map_values(|b: Aabb<2>| (b.los, b.his))
    }

    /// Every ball has a non-negative radius.
    pub closed spec fn wf(self) -> bool {
        forall|i: int| 0 <= i < self.balls@.len() ==> (#[trigger] self.balls@[i]).r >= 0
    }

    /// Create a new empty world.
    pub fn new() -> (r: Self)
        ensures
            r.wf(),
            r.spec_balls() == Seq::<(Vector<2>, i32)>::empty(),
            r.spec_aabbs() == Seq::<(Vector<2>, Vector<2>)>::empty(),
    {
        let r = World2d { aabbs: Vec::new(), balls: Vec::new() };
        assert(r.spec_balls() =~= Seq::<(Vector<2>, i32)>::empty());
        assert(r.spec_aabbs() =~= Seq::<(Vector<2>, Vector<2>)>::empty());
        r
    }

    /// Whether the ball centered at `(x, y)` with radius `r` touches anything in the world.
    pub fn collides_ball(&self, x: i32, y: i32, r: i32) -> (hit: bool)
        requires
            self.wf(),
            r >= 0,
        ensures
            hit == (any_box_touches(self.spec_aabbs(), Vector { coords: [x, y] }, r)
                || any_ball_touches(self.spec_balls(), Vector { coords: [x, y] }, r)),
    {
        let c = Vector::new([x, y]);
        boxes_collide(&self.aabbs, &c, r) || balls_collide(&self.balls, &c, r)
    }

    /// Whether the point `(x, y)` lies inside anything in the world.
    pub fn collides_point(&self, x: i32, y: i32) -> (hit: bool)
        requires
            self.wf(),
        ensures
            hit == (any_box_touches(self.spec_aabbs(), Vector { coords: [x, y] }, 0)
                || any_ball_touches(self.spec_balls(), Vector { coords: [x, y] }, 0)),
    {
        self.collides_ball(x, y, 0)
    }

    /// Add a ball centered at `(x, y)` with radius `r`.
    pub fn add_ball(&mut self, x: i32, y: i32, r: i32)
        requires
            old(self).wf(),
            r >= 0,
        ensures
            final(self).wf(),
            final(self).spec_balls() == old(self).spec_balls().push((Vector { coords: [x, y] }, r)),
            final(self).spec_aabbs() == old(self).spec_aabbs(),
    {
        self.balls.push(Ball { pos: Vector::new([x, y]), r });
        assert(self.spec_balls() =~= old(self).spec_balls().push((Vector { coords: [x, y] }, r)));
    }

    /// Add the box spanning `(xl, yl)` to `(xh, yh)`.
    pub fn add_aabb(&mut self, xl: i32, yl: i32, xh: i32, yh: i32)
        requires
            old(self).wf(),
            xl <= xh,
            yl <= yh,
        ensures
            final(self).wf(),
            final(self).spec_aabbs() == old(self).spec_aabbs().push(
                (Vector { coords: [xl, yl] }, Vector { coords: [xh, yh] }),
            ),
            final(self).spec_balls() == old(self).spec_balls(),
    {
        self.aabbs.push(Aabb { los: Vector::new([xl, yl]), his: Vector::new([xh, yh]) });
        assert(self.spec_aabbs() =~= old(self).spec_aabbs().push(
            (Vector { coords: [xl, yl] }, Vector { coords: [xh, yh] }),
        ));
    }

    /// The number of balls in the world.
    pub fn num_balls(&self) -> (n: usize)
        ensures
            n == self.spec_balls().len(),
    {
        self.balls.len()
    }

    /// The center and radius of ball `i`.
    pub fn ball(&self, i: usize) -> (b: (i32, i32, i32))
        requires
            i < self.spec_balls().len(),
        ensures
            b.0 == self.spec_balls()[i as int].0.coords@[0],
            b.1 == self.spec_balls()[i as int].0.coords@[1],
            b.2 == self.spec_balls()[i as int].1,
    {
        let ball = &self.balls[i];
        (ball.pos.coords[0], ball.pos.coords[1], ball.r)
    }

    /// The number of boxes in the world.
    pub fn num_aabbs(&self) -> (n: usize)
        ensures
            n == self.spec_aabbs().len(),
    {
        self.aabbs.len()
    }

    /// The lowest and highest corner of box `i`, as `(xl, yl, xh, yh)`.
    pub fn aabb(&self, i: usize) -> (b: (i32, i32, i32, i32))
        requires
            i < self.spec_aabbs().len(),
        ensures
            b.0 == self.spec_aabbs()[i as int].0.coords@[0],
            b.1 == self.spec_aabbs()[i as int].0.coords@[1],
            b.2 == self.spec_aabbs()[i as int].1.coords@[0],
            b.3 == self.spec_aabbs()[i as int].1.coords@[1],
    {
        let b = &self.aabbs[i];
        (b.los.coords[0], b.los.coords[1], b.his.coords[0], b.his.coords[1])
    }
}

impl Default for World2d {
    fn default() -> (r: Self)
        ensures
            r.wf(),
            r.spec_balls() == Seq::<(Vector<2>, i32)>::empty(),
            r.spec_aabbs() == Seq::<(Vector<2>, Vector<2>)>::empty(),
    {
        Self::new()
    }
}

impl Default for World3d {
    fn default() -> (r: Self)
        ensures
            r.wf(),
            r.spec_balls() == Seq::<(Vector<3>, i32)>::empty(),
            r.spec_aabbs() == Seq::<(Vector<3>, Vector<3>)>::empty(),
    {
        Self::new()
    }
}

/// A three-dimensional world of balls and axis-aligned boxes.
pub struct World3d {
    balls: Vec<Ball<3>>,
    aabbs: Vec<Aabb<3>>,
}

impl World3d {
    /// The balls, as center and radius.
    pub closed spec fn spec_balls(self) -> Seq<(Vector<3>, i32)> {
        self.balls@.map_values(|b: Ball<3>| (b.pos, b.r))
    }

    /// The boxes, as lowest and highest corner.
    pub closed spec fn spec_aabbs(self) -> Seq<(Vector<3>, Vector<3>)> {
        self.aabbs@.map_values(|b: Aabb<3>| (b.los, b.his))
    }

    /// Every ball has a non-negative radius.
    pub closed spec fn wf(self) -> bool {
        forall|i: int| 0 <= i < self.balls@.len() ==> (#[trigger] self.balls@[i]).r >= 0
    }

    /// Create a new empty world.
    pub fn new() -> (r: Self)
        ensures
            r.wf(),
            r.spec_balls() == Seq::<(Vector<3>, i32)>::empty(),
            r.spec_aabbs() == Seq::<(Vector<3>, Vector<3>)>::empty(),
    {
        let r = World3d { balls: Vec::new(), aabbs: Vec::new() };
        assert(r.spec_balls() =~= Seq::<(Vector<3>, i32)>::empty());
        assert(r.spec_aabbs() =~= Seq::<(Vector<3>, Vector<3>)>::empty());
        r
    }

    /// Add a ball centered at `(x, y, z)` with radius `r`.
    pub fn add_ball(&mut self, x: i32, y: i32, z: i32, r: i32)
        requires
            old(self).wf(),
            r >= 0,
        ensures
            final(self).wf(),
            final(self).spec_balls() == old(self).spec_balls().push((Vector { coords: [x, y, z] }, r)),
            final(self).spec_aabbs() == old(self).spec_aabbs(),
    {
        self.balls.push(Ball { pos: Vector::new([x, y, z]), r });
        assert(self.spec_balls() =~= old(self).spec_balls().push((Vector { coords: [x, y, z] }, r)));
    }

    /// Add the box spanning `(xl, yl, zl)` to `(xh, yh, zh)`.
    pub fn add_aabb(&mut self, xl: i32, yl: i32, zl: i32, xh: i32, yh: i32, zh: i32)
        requires
            old(self).wf(),
            xl <= xh,
            yl <= yh,
            zl <= zh,
        ensures
            final(self).wf(),
            final(self).spec_aabbs() == old(self).spec_aabbs().push(
                (Vector { coords: [xl, yl, zl] }, Vector { coords: [xh, yh, zh] }),
            ),
            final(self).spec_balls() == old(self).spec_balls(),
    {
        self.aabbs.push(Aabb { los: Vector::new([xl, yl, zl]), his: Vector::new([xh, yh, zh]) });
        assert(self.spec_aabbs() =~= old(self).spec_aabbs().push(
            (Vector { coords: [xl, yl, zl] }, Vector { coords: [xh, yh, zh] }),
        ));
    }

    /// Whether the ball centered at `(x, y, z)` with radius `r` touches anything in the world.
    pub fn collides_ball(&self, x: i32, y: i32, z: i32, r: i32) -> (hit: bool)
        requires
            self.wf(),
            r >= 0,
        ensures
            hit == (any_ball_touches(self.spec_balls(), Vector { coords: [x, y, z] }, r)
                || any_box_touches(self.spec_aabbs(), Vector { coords: [x, y, z] }, r)),
    {
        let c = Vector::new([x, y, z]);
        balls_collide(&self.balls, &c, r) || boxes_collide(&self.aabbs, &c, r)
    }
}

} // verus!
