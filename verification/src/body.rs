//! A single circular body: position, velocity, radius and packed RGB color,
//! with wall-bounce movement, collision test and collision response.

use vstd::prelude::*;

verus! {

/// Largest magnitude allowed for a coordinate or a radius. Keeping every
/// coordinate and radius within this bound guarantees that the squared
/// distances and squared radius sums computed by the collision test fit
/// in an `i64`.
pub const MAX_COORD: i64 = 1_000_000_000;

/// Largest velocity magnitude for which a whole simulation step is certified
/// free of overflow (see `step_ready` in the simulation module).
pub const MAX_VEL: i64 = 1_000_000;

/// A circular body. `radius > 0` is the intended invariant; construction sets
/// the fields verbatim and the methods state well-formedness in `requires`.
#[derive(Clone, Copy, PartialEq, Eq, Structural, Debug)]
pub struct Ball {
    pub x: i64,
    pub y: i64,
    pub dx: i64,
    pub dy: i64,
    pub radius: i64,
    pub color: u32,
}

/// The mathematical model of a `Ball`: the same fields over unbounded integers.
pub ghost struct BallModel {
    pub x: int,
    pub y: int,
    pub dx: int,
    pub dy: int,
    pub radius: int,
    pub color: int,
}

impl View for Ball {
    type V = BallModel;

    open spec fn view(&self) -> BallModel {
        BallModel {
            x: self.x as int,
            y: self.y as int,
            dx: self.dx as int,
            dy: self.dy as int,
            radius: self.radius as int,
            color: self.color as int,
        }
    }
}

/// True when a silhouette of the given radius centered at `pos` crosses the
/// axis interval `[0, limit]`: the wall-bounce condition on one axis.
pub open spec fn crosses(pos: int, radius: int, limit: int) -> bool {
    pos - radius < 0 || pos + radius > limit
}

impl BallModel {
    /// Well-formedness: a positive radius, and every field small enough that
    /// the collision arithmetic cannot overflow an `i64`.
    pub open spec fn wf(self) -> bool {
        &&& 0 < self.radius <= MAX_COORD
        &&& -MAX_COORD <= self.x <= MAX_COORD
        &&& -MAX_COORD <= self.y <= MAX_COORD
        &&& -MAX_COORD <= self.dx <= MAX_COORD
        &&& -MAX_COORD <= self.dy <= MAX_COORD
        &&& 0 <= self.color < 0x1_0000_0000
    }

    /// One movement step in an arena of the given width and height: the
    /// velocity is added to the position, then each velocity component whose
    /// post-move silhouette crosses its axis bounds is negated. The position
    /// is never clamped, so a body may sit slightly past a wall for a step.
    pub open spec fn stepped(self, width: int, height: int) -> BallModel {
        BallModel {
            x: self.x + self.dx,
            y: self.y + self.dy,
            dx: if crosses(self.x + self.dx, self.radius, width) {
                -self.dx
            } else {
                self.dx
            },
            dy: if crosses(self.y + self.dy, self.radius, height) {
                -self.dy
            } else {
                self.dy
            },
            radius: self.radius,
            color: self.color,
        }
    }
}

/// True when the squared center-to-center distance of the two bodies is at
/// most the squared sum of their radii: touching counts as colliding.
pub open spec fn spec_collides(a: BallModel, b: BallModel) -> bool {
    (a.x - b.x) * (a.x - b.x) + (a.y - b.y) * (a.y - b.y)
        <= (a.radius + b.radius) * (a.radius + b.radius)
}

/// Collision response for one pair: if the bodies collide, their whole
/// velocity vectors are exchanged; otherwise both are left unchanged.
/// Positions, radii and colors are never touched.
pub open spec fn spec_resolve(a: BallModel, b: BallModel) -> (BallModel, BallModel) {
    if spec_collides(a, b) {
        (
            BallModel { x: a.x, y: a.y, dx: b.dx, dy: b.dy, radius: a.radius, color: a.color },
            BallModel { x: b.x, y: b.y, dx: a.dx, dy: a.dy, radius: b.radius, color: b.color },
        )
    } else {
        (a, b)
    }
}

impl Ball {
    /// Builds a body with the given fields, verbatim; keeping `radius > 0`
    /// and the coordinates in a sane range is the caller's responsibility.
    pub fn new(x: i64, y: i64, dx: i64, dy: i64, radius: i64, color: u32) -> (b: Ball)
        ensures
            b@ == (BallModel {
                x: x as int,
                y: y as int,
                dx: dx as int,
                dy: dy as int,
                radius: radius as int,
                color: color as int,
            }),
    {
        Ball { x, y, dx, dy, radius, color }
    }

    /// Adds the velocity to the position, then flips each velocity component
    /// whose post-move silhouette has crossed the arena bounds on its axis.
    pub fn update_position(&mut self, width: i64, height: i64)
        requires
            old(self)@.wf(),
            0 < width <= MAX_COORD,
            0 < height <= MAX_COORD,
            -MAX_COORD <= old(self)@.x + old(self)@.dx <= MAX_COORD,
            -MAX_COORD <= old(self)@.y + old(self)@.dy <= MAX_COORD,
        ensures
            final(self)@ == old(self)@.stepped(width as int, height as int),
            final(self)@.wf(),
    {
        self.x = self.x + self.dx;
        self.y = self.y + self.dy;

        if self.x - self.radius < 0 || self.x + self.radius > width {
            self.dx = -self.dx;
        }
        if self.y - self.radius < 0 || self.y + self.radius > height {
            self.dy = -self.dy;
        }
    }

    /// True iff the squared center-to-center distance is at most the squared
    /// sum of the radii, so that bodies exactly `radius_sum` apart collide.
    pub fn collides_with(&self, other: &Ball) -> (r: bool)
        requires
            self@.wf(),
            other@.wf(),
        ensures
            r == spec_collides(self@, other@),
    {
        let dx = self.x - other.x;
        let dy = self.y - other.y;
        proof {
            lemma_square_in_range(dx as int, 2 * MAX_COORD as int);
            lemma_square_in_range(dy as int, 2 * MAX_COORD as int);
            lemma_square_in_range(self@.radius + other@.radius, 2 * MAX_COORD as int);
        }
        let distance_squared = dx * dx + dy * dy;
        let radius_sum = self.radius + other.radius;
        distance_squared <= radius_sum * radius_sum
    }

    /// If the two bodies collide, exchanges their velocity vectors; otherwise
    /// leaves both unchanged. Positions are untouched either way, so testing
    /// the same pair again within one pass sees the same collision outcome.
    pub fn resolve_collision(&mut self, other: &mut Ball)
        requires
            old(self)@.wf(),
            old(other)@.wf(),
        ensures
            (final(self)@, final(other)@) == spec_resolve(old(self)@, old(other)@),
            spec_collides(old(self)@, old(other)@) ==> final(self)@.dx == old(other)@.dx
                && final(self)@.dy == old(other)@.dy
                && final(other)@.dx == old(self)@.dx
                && final(other)@.dy == old(self)@.dy,
            !spec_collides(old(self)@, old(other)@) ==> final(self)@ == old(self)@
                && final(other)@ == old(other)@,
            final(self)@.x == old(self)@.x && final(self)@.y == old(self)@.y,
            final(other)@.x == old(other)@.x && final(other)@.y == old(other)@.y,
            final(self)@.radius == old(self)@.radius && final(self)@.color == old(self)@.color,
            final(other)@.radius == old(other)@.radius && final(other)@.color == old(other)@.color,
            final(self)@.wf(),
            final(other)@.wf(),
    {
        if self.collides_with(other) {
            let tmp_dx = self.dx;
            let tmp_dy = self.dy;
            self.dx = other.dx;
            self.dy = other.dy;
            other.dx = tmp_dx;
            other.dy = tmp_dy;
        }
    }
}

/// A square of a value bounded by `bound` is nonnegative and at most
/// `bound * bound`.
pub proof fn lemma_square_in_range(d: int, bound: int) by (nonlinear_arith)
    requires
        -bound <= d <= bound,
    ensures
        0 <= d * d <= bound * bound,
{
}

/// A value whose square is at most `r * r`, for `r >= 0`, lies in `[-r, r]`.
pub proof fn lemma_square_root_bound(d: int, r: int) by (nonlinear_arith)
    requires
        d * d <= r * r,
        0 <= r,
    ensures
        -r <= d <= r,
{
}

/// Law: the collision test is symmetric in its two bodies.
pub proof fn lemma_collides_symmetric(a: BallModel, b: BallModel)
    ensures
        spec_collides(a, b) == spec_collides(b, a),
{
    assert((a.x - b.x) * (a.x - b.x) == (b.x - a.x) * (b.x - a.x)) by (nonlinear_arith);
    assert((a.y - b.y) * (a.y - b.y) == (b.y - a.y) * (b.y - a.y)) by (nonlinear_arith);
}

/// Law: two bodies whose squared distance equals the squared sum of their
/// radii — exactly `radius_sum` apart — are reported as colliding: the
/// collision boundary is inclusive.
pub proof fn lemma_touching_is_colliding(a: BallModel, b: BallModel)
    requires
        (a.x - b.x) * (a.x - b.x) + (a.y - b.y) * (a.y - b.y)
            == (a.radius + b.radius) * (a.radius + b.radius),
    ensures
        spec_collides(a, b),
{
}

/// Law: one movement step adds the velocity to the position exactly once; a
/// velocity component is negated exactly when the post-move silhouette has
/// crossed the arena bounds on its axis, and a body whose post-move silhouette
/// lies strictly inside the arena keeps its velocity unchanged.
pub proof fn lemma_wall_bounce(b: BallModel, width: int, height: int)
    ensures
        b.stepped(width, height).x == b.x + b.dx,
        b.stepped(width, height).y == b.y + b.dy,
        crosses(b.x + b.dx, b.radius, width) ==> b.stepped(width, height).dx == -b.dx,
        !crosses(b.x + b.dx, b.radius, width) ==> b.stepped(width, height).dx == b.dx,
        crosses(b.y + b.dy, b.radius, height) ==> b.stepped(width, height).dy == -b.dy,
        !crosses(b.y + b.dy, b.radius, height) ==> b.stepped(width, height).dy == b.dy,
        b.stepped(width, height).radius == b.radius,
        b.stepped(width, height).color == b.color,
{
}

/// The body after `n` movement steps in an arena of the given dimensions.
pub open spec fn stepped_n(b: BallModel, width: int, height: int, n: nat) -> BallModel
    decreases n,
{
    if n == 0 {
        b
    } else {
        stepped_n(b, width, height, (n - 1) as nat).stepped(width, height)
    }
}

/// Law: uniform motion. If none of the first `n` post-move positions crosses
/// the arena bounds on either axis, then after `n` movement steps the position
/// has changed by exactly `n` times the velocity and the velocity, radius and
/// color are unchanged.
pub proof fn lemma_uniform_motion(b: BallModel, width: int, height: int, n: nat)
    requires
        forall|k: nat|
            1 <= k <= n ==> !crosses(
                #[trigger] stepped_n(b, width, height, k).x,
                b.radius,
                width,
            ),
        forall|k: nat|
            1 <= k <= n ==> !crosses(
                #[trigger] stepped_n(b, width, height, k).y,
                b.radius,
                height,
            ),
    ensures
        stepped_n(b, width, height, n).x == b.x + n * b.dx,
        stepped_n(b, width, height, n).y == b.y + n * b.dy,
        stepped_n(b, width, height, n).dx == b.dx,
        stepped_n(b, width, height, n).dy == b.dy,
        stepped_n(b, width, height, n).radius == b.radius,
        stepped_n(b, width, height, n).color == b.color,
    decreases n,
{
    if n == 0 {
        assert(n * b.dx == 0);
        assert(n * b.dy == 0);
    } else {
        let m = (n - 1) as nat;
        lemma_uniform_motion(b, width, height, m);
        let prev = stepped_n(b, width, height, m);
        assert(n * b.dx == m * b.dx + b.dx) by (nonlinear_arith)
            requires
                m == n - 1,
                n >= 1,
        ;
        assert(n * b.dy == m * b.dy + b.dy) by (nonlinear_arith)
            requires
                m == n - 1,
                n >= 1,
        ;
        assert(stepped_n(b, width, height, n) == prev.stepped(width, height));
    }
}

} // verus!
