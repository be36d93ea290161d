//! The simulation: an ordered population of bodies in a fixed arena. Each
//! frame resolves every unordered pair of bodies exactly once against the
//! frame's settled positions, then advances every body with wall bouncing,
//! and can rasterize the whole population into a framebuffer.

use vstd::prelude::*;
use crate::body::Ball;
use crate::body::BallModel;
use crate::body::MAX_COORD;
use crate::body::MAX_VEL;
use crate::body::spec_resolve;
use crate::draw::covers;
use crate::draw::pixel_index;
use crate::rng::fresh_rng;
use crate::rng::rng_range;

verus! {

/// The mathematical model of the simulation: the arena dimensions and the
/// models of the bodies, in population order.
pub ghost struct SimModel {
    pub width: int,
    pub height: int,
    pub balls: Seq<BallModel>,
}

/// The models of a sequence of bodies, in order.
pub open spec fn balls_view(s: Seq<Ball>) -> Seq<BallModel> {
    s.map(|_k: int, b: Ball| b@)
}

/// A body on which one whole simulation step is certified free of overflow:
/// well formed, velocity at most `MAX_VEL` per axis, and position far enough
/// from the coordinate bound to absorb any such velocity — also one received
/// from another body in the collision pass.
pub open spec fn step_ready(b: BallModel) -> bool {
    &&& b.wf()
    &&& -MAX_VEL <= b.dx <= MAX_VEL
    &&& -MAX_VEL <= b.dy <= MAX_VEL
    &&& -MAX_COORD + MAX_VEL <= b.x <= MAX_COORD - MAX_VEL
    &&& -MAX_COORD + MAX_VEL <= b.y <= MAX_COORD - MAX_VEL
}

/// What construction promises of each freshly drawn body, in an arena of the
/// given width and height.
pub open spec fn fresh_ball(b: BallModel, width: int, height: int) -> bool {
    &&& 50 <= b.x < width - 50
    &&& 50 <= b.y < height - 50
    &&& -3 <= b.dx < 3
    &&& -3 <= b.dy < 3
    &&& b.radius == 20
    &&& b.color == 0xFFFFFF
}

impl SimModel {
    /// Positive arena dimensions, small enough for the overflow-free bounds.
    pub open spec fn arena_wf(self) -> bool {
        0 < self.width <= MAX_COORD && 0 < self.height <= MAX_COORD
    }

    /// The arena is well formed and so is every body.
    pub open spec fn wf(self) -> bool {
        self.arena_wf() && forall|i: int|
            0 <= i < self.balls.len() ==> (#[trigger] self.balls[i]).wf()
    }

    /// The arena is well formed and every body can take one whole frame
    /// without any arithmetic leaving the certified coordinate range.
    pub open spec fn step_ready(self) -> bool {
        self.arena_wf() && forall|i: int|
            0 <= i < self.balls.len() ==> step_ready(#[trigger] self.balls[i])
    }
}

/// The population after resolving the collision of the pair at `(i, j)`.
pub open spec fn resolve_pair_at(s: Seq<BallModel>, i: int, j: int) -> Seq<BallModel> {
    let p = spec_resolve(s[i], s[j]);
    s.update(i, p.0).update(j, p.1)
}

/// The population after resolving the pairs `(i, j), (i, j+1), ..., (i, n-1)`,
/// in that order.
pub open spec fn resolve_row(s: Seq<BallModel>, i: int, j: int, n: int) -> Seq<BallModel>
    decreases n - j,
{
    if j >= n {
        s
    } else {
        resolve_row(resolve_pair_at(s, i, j), i, j + 1, n)
    }
}

/// The population after resolving rows `i, i+1, ..., n-1`, where row `i`
/// resolves body `i` against every body after it, in index order.
pub open spec fn resolve_rows(s: Seq<BallModel>, i: int, n: int) -> Seq<BallModel>
    decreases n - i,
{
    if i >= n {
        s
    } else {
        resolve_rows(resolve_row(s, i, i + 1, n), i + 1, n)
    }
}

/// One frame's collision pass: every unordered pair of bodies is resolved
/// exactly once, in the fixed row-by-row order, against the frame's settled
/// positions — positions only change after the whole pass, so detection never
/// sees a partially moved frame. The set of resolved pairs is all unordered
/// pairs, whatever the population order; the velocity outcome of chained
/// collisions does depend on this fixed order.
pub open spec fn spec_resolve_all(s: Seq<BallModel>) -> Seq<BallModel> {
    resolve_rows(s, 0, s.len() as int)
}

/// One whole frame: the collision pass, then one movement step per body.
pub open spec fn spec_frame(m: SimModel) -> Seq<BallModel> {
    spec_resolve_all(m.balls).map(|_k: int, b: BallModel| b.stepped(m.width, m.height))
}

/// The color of pixel `(px, py)` after drawing the given bodies in order over
/// a base value: the last covering body wins, with no blending.
pub open spec fn rendered_pixel(balls: Seq<BallModel>, px: int, py: int, base: u32) -> u32
    decreases balls.len(),
{
    if balls.len() == 0 {
        base
    } else if covers(balls.last(), px, py) {
        balls.last().color as u32
    } else {
        rendered_pixel(balls.drop_last(), px, py, base)
    }
}

/// True when the two body states agree on everything but velocity.
pub open spec fn same_placement(a: BallModel, b: BallModel) -> bool {
    a.x == b.x && a.y == b.y && a.radius == b.radius && a.color == b.color
}

proof fn lemma_resolve_row_preserves_placement(s: Seq<BallModel>, i: int, j: int, n: int)
    requires
        0 <= i < n,
        0 <= j,
        n <= s.len(),
    ensures
        resolve_row(s, i, j, n).len() == s.len(),
        forall|k: int|
            0 <= k < s.len() ==> same_placement(#[trigger] resolve_row(s, i, j, n)[k], s[k]),
    decreases n - j,
{
    if j < n {
        let s1 = resolve_pair_at(s, i, j);
        assert(s1.len() == s.len());
        assert forall|k: int| 0 <= k < s.len() implies same_placement(
            #[trigger] s1[k],
            s[k],
        ) by {
            if k != i && k != j {
                assert(s1[k] == s[k]);
            }
        }
        lemma_resolve_row_preserves_placement(s1, i, j + 1, n);
        assert(resolve_row(s, i, j, n) == resolve_row(s1, i, j + 1, n));
    }
}

proof fn lemma_resolve_rows_preserves_placement(s: Seq<BallModel>, i: int, n: int)
    requires
        0 <= i,
        n <= s.len(),
    ensures
        resolve_rows(s, i, n).len() == s.len(),
        forall|k: int|
            0 <= k < s.len() ==> same_placement(#[trigger] resolve_rows(s, i, n)[k], s[k]),
    decreases n - i,
{
    if i < n {
        let s1 = resolve_row(s, i, i + 1, n);
        lemma_resolve_row_preserves_placement(s, i, i + 1, n);
        lemma_resolve_rows_preserves_placement(s1, i + 1, n);
        assert(resolve_rows(s, i, n) == resolve_rows(s1, i + 1, n));
    }
}

/// Law: the collision pass is a pure velocity exchange over the population —
/// every body keeps its position, radius and color through the whole pass, so
/// detection always works on the frame's settled positions and movement
/// happens only afterwards.
pub proof fn lemma_collision_pass_preserves_placement(s: Seq<BallModel>)
    ensures
        spec_resolve_all(s).len() == s.len(),
        forall|k: int|
            0 <= k < s.len() ==> same_placement(#[trigger] spec_resolve_all(s)[k], s[k]),
{
    lemma_resolve_rows_preserves_placement(s, 0, s.len() as int);
}

/// Taking the view of a sequence of bodies commutes with updating one body.
pub proof fn lemma_balls_view_update(s: Seq<Ball>, i: int, b: Ball)
    requires
        0 <= i < s.len(),
    ensures
        balls_view(s.update(i, b)) == balls_view(s).update(i, b@),
{
    assert(balls_view(s.update(i, b)) =~= balls_view(s).update(i, b@));
}

/// Taking the view of a sequence of bodies commutes with appending one body.
pub proof fn lemma_balls_view_push(s: Seq<Ball>, b: Ball)
    ensures
        balls_view(s.push(b)) == balls_view(s).push(b@),
{
    assert(balls_view(s.push(b)) =~= balls_view(s).push(b@));
}

/// The simulation: the bodies in population order, and the arena dimensions,
/// fixed for the simulation's lifetime.
pub struct BallSimulation {
    pub balls: Vec<Ball>,
    pub width: i64,
    pub height: i64,
}

impl View for BallSimulation {
    type V = SimModel;

    open spec fn view(&self) -> SimModel {
        SimModel {
            width: self.width as int,
            height: self.height as int,
            balls: balls_view(self.balls@),
        }
    }
}

impl BallSimulation {
    /// Builds a population of `num_balls` bodies with randomized positions and
    /// velocities: x uniform in `[50, width - 50)`, y uniform in
    /// `[50, height - 50)`, each velocity component uniform in `[-3, 3)` (so a
    /// component may be zero), radius fixed at 20 and color fixed at pure
    /// white — the color range collapses to the single value `0xFFFFFF`.
    pub fn new(num_balls: usize, width: i64, height: i64) -> (sim: BallSimulation)
        requires
            100 < width <= MAX_COORD,
            100 < height <= MAX_COORD,
        ensures
            sim@.width == width as int,
            sim@.height == height as int,
            sim@.balls.len() == num_balls,
            forall|i: int|
                0 <= i < num_balls ==> fresh_ball(
                    #[trigger] sim@.balls[i],
                    width as int,
                    height as int,
                ),
            sim@.wf(),
    {
        let mut rng = fresh_rng();
        let mut balls: Vec<Ball> = Vec::new();
        let mut k: usize = 0;
        while k < num_balls
            invariant
                100 < width <= MAX_COORD,
                100 < height <= MAX_COORD,
                balls@.len() == k,
                k <= num_balls,
                forall|i: int|
                    0 <= i < k ==> fresh_ball(
                        #[trigger] balls_view(balls@)[i],
                        width as int,
                        height as int,
                    ),
            decreases num_balls - k,
        {
            let x = rng_range(&mut rng, 50, width - 50);
            let y = rng_range(&mut rng, 50, height - 50);
            let dx = rng_range(&mut rng, -3, 3);
            let dy = rng_range(&mut rng, -3, 3);
            let c = rng_range(&mut rng, 0xFF_FFFF, 0x100_0000);
            let ball = Ball::new(x, y, dx, dy, 20, c as u32);
            proof {
                lemma_balls_view_push(balls@, ball);
            }
            balls.push(ball);
            k = k + 1;
        }
        let sim = BallSimulation { balls, width, height };
        proof {
            assert forall|i: int| 0 <= i < sim@.balls.len() implies (
            #[trigger] sim@.balls[i]).wf() by {
                assert(fresh_ball(sim@.balls[i], width as int, height as int));
            }
        }
        sim
    }

    /// True exactly when this frame is certified to run without overflow:
    /// the arena is well formed and every body is `step_ready`.
    pub fn can_step(&self) -> (r: bool)
        ensures
            r == self@.step_ready(),
    {
        if !(0 < self.width && self.width <= MAX_COORD && 0 < self.height && self.height
            <= MAX_COORD) {
            return false;
        }
        let n = self.balls.len();
        let mut k: usize = 0;
        while k < n
            invariant
                n == self.balls@.len(),
                k <= n,
                self@.arena_wf(),
                forall|m: int| 0 <= m < k ==> step_ready(#[trigger] self@.balls[m]),
            decreases n - k,
        {
            let b = self.balls[k];
            let ok = 0 < b.radius && b.radius <= MAX_COORD && -MAX_VEL <= b.dx && b.dx <= MAX_VEL
                && -MAX_VEL <= b.dy && b.dy <= MAX_VEL && -MAX_COORD + MAX_VEL <= b.x && b.x
                <= MAX_COORD - MAX_VEL && -MAX_COORD + MAX_VEL <= b.y && b.y <= MAX_COORD
                - MAX_VEL;
            if !ok {
                assert(!step_ready(self@.balls[k as int]));
                return false;
            }
            assert(step_ready(self@.balls[k as int]));
            k = k + 1;
        }
        true
    }

    /// True exactly when the arena and every body are well formed.
    pub fn is_well_formed(&self) -> (r: bool)
        ensures
            r == self@.wf(),
    {
        if !(0 < self.width && self.width <= MAX_COORD && 0 < self.height && self.height
            <= MAX_COORD) {
            return false;
        }
        let n = self.balls.len();
        let mut k: usize = 0;
        while k < n
            invariant
                n == self.balls@.len(),
                k <= n,
                self@.arena_wf(),
                forall|m: int| 0 <= m < k ==> (#[trigger] self@.balls[m]).wf(),
            decreases n - k,
        {
            let b = self.balls[k];
            let ok = 0 < b.radius && b.radius <= MAX_COORD && -MAX_COORD <= b.x && b.x <= MAX_COORD
                && -MAX_COORD <= b.y && b.y <= MAX_COORD && -MAX_COORD <= b.dx && b.dx <= MAX_COORD
                && -MAX_COORD <= b.dy && b.dy <= MAX_COORD;
            if !ok {
                assert(!self@.balls[k as int].wf());
                return false;
            }
            assert(self@.balls[k as int].wf());
            k = k + 1;
        }
        true
    }

    /// Law: one frame resolves every unordered pair of bodies exactly once, in
    /// the fixed row-by-row order, against the pre-move positions, and only
    /// then advances every body by one movement step — the frame is exactly
    /// `spec_frame` of the previous state. The arena never changes.
    pub fn update(&mut self)
        requires
            old(self)@.step_ready(),
        ensures
            final(self)@.width == old(self)@.width,
            final(self)@.height == old(self)@.height,
            final(self)@.balls == spec_frame(old(self)@),
            final(self)@.wf(),
    {
        let ghost orig = self@.balls;
        let w0 = self.width;
        let h0 = self.height;
        let n = self.balls.len();

        let mut i: usize = 0;
        while i < n
            invariant
                self.balls@.len() == n,
                orig.len() == n as int,
                self.width == w0,
                self.height == h0,
                0 < w0 <= MAX_COORD,
                0 < h0 <= MAX_COORD,
                i <= n,
                forall|m: int| 0 <= m < n ==> step_ready(#[trigger] balls_view(self.balls@)[m]),
                resolve_rows(balls_view(self.balls@), i as int, n as int) == resolve_rows(
                    orig,
                    0,
                    n as int,
                ),
            decreases n - i,
        {
            let mut j: usize = i + 1;
            proof {
                assert(resolve_rows(balls_view(self.balls@), i as int, n as int) == resolve_rows(
                    resolve_row(balls_view(self.balls@), i as int, i as int + 1, n as int),
                    i as int + 1,
                    n as int,
                ));
            }
            while j < n
                invariant
                    self.balls@.len() == n,
                    orig.len() == n as int,
                    self.width == w0,
                    self.height == h0,
                    0 < w0 <= MAX_COORD,
                    0 < h0 <= MAX_COORD,
                    i < n,
                    i + 1 <= j <= n,
                    forall|m: int|
                        0 <= m < n ==> step_ready(#[trigger] balls_view(self.balls@)[m]),
                    resolve_rows(
                        resolve_row(balls_view(self.balls@), i as int, j as int, n as int),
                        i as int + 1,
                        n as int,
                    ) == resolve_rows(orig, 0, n as int),
                decreases n - j,
            {
                let ghost s0 = self.balls@;
                let ghost v = balls_view(s0);
                let mut a = self.balls[i];
                let mut b = self.balls[j];
                assert(a@ == v[i as int] && b@ == v[j as int]);
                a.resolve_collision(&mut b);
                self.balls.set(i, a);
                self.balls.set(j, b);
                proof {
                    lemma_balls_view_update(s0, i as int, a);
                    lemma_balls_view_update(s0.update(i as int, a), j as int, b);
                    assert(balls_view(self.balls@) == v.update(i as int, a@).update(j as int, b@));
                    assert(balls_view(self.balls@) == resolve_pair_at(v, i as int, j as int));
                    assert(resolve_row(v, i as int, j as int, n as int) == resolve_row(
                        resolve_pair_at(v, i as int, j as int),
                        i as int,
                        j as int + 1,
                        n as int,
                    ));
                    assert forall|m: int| 0 <= m < n implies step_ready(
                        #[trigger] balls_view(self.balls@)[m],
                    ) by {
                        if m != i as int && m != j as int {
                            assert(balls_view(self.balls@)[m] == v[m]);
                        }
                    }
                }
                j = j + 1;
            }
            proof {
                assert(resolve_row(balls_view(self.balls@), i as int, n as int, n as int)
                    == balls_view(self.balls@));
            }
            i = i + 1;
        }

        let ghost resolved = balls_view(self.balls@);
        proof {
            assert(resolve_rows(resolved, n as int, n as int) == resolved);
            assert(resolved == spec_resolve_all(orig));
        }

        let mut k: usize = 0;
        while k < n
            invariant
                self.balls@.len() == n,
                resolved.len() == n as int,
                self.width == w0,
                self.height == h0,
                0 < w0 <= MAX_COORD,
                0 < h0 <= MAX_COORD,
                k <= n,
                forall|m: int| k <= m < n ==> #[trigger] balls_view(self.balls@)[m] == resolved[m],
                forall|m: int| k <= m < n ==> step_ready(#[trigger] resolved[m]),
                forall|m: int|
                    0 <= m < k ==> #[trigger] balls_view(self.balls@)[m] == resolved[m].stepped(
                        w0 as int,
                        h0 as int,
                    ),
                forall|m: int| 0 <= m < k ==> (#[trigger] balls_view(self.balls@)[m]).wf(),
            decreases n - k,
        {
            let ghost s_pre = self.balls@;
            let mut ball = self.balls[k];
            assert(balls_view(self.balls@)[k as int] == self.balls@[k as int]@);
            assert(ball@ == resolved[k as int]);
            ball.update_position(w0, h0);
            self.balls.set(k, ball);
            proof {
                lemma_balls_view_update(s_pre, k as int, ball);
            }
            k = k + 1;
        }
        proof {
            assert(balls_view(self.balls@) =~= spec_frame(old(self)@));
        }
    }

    /// Draws every body, in population order, into the supplied framebuffer;
    /// the framebuffer is not cleared first — later bodies overwrite earlier
    /// ones at shared pixels.
    pub fn render(&self, buffer: &mut Vec<u32>)
        requires
            self@.wf(),
            old(buffer)@.len() == self@.width * self@.height,
        ensures
            final(buffer)@.len() == old(buffer)@.len(),
            forall|px: int, py: int|
                0 <= px < self@.width && 0 <= py < self@.height ==> final(buffer)@[
                #[trigger] pixel_index(px, py, self@.width)] == rendered_pixel(
                    self@.balls,
                    px,
                    py,
                    old(buffer)@[pixel_index(px, py, self@.width)],
                ),
    {
        let n = self.balls.len();
        let mut k: usize = 0;
        while k < n
            invariant
                self@.wf(),
                n == self.balls@.len(),
                k <= n,
                buffer@.len() == old(buffer)@.len(),
                old(buffer)@.len() == self@.width * self@.height,
                forall|px: int, py: int|
                    0 <= px < self@.width && 0 <= py < self@.height ==> buffer@[
                    #[trigger] pixel_index(px, py, self@.width)] == rendered_pixel(
                        self@.balls.take(k as int),
                        px,
                        py,
                        old(buffer)@[pixel_index(px, py, self@.width)],
                    ),
            decreases n - k,
        {
            let ghost pre = buffer@;
            let b = self.balls[k];
            assert(b@ == self@.balls[k as int]);
            b.draw(buffer, self.width, self.height);
            proof {
                let taken = self@.balls.take(k as int + 1);
                assert(taken.drop_last() =~= self@.balls.take(k as int));
                assert(taken.last() == self@.balls[k as int]);
                assert forall|px: int, py: int|
                    0 <= px < self@.width && 0 <= py < self@.height implies buffer@[
                #[trigger] pixel_index(px, py, self@.width)] == rendered_pixel(
                    taken,
                    px,
                    py,
                    old(buffer)@[pixel_index(px, py, self@.width)],
                ) by {
                    assert(buffer@[pixel_index(px, py, self@.width)] == (if covers(b@, px, py) {
                        b.color
                    } else {
                        pre[pixel_index(px, py, self@.width)]
                    }));
                }
            }
            k = k + 1;
        }
        proof {
            assert(self@.balls.take(n as int) =~= self@.balls);
        }
    }
}

} // verus!
