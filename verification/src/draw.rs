//! Rasterization of a body as a filled disk into a row-major framebuffer.

use vstd::prelude::*;
use crate::body::Ball;
use crate::body::BallModel;
use crate::body::MAX_COORD;
use crate::body::lemma_square_in_range;
use crate::body::lemma_square_root_bound;

verus! {

/// Index of pixel `(px, py)` in a row-major framebuffer of the given width.
pub open spec fn pixel_index(px: int, py: int, width: int) -> int {
    py * width + px
}

/// True when pixel `(px, py)` belongs to the filled disk of the body: its
/// squared distance from the center is at most the squared radius.
pub open spec fn covers(b: BallModel, px: int, py: int) -> bool {
    (px - b.x) * (px - b.x) + (py - b.y) * (py - b.y) <= b.radius * b.radius
}

/// Within one row-major framebuffer, distinct pixels with in-range horizontal
/// coordinates have distinct indices.
pub proof fn lemma_pixel_index_injective(px1: int, py1: int, px2: int, py2: int, width: int)
    requires
        0 <= px1 < width,
        0 <= px2 < width,
        pixel_index(px1, py1, width) == pixel_index(px2, py2, width),
    ensures
        px1 == px2 && py1 == py2,
{
    assert(py1 * width + px1 == py2 * width + px2);
    assert(py1 == py2 && px1 == px2) by (nonlinear_arith)
        requires
            0 <= px1 < width,
            0 <= px2 < width,
            py1 * width + px1 == py2 * width + px2,
    ;
}

/// A pixel covered by a body lies inside the body's bounding box.
pub proof fn lemma_covers_within_bounding_box(b: BallModel, px: int, py: int)
    requires
        covers(b, px, py),
        b.radius >= 0,
    ensures
        b.x - b.radius <= px <= b.x + b.radius,
        b.y - b.radius <= py <= b.y + b.radius,
{
    assert((px - b.x) * (px - b.x) >= 0) by (nonlinear_arith);
    assert((py - b.y) * (py - b.y) >= 0) by (nonlinear_arith);
    lemma_square_root_bound(px - b.x, b.radius);
    lemma_square_root_bound(py - b.y, b.radius);
}

impl Ball {
    /// Law: rasterization writes the body's color to exactly the in-frame
    /// pixels whose squared distance from the center is at most the squared
    /// radius, and leaves every other framebuffer cell unchanged — pixels of
    /// the disk that fall outside `[0, width) x [0, height)` are silently
    /// skipped, never written nor wrapped around.
    pub fn draw(&self, buffer: &mut Vec<u32>, width: i64, height: i64)
        requires
            self@.wf(),
            0 < width <= MAX_COORD,
            0 < height <= MAX_COORD,
            old(buffer)@.len() == width * height,
        ensures
            final(buffer)@.len() == old(buffer)@.len(),
            forall|px: int, py: int|
                0 <= px < width && 0 <= py < height ==> final(buffer)@[#[trigger] pixel_index(
                    px,
                    py,
                    width as int,
                )] == (if covers(self@, px, py) {
                    self.color
                } else {
                    old(buffer)@[pixel_index(px, py, width as int)]
                }),
    {
        let r = self.radius;
        proof {
            assert forall|px: int, py: int| 0 <= px < width && 0 <= py < height && covers(
                self@,
                px,
                py,
            ) implies self@.y - r <= py && self@.x - r <= px by {
                lemma_covers_within_bounding_box(self@, px, py);
            }
        }
        let mut oy: i64 = -r;
        while oy <= r
            invariant
                self@.wf(),
                0 < width <= MAX_COORD,
                0 < height <= MAX_COORD,
                old(buffer)@.len() == width * height,
                buffer@.len() == old(buffer)@.len(),
                r == self@.radius,
                -r <= oy <= r + 1,
                forall|px: int, py: int|
                    0 <= px < width && 0 <= py < height ==> buffer@[#[trigger] pixel_index(
                        px,
                        py,
                        width as int,
                    )] == (if covers(self@, px, py) && py < self@.y + oy {
                        self.color
                    } else {
                        old(buffer)@[pixel_index(px, py, width as int)]
                    }),
            decreases r + 1 - oy,
        {
            proof {
                assert forall|px: int, py: int| 0 <= px < width && 0 <= py < height && covers(
                    self@,
                    px,
                    py,
                ) implies self@.x - r <= px by {
                    lemma_covers_within_bounding_box(self@, px, py);
                }
            }
            let mut ox: i64 = -r;
            while ox <= r
                invariant
                    self@.wf(),
                    0 < width <= MAX_COORD,
                    0 < height <= MAX_COORD,
                    old(buffer)@.len() == width * height,
                    buffer@.len() == old(buffer)@.len(),
                    r == self@.radius,
                    -r <= oy <= r,
                    -r <= ox <= r + 1,
                    forall|px: int, py: int|
                        0 <= px < width && 0 <= py < height ==> buffer@[#[trigger] pixel_index(
                            px,
                            py,
                            width as int,
                        )] == (if covers(self@, px, py) && (py < self@.y + oy || (py == self@.y
                            + oy && px < self@.x + ox)) {
                            self.color
                        } else {
                            old(buffer)@[pixel_index(px, py, width as int)]
                        }),
                decreases r + 1 - ox,
            {
                let ghost pre = buffer@;
                let px0 = self.x + ox;
                let py0 = self.y + oy;
                proof {
                    lemma_square_in_range(ox as int, MAX_COORD as int);
                    lemma_square_in_range(oy as int, MAX_COORD as int);
                    lemma_square_in_range(r as int, MAX_COORD as int);
                }
                if ox * ox + oy * oy <= r * r {
                    assert(covers(self@, px0 as int, py0 as int));
                    if px0 >= 0 && px0 < width && py0 >= 0 && py0 < height {
                        let total = buffer.len();
                        proof {
                            assert(py0 * width + px0 < width * height) by (nonlinear_arith)
                                requires
                                    0 <= px0 < width,
                                    0 <= py0 < height,
                            ;
                            assert(0 <= py0 * width + px0 <= 1_000_000_000_000_000_000)
                                by (nonlinear_arith)
                                requires
                                    0 <= px0 < width,
                                    0 <= py0 < height,
                                    0 < width <= 1_000_000_000,
                                    0 < height <= 1_000_000_000,
                            ;
                            assert(py0 * width + px0 < total as int);
                        }
                        let idx = (py0 * width + px0) as usize;
                        buffer.set(idx, self.color);
                        proof {
                            assert forall|px: int, py: int|
                                0 <= px < width && 0 <= py < height implies buffer@[
                            #[trigger] pixel_index(px, py, width as int)] == (if covers(
                                self@,
                                px,
                                py,
                            ) && (py < self@.y + oy || (py == self@.y + oy && px < self@.x + ox
                                + 1)) {
                                self.color
                            } else {
                                old(buffer)@[pixel_index(px, py, width as int)]
                            }) by {
                                if px == px0 as int && py == py0 as int {
                                    assert(pixel_index(px, py, width as int) == idx as int);
                                } else {
                                    if pixel_index(px, py, width as int) == idx as int {
                                        lemma_pixel_index_injective(
                                            px,
                                            py,
                                            px0 as int,
                                            py0 as int,
                                            width as int,
                                        );
                                        assert(false);
                                    }
                                    assert(0 <= py * (width as int) + px < (width as int) * (
                                    height as int)) by (nonlinear_arith)
                                        requires
                                            0 <= px < width as int,
                                            0 <= py < height as int,
                                    ;
                                    assert(buffer@[pixel_index(px, py, width as int)]
                                        == pre[pixel_index(px, py, width as int)]);
                                }
                            }
                        }
                    } else {
                        proof {
                            assert forall|px: int, py: int|
                                0 <= px < width && 0 <= py < height implies buffer@[
                            #[trigger] pixel_index(px, py, width as int)] == (if covers(
                                self@,
                                px,
                                py,
                            ) && (py < self@.y + oy || (py == self@.y + oy && px < self@.x + ox
                                + 1)) {
                                self.color
                            } else {
                                old(buffer)@[pixel_index(px, py, width as int)]
                            }) by {
                                assert(!(px == px0 as int && py == py0 as int));
                            }
                        }
                    }
                } else {
                    proof {
                        assert(!covers(self@, px0 as int, py0 as int));
                        assert forall|px: int, py: int|
                            0 <= px < width && 0 <= py < height implies buffer@[
                        #[trigger] pixel_index(px, py, width as int)] == (if covers(
                            self@,
                            px,
                            py,
                        ) && (py < self@.y + oy || (py == self@.y + oy && px < self@.x + ox
                            + 1)) {
                            self.color
                        } else {
                            old(buffer)@[pixel_index(px, py, width as int)]
                        }) by {
                            if px == px0 as int && py == py0 as int {
                                assert(!covers(self@, px, py));
                            }
                        }
                    }
                }
                ox = ox + 1;
            }
            proof {
                assert forall|px: int, py: int|
                    0 <= px < width && 0 <= py < height implies buffer@[#[trigger] pixel_index(
                    px,
                    py,
                    width as int,
                )] == (if covers(self@, px, py) && py < self@.y + oy + 1 {
                    self.color
                } else {
                    old(buffer)@[pixel_index(px, py, width as int)]
                }) by {
                    if covers(self@, px, py) {
                        lemma_covers_within_bounding_box(self@, px, py);
                    }
                }
            }
            oy = oy + 1;
        }
        proof {
            assert forall|px: int, py: int|
                0 <= px < width && 0 <= py < height implies buffer@[#[trigger] pixel_index(
                px,
                py,
                width as int,
            )] == (if covers(self@, px, py) {
                self.color
            } else {
                old(buffer)@[pixel_index(px, py, width as int)]
            }) by {
                if covers(self@, px, py) {
                    lemma_covers_within_bounding_box(self@, px, py);
                }
            }
        }
    }
}

} // verus!
