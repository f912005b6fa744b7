//! The rasterizer's write side: a depth buffer beside an RGBA frame
//! buffer, with one bounds-checked, depth-tested pixel write as the
//! only way in, plus the exact integer pieces of scan conversion (the
//! clamped bounding box and the signed-area edge function).
//!
//! Depth follows one convention throughout: smaller values are closer,
//! the buffer is reset to the largest value, and only a strictly closer
//! write replaces what a pixel already holds.  Callers that work in
//! floating point hand depth over in any order-preserving integer
//! encoding.

use vstd::prelude::*;
use vstd::pervasive::VecAdditionalExecFns;

verus! {

/// Render target state: a depth value per pixel.  The RGBA frame
/// buffer itself is owned by the caller and passed into each write, so
/// several targets can share one set of textures.
pub struct Draw {
    pub width: usize,
    pub height: usize,
    pub depth_buffer: Vec<u32>,
}

/// Index of the pixel (x, y) in a row-major buffer of the given width.
pub open spec fn frame_index(width: int, x: int, y: int) -> int {
    x + y * width
}

/// Whether a requested write lands on the target: it must be opaque,
/// inside the viewport, and strictly closer than what its pixel holds.
pub open spec fn pixel_visible(
    width: int,
    height: int,
    depth: Seq<u32>,
    x: int,
    y: int,
    z: u32,
    rgba: [u8; 4],
) -> bool {
    &&& rgba@[3] != 0
    &&& 0 <= x < width
    &&& 0 <= y < height
    &&& z < depth[frame_index(width, x, y)]
}

/// The frame buffer after the four bytes of pixel `i` are replaced.
pub open spec fn put_rgba(frame: Seq<u8>, i: int, rgba: [u8; 4]) -> Seq<u8> {
    frame.update(4 * i, rgba@[0]).update(4 * i + 1, rgba@[1]).update(4 * i + 2, rgba@[2]).update(
        4 * i + 3,
        rgba@[3],
    )
}

/// Both buffers after one depth-tested pixel write: unchanged unless
/// the write is visible, in which case the pixel takes the new colour
/// and the new, closer depth.
pub open spec fn pixel_spec(
    width: int,
    height: int,
    depth: Seq<u32>,
    frame: Seq<u8>,
    x: int,
    y: int,
    z: u32,
    rgba: [u8; 4],
) -> (Seq<u32>, Seq<u8>) {
    if pixel_visible(width, height, depth, x, y, z, rgba) {
        (depth.update(frame_index(width, x, y), z), put_rgba(frame, frame_index(width, x, y), rgba))
    } else {
        (depth, frame)
    }
}

impl Draw {
    /// A target is well formed when it holds one depth value per pixel
    /// and a four-byte-per-pixel frame buffer can be addressed without
    /// overflow.
    pub open spec fn wf(&self) -> bool {
        &&& self.depth_buffer@.len() == self.width * self.height
        &&& self.width * self.height * 4 <= usize::MAX
    }

    /// A new target with every pixel at the farthest possible depth.
    pub fn new(width: usize, height: usize) -> (d: Self)
        requires
            width * height * 4 <= usize::MAX,
        ensures
            d.wf(),
            d.width == width,
            d.height == height,
            forall|i: int| 0 <= i < d.depth_buffer@.len() ==> d.depth_buffer@[i] == u32::MAX,
    {
        proof {
            assert(width * height <= usize::MAX) by (nonlinear_arith)
                requires width * height * 4 <= usize::MAX;
        }
        let n = width * height;
        let mut depth_buffer: Vec<u32> = Vec::new();
        let mut i: usize = 0;
        while i < n
            invariant
                i <= n,
                depth_buffer@.len() == i,
                forall|j: int| 0 <= j < i ==> depth_buffer@[j] == u32::MAX,
            decreases n - i,
        {
            depth_buffer.push(u32::MAX);
            i = i + 1;
        }
        Draw { width, height, depth_buffer }
    }

    /// Writes one pixel, if it is visible: opaque, inside the viewport,
    /// and strictly closer than the depth its pixel already holds.
    pub fn pixel(&mut self, frame: &mut Vec<u8>, x: usize, y: usize, z: u32, rgba: [u8; 4])
        requires
            old(self).wf(),
            old(frame)@.len() == old(self).width * old(self).height * 4,
        ensures
            final(self).width == old(self).width,
            final(self).height == old(self).height,
            final(self).wf(),
            final(frame)@.len() == old(frame)@.len(),
            (final(self).depth_buffer@, final(frame)@) == pixel_spec(
                old(self).width as int,
                old(self).height as int,
                old(self).depth_buffer@,
                old(frame)@,
                x as int,
                y as int,
                z,
                rgba,
            ),
    {
        if rgba[3] == 0 {
            return;
        }
        if x >= self.width || y >= self.height {
            return;
        }
        proof {
            assert(x + y * self.width < self.width * self.height) by (nonlinear_arith)
                requires x < self.width, y < self.height;
            assert(4 * (x + y * self.width) + 4 <= self.width * self.height * 4) by (nonlinear_arith)
                requires x + y * self.width < self.width * self.height;
        }
        let index = x + y * self.width;
        if z < self.depth_buffer[index] {
            self.depth_buffer.set(index, z);
            frame.set(4 * index, rgba[0]);
            frame.set(4 * index + 1, rgba[1]);
            frame.set(4 * index + 2, rgba[2]);
            frame.set(4 * index + 3, rgba[3]);
        }
    }

    /// Resets every pixel to the farthest possible depth, ready for the
    /// next frame.
    pub fn clear_depth_buffer(&mut self)
        ensures
            final(self).width == old(self).width,
            final(self).height == old(self).height,
            final(self).depth_buffer@.len() == old(self).depth_buffer@.len(),
            old(self).wf() ==> final(self).wf(),
            forall|i: int|
                0 <= i < final(self).depth_buffer@.len() ==> final(self).depth_buffer@[i]
                    == u32::MAX,
    {
        let n = self.depth_buffer.len();
        let mut i: usize = 0;
        while i < n
            invariant
                i <= n,
                self.depth_buffer@.len() == n,
                self.width == old(self).width,
                self.height == old(self).height,
                forall|j: int| 0 <= j < i ==> self.depth_buffer@[j] == u32::MAX,
            decreases n - i,
        {
            self.depth_buffer.set(i, u32::MAX);
            i = i + 1;
        }
    }

    /// The screen-space bounding box of a triangle whose vertices have
    /// already been rounded to whole pixels: per axis, the least and
    /// greatest vertex coordinate, clamped into the viewport.  The
    /// result is `[x_min, x_max, y_min, y_max]`, with
    /// `x_min <= x_max < width` and `y_min <= y_max < height`.
    pub fn bounding_box(&self, xs: [i64; 3], ys: [i64; 3]) -> (r: [usize; 4])
        requires
            self.wf(),
            self.width >= 1,
            self.height >= 1,
        ensures
            r@[0] == clamp_to(min3(xs@[0] as int, xs@[1] as int, xs@[2] as int), self.width - 1),
            r@[1] == clamp_to(max3(xs@[0] as int, xs@[1] as int, xs@[2] as int), self.width - 1),
            r@[2] == clamp_to(min3(ys@[0] as int, ys@[1] as int, ys@[2] as int), self.height - 1),
            r@[3] == clamp_to(max3(ys@[0] as int, ys@[1] as int, ys@[2] as int), self.height - 1),
            r@[0] <= r@[1] < self.width,
            r@[2] <= r@[3] < self.height,
    {
        proof {
            assert(self.width * 4 <= self.width * self.height * 4) by (nonlinear_arith)
                requires self.height >= 1, self.width >= 0;
            assert(self.height * 4 <= self.width * self.height * 4) by (nonlinear_arith)
                requires self.width >= 1, self.height >= 0;
        }
        let x_lo = min3_i64(xs[0], xs[1], xs[2]);
        let x_hi = max3_i64(xs[0], xs[1], xs[2]);
        let y_lo = min3_i64(ys[0], ys[1], ys[2]);
        let y_hi = max3_i64(ys[0], ys[1], ys[2]);
        [
            clamp_to_exec(x_lo, self.width - 1),
            clamp_to_exec(x_hi, self.width - 1),
            clamp_to_exec(y_lo, self.height - 1),
            clamp_to_exec(y_hi, self.height - 1),
        ]
    }
}

/// Fills a frame buffer with one colour, four bytes per pixel.
pub fn clear_frame(frame: &mut Vec<u8>, rgba: [u8; 4])
    requires
        old(frame)@.len() % 4 == 0,
    ensures
        final(frame)@.len() == old(frame)@.len(),
        forall|j: int| 0 <= j < final(frame)@.len() ==> final(frame)@[j] == rgba@[j % 4],
{
    let n = frame.len();
    let mut i: usize = 0;
    while i < n
        invariant
            i <= n,
            i % 4 == 0,
            n % 4 == 0,
            frame@.len() == n,
            forall|j: int| 0 <= j < i ==> frame@[j] == rgba@[j % 4],
        decreases n - i,
    {
        proof {
            assert(i + 4 <= n) by (nonlinear_arith)
                requires
                    i < n,
                    i % 4 == 0,
                    n % 4 == 0,
                    i >= 0,
                    n >= 0;
            assert((i + 1) % 4 == 1 && (i + 2) % 4 == 2 && (i + 3) % 4 == 3) by (nonlinear_arith)
                requires
                    i % 4 == 0,
                    i >= 0;
        }
        frame.set(i, rgba[0]);
        frame.set(i + 1, rgba[1]);
        frame.set(i + 2, rgba[2]);
        frame.set(i + 3, rgba[3]);
        i = i + 4;
    }
}

/// The least of three values.
pub open spec fn min3(a: int, b: int, c: int) -> int {
    if a <= b && a <= c {
        a
    } else if b <= c {
        b
    } else {
        c
    }
}

/// The greatest of three values.
pub open spec fn max3(a: int, b: int, c: int) -> int {
    if a >= b && a >= c {
        a
    } else if b >= c {
        b
    } else {
        c
    }
}

/// `v` clamped into `[0, hi]`.
pub open spec fn clamp_to(v: int, hi: int) -> int {
    if v < 0 {
        0
    } else if v > hi {
        hi
    } else {
        v
    }
}

fn min3_i64(a: i64, b: i64, c: i64) -> (r: i64)
    ensures
        r == min3(a as int, b as int, c as int),
{
    if a <= b && a <= c {
        a
    } else if b <= c {
        b
    } else {
        c
    }
}

fn max3_i64(a: i64, b: i64, c: i64) -> (r: i64)
    ensures
        r == max3(a as int, b as int, c as int),
{
    if a >= b && a >= c {
        a
    } else if b >= c {
        b
    } else {
        c
    }
}

fn clamp_to_exec(v: i64, hi: usize) -> (r: usize)
    requires
        hi <= i64::MAX,
    ensures
        r == clamp_to(v as int, hi as int),
{
    if v < 0 {
        0
    } else if v > hi as i64 {
        hi
    } else {
        v as usize
    }
}

/// Twice the signed area of the triangle spanned by the points
/// `(ax, ay)`, `(bx, by)` and `(px, py)`: the 2D perp-dot product of
/// `p - a` with `b - a`.  Scan conversion takes `p` as a pixel centre
/// and the sign of this value tells on which side of the edge `a-b` it
/// lies; halving would cancel out in the barycentric division anyway.
pub open spec fn area2(ax: int, ay: int, bx: int, by: int, px: int, py: int) -> int {
    (px - ax) * (by - ay) - (py - ay) * (bx - ax)
}

/// [`area2`] in executable form, on coordinates small enough that the
/// arithmetic stays exact.
pub fn triangle_area_doubled(ax: i64, ay: i64, bx: i64, by: i64, px: i64, py: i64) -> (r: i64)
    requires
        -0x2000_0000 <= ax <= 0x2000_0000,
        -0x2000_0000 <= ay <= 0x2000_0000,
        -0x2000_0000 <= bx <= 0x2000_0000,
        -0x2000_0000 <= by <= 0x2000_0000,
        -0x2000_0000 <= px <= 0x2000_0000,
        -0x2000_0000 <= py <= 0x2000_0000,
    ensures
        r == area2(ax as int, ay as int, bx as int, by as int, px as int, py as int),
{
    proof {
        assert((px - ax) * (by - ay) <= 0x1000_0000_0000_0000 && (px - ax) * (by - ay)
            >= -0x1000_0000_0000_0000) by (nonlinear_arith)
            requires
                -0x4000_0000 <= px - ax <= 0x4000_0000,
                -0x4000_0000 <= by - ay <= 0x4000_0000;
        assert((py - ay) * (bx - ax) <= 0x1000_0000_0000_0000 && (py - ay) * (bx - ax)
            >= -0x1000_0000_0000_0000) by (nonlinear_arith)
            requires
                -0x4000_0000 <= py - ay <= 0x4000_0000,
                -0x4000_0000 <= bx - ax <= 0x4000_0000;
    }
    (px - ax) * (by - ay) - (py - ay) * (bx - ax)
}

/// The three sub-triangle areas at any probe point sum to the area of
/// the whole triangle, so the normalized barycentric weights sum to 1.
#[verifier::rlimit(100)]
pub proof fn lemma_barycentric_weights_sum(
    ax: int,
    ay: int,
    bx: int,
    by: int,
    cx: int,
    cy: int,
    px: int,
    py: int,
)
    ensures
        area2(bx, by, cx, cy, px, py) + area2(cx, cy, ax, ay, px, py) + area2(
            ax,
            ay,
            bx,
            by,
            px,
            py,
        ) == area2(ax, ay, bx, by, cx, cy),
{
    assert((px - bx) * (cy - by) - (py - by) * (cx - bx) + ((px - cx) * (ay - cy) - (py - cy) * (ax
        - cx)) + ((px - ax) * (by - ay) - (py - ay) * (bx - ax)) == (cx - ax) * (by - ay) - (cy
        - ay) * (bx - ax)) by (nonlinear_arith);
}

/// Evaluated at a triangle's own vertices, the raw barycentric weights
/// `(area2(b,c,p), area2(c,a,p), area2(a,b,p))` are exactly
/// `(area, 0, 0)`, `(0, area, 0)` and `(0, 0, area)` — the weight of
/// the third corner at the third corner is `area2(a, b, c)` itself —
/// so after the division by the triangle's area they are exactly
/// `(1, 0, 0)`, `(0, 1, 0)` and `(0, 0, 1)`.
pub proof fn lemma_barycentric_at_vertices(ax: int, ay: int, bx: int, by: int, cx: int, cy: int)
    ensures
        area2(bx, by, cx, cy, ax, ay) == area2(ax, ay, bx, by, cx, cy),
        area2(cx, cy, ax, ay, ax, ay) == 0,
        area2(ax, ay, bx, by, ax, ay) == 0,
        area2(bx, by, cx, cy, bx, by) == 0,
        area2(cx, cy, ax, ay, bx, by) == area2(ax, ay, bx, by, cx, cy),
        area2(ax, ay, bx, by, bx, by) == 0,
        area2(bx, by, cx, cy, cx, cy) == 0,
        area2(cx, cy, ax, ay, cx, cy) == 0,
{
    assert(area2(bx, by, cx, cy, ax, ay) == area2(ax, ay, bx, by, cx, cy)) by (nonlinear_arith);
    assert(area2(cx, cy, ax, ay, bx, by) == area2(ax, ay, bx, by, cx, cy)) by (nonlinear_arith);
}

/// One write of a raster pass: a pixel position with the depth and
/// colour that scan conversion produced for it.
pub struct PixelWrite {
    pub x: int,
    pub y: int,
    pub z: u32,
    pub rgba: [u8; 4],
}

/// Both buffers after a sequence of depth-tested pixel writes, applied
/// in order.
pub open spec fn raster_pass(
    width: int,
    height: int,
    depth: Seq<u32>,
    frame: Seq<u8>,
    ws: Seq<PixelWrite>,
) -> (Seq<u32>, Seq<u8>)
    decreases ws.len(),
{
    if ws.len() == 0 {
        (depth, frame)
    } else {
        let s1 = pixel_spec(width, height, depth, frame, ws[0].x, ws[0].y, ws[0].z, ws[0].rgba);
        raster_pass(width, height, s1.0, s1.1, ws.drop_first())
    }
}

/// Whether no two writes of a pass land on the same pixel, as holds for
/// one triangle's pass, which visits each bounding-box pixel once.
pub open spec fn distinct_pixels(ws: Seq<PixelWrite>) -> bool {
    forall|i: int, j: int|
        0 <= i < j < ws.len() ==> !(ws[i].x == ws[j].x && ws[i].y == ws[j].y)
}

/// Two pixels map to the same buffer cell only if they are the same
/// pixel.
proof fn lemma_frame_index_injective(width: int, x0: int, y0: int, x1: int, y1: int)
    requires
        0 <= x0 < width,
        0 <= x1 < width,
        frame_index(width, x0, y0) == frame_index(width, x1, y1),
    ensures
        x0 == x1 && y0 == y1,
{
    assert(x0 + y0 * width == x1 + y1 * width);
    assert(y0 == y1) by (nonlinear_arith)
        requires
            0 <= x0 < width,
            0 <= x1 < width,
            x0 + y0 * width == x1 + y1 * width;
}

/// A raster pass leaves the depth of a pixel that none of its writes
/// land on exactly as it was.
proof fn lemma_pass_preserves_cell(
    width: int,
    height: int,
    depth: Seq<u32>,
    frame: Seq<u8>,
    ws: Seq<PixelWrite>,
    x: int,
    y: int,
)
    requires
        depth.len() == width * height,
        0 <= x < width,
        0 <= y < height,
        forall|i: int| 0 <= i < ws.len() ==> !(ws[i].x == x && ws[i].y == y),
    ensures
        raster_pass(width, height, depth, frame, ws).0.len() == depth.len(),
        raster_pass(width, height, depth, frame, ws).0[frame_index(width, x, y)] == depth[
            frame_index(width, x, y)],
    decreases ws.len(),
{
    assert(0 <= x + y * width < width * height) by (nonlinear_arith)
        requires
            0 <= x < width,
            0 <= y < height;
    if ws.len() > 0 {
        let w0 = ws[0];
        let s1 = pixel_spec(width, height, depth, frame, w0.x, w0.y, w0.z, w0.rgba);
        if pixel_visible(width, height, depth, w0.x, w0.y, w0.z, w0.rgba) {
            assert(0 <= w0.x + w0.y * width < width * height) by (nonlinear_arith)
                requires
                    0 <= w0.x < width,
                    0 <= w0.y < height;
            assert(frame_index(width, w0.x, w0.y) != frame_index(width, x, y)) by {
                if frame_index(width, w0.x, w0.y) == frame_index(width, x, y) {
                    lemma_frame_index_injective(width, w0.x, w0.y, x, y);
                }
            }
        }
        assert(forall|i: int|
            0 <= i < ws.drop_first().len() ==> !(ws.drop_first()[i].x == x
                && ws.drop_first()[i].y == y));
        lemma_pass_preserves_cell(width, height, s1.0, s1.1, ws.drop_first(), x, y);
    }
}

/// Within a frame the depth buffer only improves: no write ever makes
/// any pixel farther.
pub proof fn lemma_pixel_monotone(
    width: int,
    height: int,
    depth: Seq<u32>,
    frame: Seq<u8>,
    x: int,
    y: int,
    z: u32,
    rgba: [u8; 4],
)
    requires
        depth.len() == width * height,
    ensures
        pixel_spec(width, height, depth, frame, x, y, z, rgba).0.len() == depth.len(),
        forall|i: int|
            0 <= i < depth.len() ==> #[trigger] pixel_spec(
                width,
                height,
                depth,
                frame,
                x,
                y,
                z,
                rgba,
            ).0[i] <= depth[i],
{
    if pixel_visible(width, height, depth, x, y, z, rgba) {
        assert(0 <= x + y * width < width * height) by (nonlinear_arith)
            requires
                0 <= x < width,
                0 <= y < height;
    }
}

/// The writes of one bounding-box pass of width `w`, visited row by
/// row, land on pairwise distinct pixels, which is what
/// [`lemma_raster_pass_idempotent`] asks of a triangle's pass.
pub proof fn lemma_row_major_pass_distinct(ws: Seq<PixelWrite>, x_min: int, y_min: int, w: int)
    requires
        w >= 1,
        forall|k: int|
            0 <= k < ws.len() ==> (#[trigger] ws[k]).x == x_min + k % w && ws[k].y == y_min + k
                / w,
    ensures
        distinct_pixels(ws),
{
    assert forall|i: int, j: int|
        0 <= i < j < ws.len() implies !(ws[i].x == ws[j].x && ws[i].y == ws[j].y) by {
        if ws[i].x == ws[j].x && ws[i].y == ws[j].y {
            vstd::arithmetic::div_mod::lemma_fundamental_div_mod(i, w);
            vstd::arithmetic::div_mod::lemma_fundamental_div_mod(j, w);
            assert(i == w * (i / w) + i % w);
            assert(j == w * (j / w) + j % w);
            assert(i % w == j % w && i / w == j / w);
        }
    }
}

/// Depth-test idempotence for a single pixel: once a write has been
/// applied, applying the very same write again changes nothing, since
/// the depth test admits only strictly closer values.
pub proof fn lemma_pixel_idempotent(
    width: int,
    height: int,
    depth: Seq<u32>,
    frame: Seq<u8>,
    x: int,
    y: int,
    z: u32,
    rgba: [u8; 4],
)
    requires
        depth.len() == width * height,
    ensures
        ({
            let s1 = pixel_spec(width, height, depth, frame, x, y, z, rgba);
            pixel_spec(width, height, s1.0, s1.1, x, y, z, rgba) == s1
        }),
{
    if pixel_visible(width, height, depth, x, y, z, rgba) {
        assert(0 <= x + y * width < width * height) by (nonlinear_arith)
            requires
                0 <= x < width,
                0 <= y < height;
    }
}

/// Depth-test idempotence for a whole raster pass: rendering the
/// identical triangle a second time, with identical depths, leaves the
/// frame and depth buffers exactly as the first pass left them.
pub proof fn lemma_raster_pass_idempotent(
    width: int,
    height: int,
    depth: Seq<u32>,
    frame: Seq<u8>,
    ws: Seq<PixelWrite>,
)
    requires
        depth.len() == width * height,
        frame.len() == width * height * 4,
        distinct_pixels(ws),
    ensures
        ({
            let s1 = raster_pass(width, height, depth, frame, ws);
            raster_pass(width, height, s1.0, s1.1, ws) == s1
        }),
    decreases ws.len(),
{
    if ws.len() > 0 {
        let w0 = ws[0];
        let rest = ws.drop_first();
        let sa = pixel_spec(width, height, depth, frame, w0.x, w0.y, w0.z, w0.rgba);
        let s1 = raster_pass(width, height, sa.0, sa.1, rest);
        assert(raster_pass(width, height, depth, frame, ws) == s1);
        if w0.rgba@[3] != 0 && 0 <= w0.x < width && 0 <= w0.y < height {
            let idx = frame_index(width, w0.x, w0.y);
            assert(0 <= w0.x + w0.y * width < width * height) by (nonlinear_arith)
                requires
                    0 <= w0.x < width,
                    0 <= w0.y < height;
            assert(0 <= idx < width * height);
            assert(4 * idx + 4 <= width * height * 4) by (nonlinear_arith)
                requires 0 <= idx < width * height;
            assert(sa.0.len() == depth.len());
            assert(sa.0[idx] <= w0.z);
            assert(forall|i: int| 0 <= i < rest.len() ==> !(rest[i].x == w0.x && rest[i].y == w0.y));
            lemma_pass_preserves_cell(width, height, sa.0, sa.1, rest, w0.x, w0.y);
            assert(s1.0[idx] <= w0.z);
            assert(!pixel_visible(width, height, s1.0, w0.x, w0.y, w0.z, w0.rgba));
        } else {
            assert(!pixel_visible(width, height, s1.0, w0.x, w0.y, w0.z, w0.rgba));
        }
        assert(pixel_spec(width, height, s1.0, s1.1, w0.x, w0.y, w0.z, w0.rgba) == s1);
        assert(sa.0.len() == width * height);
        assert(sa.1.len() == width * height * 4);
        lemma_raster_pass_idempotent(width, height, sa.0, sa.1, rest);
        assert(raster_pass(width, height, s1.0, s1.1, rest) == s1);
        assert(raster_pass(width, height, s1.0, s1.1, ws) == raster_pass(
            width,
            height,
            s1.0,
            s1.1,
            rest,
        ));
    }
}

} // verus!
