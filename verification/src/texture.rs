//! Texture storage and nearest-neighbour sampling.
//!
//! A texture is a `width x height` grid of RGBA texels packed row-major,
//! four bytes per texel.  Sampling clamps the requested coordinates to
//! the last row and column, as the rasterizer wraps its coordinates into
//! range before asking for a texel.

use vstd::prelude::*;

verus! {

/// An RGBA image used to colour rasterized pixels.
#[derive(Clone, Debug)]
pub struct Texture {
    pub width: usize,
    pub height: usize,
    pub pixels: Vec<u8>,
}

impl Texture {
    /// A texture is well formed when it has at least one texel and its
    /// byte buffer holds exactly four bytes per texel.
    pub open spec fn wf(&self) -> bool {
        &&& self.width >= 1
        &&& self.height >= 1
        &&& self.width * self.height * 4 <= usize::MAX
        &&& self.pixels@.len() == self.width * self.height * 4
    }

    /// The byte offset of the texel at (x, y), after clamping both
    /// coordinates into range.
    pub open spec fn texel_offset(&self, x: int, y: int) -> int {
        let cx = if x < self.width - 1 { x } else { self.width - 1 };
        let cy = if y < self.height - 1 { y } else { self.height - 1 };
        (cx + self.width * cy) * 4
    }

    /// A single-texel texture of the given colour, fully opaque.
    pub fn from_color(r: u8, g: u8, b: u8) -> (t: Self)
        ensures
            t.wf(),
            t.width == 1,
            t.height == 1,
            t.pixels@ == seq![r, g, b, 255u8],
    {
        let mut pixels: Vec<u8> = Vec::new();
        pixels.push(r);
        pixels.push(g);
        pixels.push(b);
        pixels.push(255);
        proof {
            assert(pixels@ =~= seq![r, g, b, 255u8]);
        }
        Texture { width: 1, height: 1, pixels }
    }

    /// Wraps an already decoded RGBA byte buffer, rejecting one whose
    /// size does not match the stated dimensions.
    pub fn from_rgba8(width: usize, height: usize, pixels: Vec<u8>) -> (t: Option<Self>)
        ensures
            t is Some <==> width >= 1 && height >= 1 && pixels@.len() == width * height * 4,
            t is Some ==> {
                let tex = t.unwrap();
                &&& tex.wf()
                &&& tex.width == width
                &&& tex.height == height
                &&& tex.pixels@ == pixels@
            },
    {
        let n = pixels.len();
        if width >= 1 && height >= 1 {
            if let Some(wh) = width.checked_mul(height) {
                if let Some(bytes) = wh.checked_mul(4) {
                    if n == bytes {
                        return Some(Texture { width, height, pixels });
                    }
                }
            }
            proof {
                if pixels@.len() == width * height * 4 {
                    assert(width * height <= usize::MAX) by (nonlinear_arith)
                        requires width * height * 4 <= usize::MAX;
                }
            }
            None
        } else {
            None
        }
    }

    /// The RGBA bytes of the texel at (x, y); coordinates past the edge
    /// read the last column or row.
    pub fn get_pixel(&self, x: usize, y: usize) -> (rgba: [u8; 4])
        requires
            self.wf(),
        ensures
            forall|k: int| 0 <= k < 4 ==> rgba@[k] == self.pixels@[self.texel_offset(x as int, y as int) + k],
    {
        let cx = if x < self.width - 1 { x } else { self.width - 1 };
        let cy = if y < self.height - 1 { y } else { self.height - 1 };
        proof {
            assert(cx + self.width * cy < self.width * self.height) by (nonlinear_arith)
                requires
                    cx < self.width,
                    cy < self.height,
                    self.width >= 1,
                    self.height >= 1;
            assert((cx + self.width * cy) * 4 + 4 <= self.width * self.height * 4) by (nonlinear_arith)
                requires cx + self.width * cy < self.width * self.height;
        }
        let index = (cx + self.width * cy) * 4;
        [self.pixels[index], self.pixels[index + 1], self.pixels[index + 2], self.pixels[index + 3]]
    }
}

/// The fallback used when a material name resolves to no loaded texture:
/// a single opaque white texel.
impl Default for Texture {
    fn default() -> (t: Self)
        ensures
            t.wf(),
            t.width == 1,
            t.height == 1,
            t.pixels@ == seq![255u8, 255u8, 255u8, 255u8],
    {
        Texture::from_color(255, 255, 255)
    }
}

} // verus!
