//! Pixels, images, and the partial-patch algorithm on a shadow pixel buffer.

use vstd::prelude::*;
use vstd::arithmetic::div_mod::{
    lemma_fundamental_div_mod, lemma_fundamental_div_mod_converse_div,
    lemma_fundamental_div_mod_converse_mod,
};
use vstd::arithmetic::mul::{lemma_mul_inequality, lemma_mul_is_commutative};

verus! {

/// One pixel: four 8-bit channels in a fixed order.
#[derive(Clone, Copy, PartialEq, Eq, Structural, Debug)]
pub struct Color32 {
    pub r: u8,
    pub g: u8,
    pub b: u8,
    pub a: u8,
}

/// A rectangular image: `width * height` pixels in row-major order.
pub struct ColorImage {
    pub width: usize,
    pub height: usize,
    pub pixels: Vec<Color32>,
}

/// The mathematical value of a [`ColorImage`].
#[verifier::ext_equal]
pub ghost struct ImageModel {
    pub width: nat,
    pub height: nat,
    pub pixels: Seq<Color32>,
}

impl ImageModel {
    /// The pixel buffer covers the declared dimensions exactly.
    pub open spec fn wf(self) -> bool {
        self.pixels.len() == self.width * self.height
    }
}

impl View for ColorImage {
    type V = ImageModel;

    open spec fn view(&self) -> ImageModel {
        ImageModel {
            width: self.width as nat,
            height: self.height as nat,
            pixels: self.pixels@,
        }
    }
}

impl ColorImage {
    pub open spec fn wf(self) -> bool {
        self@.wf()
    }
}

/// Whether linear index `i` of a row-major buffer of row length `w` falls
/// inside the rectangle of width `pw` and height `ph` whose top-left corner
/// is at column `px`, row `py`.
pub open spec fn in_rect(i: int, w: int, px: int, py: int, pw: int, ph: int) -> bool {
    &&& px <= i % w < px + pw
    &&& py <= i / w < py + ph
}

/// The buffer `base` (row length `w`) after overlaying `img` with its
/// top-left corner at column `px`, row `py`: pixels inside the rectangle
/// come from `img`, every other pixel keeps its value from `base`.
pub open spec fn spec_patched(
    base: Seq<Color32>,
    w: nat,
    img: ImageModel,
    px: nat,
    py: nat,
) -> Seq<Color32> {
    Seq::new(
        base.len(),
        |i: int|
            if w > 0 && in_rect(i, w as int, px as int, py as int, img.width as int, img.height as int) {
                img.pixels[(i / (w as int) - py) * (img.width as int) + (i % (w as int) - px)]
            } else {
                base[i]
            },
    )
}

/// [`spec_patched`] restricted to a prefix of the patch: rows `0..rows` of
/// the patch are fully applied, and in row `rows` only columns `0..cols`.
pub open spec fn spec_patched_upto(
    base: Seq<Color32>,
    w: nat,
    img: ImageModel,
    px: nat,
    py: nat,
    rows: int,
    cols: int,
) -> Seq<Color32> {
    Seq::new(
        base.len(),
        |i: int|
            {
                let sx = i % (w as int) - px;
                let sy = i / (w as int) - py;
                if w > 0 && 0 <= sx < img.width && 0 <= sy < img.height && (sy < rows || (sy == rows
                    && sx < cols)) {
                    img.pixels[sy * (img.width as int) + sx]
                } else {
                    base[i]
                }
            },
    )
}

/// Writing the patch pixel of patch row `y`, column `x` at its destination
/// index extends the applied region of [`spec_patched_upto`] by one pixel.
proof fn lemma_patch_write_step(
    base: Seq<Color32>,
    w: nat,
    img: ImageModel,
    px: nat,
    py: nat,
    y: int,
    x: int,
)
    requires
        w > 0,
        px + img.width <= w,
        0 <= y < img.height,
        0 <= x < img.width,
        (py + y) * w + px + x < base.len(),
    ensures
        spec_patched_upto(base, w, img, px, py, y, x).update(
            (py + y) * (w as int) + px + x,
            img.pixels[y * (img.width as int) + x],
        ) =~= spec_patched_upto(base, w, img, px, py, y, x + 1),
{
    let wi = w as int;
    let pwi = img.width as int;
    let j = (py + y) * wi + px + x;
    lemma_fundamental_div_mod_converse_mod(j, wi, py + y, px + x);
    lemma_fundamental_div_mod_converse_div(j, wi, py + y, px + x);
    let lhs = spec_patched_upto(base, w, img, px, py, y, x).update(j, img.pixels[y * pwi + x]);
    let rhs = spec_patched_upto(base, w, img, px, py, y, x + 1);
    assert forall|i: int| 0 <= i < base.len() implies lhs[i] == rhs[i] by {
        if i != j {
            lemma_fundamental_div_mod(i, wi);
            lemma_mul_is_commutative(wi, i / wi);
        }
    }
}

/// Applies `img` to the row-major buffer `pixels` (row length `width`) with
/// its top-left corner at column `px`, row `py`: afterwards the buffer holds
/// the patch pixels inside the rectangle and its old pixels everywhere else.
#[verifier::loop_isolation(false)]
pub fn apply_patch(pixels: &mut Vec<Color32>, width: usize, img: &ColorImage, px: usize, py: usize)
    requires
        width > 0,
        img.wf(),
        px + img@.width <= width,
        (py + img@.height) * width <= old(pixels)@.len(),
    ensures
        final(pixels)@ == spec_patched(old(pixels)@, width as nat, img@, px as nat, py as nat),
{
    let ghost base = old(pixels)@;
    let ghost w = width as nat;
    // The executable lengths bound both buffers by `usize::MAX`, which the
    // index arithmetic below needs.
    let _shadow_len = pixels.len();
    let _patch_len = img.pixels.len();
    proof {
        assert(spec_patched_upto(base, w, img@, px as nat, py as nat, 0, 0) =~= base);
    }
    let mut y: usize = 0;
    while y < img.height
        invariant
            y <= img@.height,
            pixels@ == spec_patched_upto(base, w, img@, px as nat, py as nat, y as int, 0),
        decreases img@.height - y,
    {
        let mut x: usize = 0;
        while x < img.width
            invariant
                y < img@.height,
                x <= img@.width,
                pixels@ == spec_patched_upto(base, w, img@, px as nat, py as nat, y as int, x as int),
            decreases img@.width - x,
        {
            proof {
                assert(py + y <= (py + img@.height) * width && (py + y) * width <= (py
                    + img@.height) * width) by (nonlinear_arith)
                    requires
                        width >= 1,
                        0 <= py,
                        0 <= y < img@.height,
                ;
                assert((py + y) * width + px + x < (py + img@.height) * width)
                    by (nonlinear_arith)
                    requires
                        0 <= py,
                        0 <= y < img@.height,
                        0 <= px + x < width,
                ;
                assert(y * img@.width + x < img@.width * img@.height) by (nonlinear_arith)
                    requires
                        0 <= x < img@.width,
                        0 <= y < img@.height,
                ;
            }
            let dst = (py + y) * width + (px + x);
            let p = img.pixels[y * img.width + x];
            pixels.set(dst, p);
            proof {
                lemma_patch_write_step(base, w, img@, px as nat, py as nat, y as int, x as int);
            }
            x = x + 1;
        }
        proof {
            assert(spec_patched_upto(base, w, img@, px as nat, py as nat, y as int, img@.width as int)
                =~= spec_patched_upto(base, w, img@, px as nat, py as nat, y as int + 1, 0));
        }
        y = y + 1;
    }
    proof {
        assert(spec_patched_upto(base, w, img@, px as nat, py as nat, img@.height as int, 0)
            =~= spec_patched(base, w, img@, px as nat, py as nat));
    }
}

} // verus!
