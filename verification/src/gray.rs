//! The grayscale image model and the binarizer.
//!
//! A [`GrayImg`] holds the pixel data the renderer consumes: a width, a
//! height, and one 8-bit luminance value per pixel (0 is black, 255 is
//! white), stored row by row. The binarizer turns such an image into a
//! boolean matrix in which `true` means "ink": the pixel is darker than
//! the given threshold.

use crate::braille::is_rect;
use crate::braille::mat_width;
use crate::braille::rendered;
use vstd::prelude::*;

verus! {

/// An in-memory grayscale image: `pixels[y * width + x]` is the luminance
/// of the pixel at column `x` of row `y`.
pub struct GrayImg {
    pub width: usize,
    pub height: usize,
    pub pixels: Vec<u8>,
}

impl GrayImg {
    /// The buffer holds exactly one luminance value per pixel.
    pub open spec fn wf(&self) -> bool {
        self.pixels@.len() == self.width as int * self.height as int
    }

    /// The luminance of the pixel at column `x` of row `y`.
    pub open spec fn lum(&self, x: int, y: int) -> u8 {
        self.pixels@[y * self.width as int + x]
    }

    /// Builds an image from a pixel buffer; `None` iff the buffer does not
    /// hold exactly `width * height` luminance values.
    pub fn new(width: usize, height: usize, pixels: Vec<u8>) -> (r: Option<GrayImg>)
        ensures
            r is Some <==> pixels@.len() == width as int * height as int,
            r matches Some(img) ==> img == (GrayImg { width, height, pixels }) && img.wf(),
    {
        let n = pixels.len();
        let ok = match width.checked_mul(height) {
            Some(p) => p == n,
            None => false,
        };
        if ok {
            Some(GrayImg { width, height, pixels })
        } else {
            None
        }
    }
}

/// The binary matrix that binarizing `img` at `threshold` must produce:
/// one row per pixel row, and a cell is ink exactly when the pixel's
/// luminance is strictly below the threshold.
pub open spec fn binary_of(img: GrayImg, threshold: u8) -> Seq<Seq<bool>> {
    Seq::new(
        img.height as nat,
        |y: int| Seq::new(img.width as nat, |x: int| img.lum(x, y) < threshold),
    )
}

/// Converts a grayscale image into a binary matrix: a cell is `true`
/// ("ink") iff the pixel there is darker than `threshold`. The result has
/// exactly `height` rows of exactly `width` cells each.
pub fn binarize(img: &GrayImg, threshold: u8) -> (m: Vec<Vec<bool>>)
    requires
        img.wf(),
    ensures
        m.deep_view() == binary_of(*img, threshold),
{
    let mut rows: Vec<Vec<bool>> = Vec::new();
    let mut y: usize = 0;
    while y < img.height
        invariant
            img.wf(),
            y <= img.height,
            rows@.len() == y,
            forall|yy: int|
                0 <= yy < y ==> #[trigger] rows.deep_view()[yy] == binary_of(*img, threshold)[yy],
        decreases img.height - y,
    {
        let mut row: Vec<bool> = Vec::new();
        let mut x: usize = 0;
        while x < img.width
            invariant
                img.wf(),
                y < img.height,
                x <= img.width,
                row@.len() == x,
                forall|xx: int| 0 <= xx < x ==> row@[xx] == (img.lum(xx, y as int) < threshold),
            decreases img.width - x,
        {
            proof {
                assert(y * img.width + x < img.pixels@.len()) by (nonlinear_arith)
                    requires
                        y < img.height,
                        x < img.width,
                        img.pixels@.len() == img.width as int * img.height as int,
                ;
                assert(img.pixels@.len() == img.pixels.len());
            }
            let luma = img.pixels[y * img.width + x];
            row.push(luma < threshold);
            x = x + 1;
        }
        assert(row@ =~= binary_of(*img, threshold)[y as int]);
        let ghost rows_before = rows.deep_view();
        rows.push(row);
        proof {
            assert forall|yy: int| 0 <= yy < y + 1 implies #[trigger] rows.deep_view()[yy]
                == binary_of(*img, threshold)[yy] by {
                if yy < y {
                    assert(rows.deep_view()[yy] == rows_before[yy]);
                }
            }
        }
        y = y + 1;
    }
    assert(rows.deep_view() =~= binary_of(*img, threshold));
    rows
}

/// The binarizer always yields a rectangular matrix with one row per
/// pixel row and one cell per pixel column, so its output satisfies the
/// renderer's precondition.
pub proof fn lemma_binary_rect(img: GrayImg, threshold: u8)
    ensures
        is_rect(binary_of(img, threshold)),
        binary_of(img, threshold).len() == img.height,
        img.height > 0 ==> mat_width(binary_of(img, threshold)) == img.width,
{
    assert forall|y: int| 0 <= y < binary_of(img, threshold).len() implies #[trigger] binary_of(
        img,
        threshold,
    )[y].len() == mat_width(binary_of(img, threshold)) by {
        assert(binary_of(img, threshold)[y].len() == img.width);
    }
}

/// Raising the threshold can only add ink: a pixel that is ink at a
/// lower threshold is still ink at any higher one, since ink means the
/// luminance lies strictly below the threshold.
pub proof fn lemma_threshold_monotonic(img: GrayImg, t1: u8, t2: u8)
    requires
        t1 <= t2,
    ensures
        forall|x: int, y: int|
            0 <= x < img.width && 0 <= y < img.height && #[trigger] binary_of(img, t1)[y][x]
                ==> binary_of(img, t2)[y][x],
{
}

/// The pipeline is deterministic: for fixed image content and threshold
/// the rendered art is one fixed sequence of characters, so any two
/// renderings of equal inputs are byte-identical.
pub proof fn lemma_pipeline_deterministic(
    img: GrayImg,
    threshold: u8,
    art1: Seq<char>,
    art2: Seq<char>,
)
    requires
        art1 == rendered(binary_of(img, threshold)),
        art2 == rendered(binary_of(img, threshold)),
    ensures
        art1 == art2,
{
}

} // verus!
