//! An in-memory raster of RGBA samples, the value every page transformation
//! works on.

use vstd::prelude::*;

verus! {

/// One colour sample: red, green, blue and alpha, eight bits each.
#[derive(Clone, Copy, Debug, PartialEq, Eq, Structural)]
pub struct Pixel {
    pub r: u8,
    pub g: u8,
    pub b: u8,
    pub a: u8,
}

/// What a raster is: its dimensions and its samples, four per pixel, row by
/// row from the top, each row from the left.
pub struct RasterView {
    pub width: nat,
    pub height: nat,
    pub samples: Seq<u8>,
}

impl RasterView {
    /// The samples are exactly those of `width * height` pixels.
    pub open spec fn well_formed(self) -> bool {
        self.samples.len() == 4 * self.width * self.height
    }

    /// Whether `(x, y)` names a pixel of the raster.
    pub open spec fn contains(self, x: int, y: int) -> bool {
        0 <= x < self.width && 0 <= y < self.height
    }

    /// Where the first sample of pixel `(x, y)` lies.
    pub open spec fn offset(self, x: int, y: int) -> int {
        4 * (y * self.width + x)
    }

    /// The colour at column `x` of row `y`.
    pub open spec fn pixel(self, x: int, y: int) -> Pixel {
        let at = self.offset(x, y);
        Pixel {
            r: self.samples[at],
            g: self.samples[at + 1],
            b: self.samples[at + 2],
            a: self.samples[at + 3],
        }
    }

    /// `self` is the window of `source` that starts at column `left`: it has
    /// the height of `source` and shows its columns `left .. left + width`.
    pub open spec fn is_columns_of(self, source: RasterView, left: int) -> bool {
        &&& self.well_formed()
        &&& self.height == source.height
        &&& 0 <= left
        &&& left + self.width <= source.width
        &&& forall|x: int, y: int| #[trigger]
            self.contains(x, y) ==> self.pixel(x, y) == source.pixel(left + x, y)
    }
}

/// The samples of a pixel inside the raster lie inside the sample sequence.
pub proof fn lemma_offset_in_range(view: RasterView, x: int, y: int)
    requires
        view.well_formed(),
        view.contains(x, y),
    ensures
        0 <= view.offset(x, y),
        view.offset(x, y) + 4 <= view.samples.len(),
{
    let w = view.width as int;
    let h = view.height as int;
    assert(y * w + x + 1 <= h * w) by (nonlinear_arith)
        requires
            0 <= x < w,
            0 <= y < h,
    ;
    assert(0 <= y * w) by (nonlinear_arith)
        requires
            0 <= y,
            0 <= w,
    ;
    assert(4 * w * h == 4 * (h * w)) by (nonlinear_arith);
}

/// Pixel `(i, j)` comes before pixel `(x, y)` in row order.
pub open spec fn comes_before(i: int, j: int, x: int, y: int) -> bool {
    j < y || (j == y && i < x)
}

/// In a raster of the given width, a pixel that comes before `(x, y)` has all
/// its samples before those of `(x, y)`.
pub proof fn lemma_offset_monotonic(width: int, i: int, j: int, x: int, y: int)
    requires
        0 <= i < width,
        0 <= j,
        0 <= x <= width,
        comes_before(i, j, x, y),
    ensures
        0 <= 4 * (j * width + i),
        4 * (j * width + i) + 4 <= 4 * (y * width + x),
{
    assert(0 <= j * width) by (nonlinear_arith)
        requires
            0 <= j,
            0 <= width,
    ;
    if j < y {
        assert(j * width + width <= y * width) by (nonlinear_arith)
            requires
                j + 1 <= y,
                0 <= width,
        ;
    }
}

/// A raster image: `width * height` RGBA pixels, eight bits to the sample.
/// Whatever a picture file holds (grey, sixteen bits, no alpha) is kept in
/// this one form, and written out again from it.
#[derive(Debug)]
pub struct Raster {
    width: u32,
    height: u32,
    samples: Vec<u8>,
}

impl View for Raster {
    type V = RasterView;

    closed spec fn view(&self) -> RasterView {
        RasterView {
            width: self.width as nat,
            height: self.height as nat,
            samples: self.samples@,
        }
    }
}

impl Raster {
    /// Every raster holds exactly the samples of its pixels, and the samples
    /// of one row can be counted in a `usize`, even of a raster without rows.
    #[verifier::type_invariant]
    pub open spec fn complete(self) -> bool {
        self@.well_formed() && 4 * self@.width <= usize::MAX
    }

    /// Whether `count` samples are exactly those of `width * height` pixels,
    /// and the samples of one row can be counted.
    fn holds(width: u32, height: u32, count: usize) -> (fits: bool)
        ensures
            fits <==> count == 4 * (width as nat) * (height as nat) && 4 * width <= usize::MAX,
    {
        assert(width as nat * height as nat <= 0xffff_ffff * 0xffff_ffff) by (nonlinear_arith)
            requires
                width as nat <= 0xffff_ffff,
                height as nat <= 0xffff_ffff,
        ;
        let pixels: u64 = (width as u64) * (height as u64);
        assert(4 * (width as nat) * (height as nat) == 4 * (width as nat * height as nat))
            by (nonlinear_arith);
        pixels <= 0x3fff_ffff_ffff_ffff && (count as u128) == 4 * (pixels as u128) && 4 * (
        width as u128) <= usize::MAX as u128
    }

    /// Builds a raster from its dimensions and its samples; `None` when the
    /// number of samples does not match the dimensions, or the samples of
    /// one row cannot be counted in a `usize`.
    pub fn from_samples(width: u32, height: u32, samples: Vec<u8>) -> (made: Option<Raster>)
        ensures
            made.is_some() <==> samples@.len() == 4 * (width as nat) * (height as nat) && 4
                * width <= usize::MAX,
            made matches Some(image) ==> image@ == (RasterView {
                width: width as nat,
                height: height as nat,
                samples: samples@,
            }),
    {
        if Self::holds(width, height, samples.len()) {
            Some(Raster { width, height, samples })
        } else {
            None
        }
    }

    /// The number of columns.
    pub fn width(&self) -> (w: u32)
        ensures
            w == self@.width,
    {
        self.width
    }

    /// The number of rows.
    pub fn height(&self) -> (h: u32)
        ensures
            h == self@.height,
    {
        self.height
    }

    /// The samples, four per pixel, row by row.
    pub fn samples(&self) -> (all: &Vec<u8>)
        ensures
            all@ == self@.samples,
            self@.well_formed(),
    {
        proof {
            use_type_invariant(self);
        }
        &self.samples
    }

    /// Gives up the raster for its samples.
    pub fn into_samples(self) -> (all: Vec<u8>)
        ensures
            all@ == self@.samples,
            self@.well_formed(),
    {
        proof {
            use_type_invariant(&self);
        }
        self.samples
    }

    /// The colour at column `x` of row `y`.
    pub fn pixel(&self, x: u32, y: u32) -> (color: Pixel)
        requires
            self@.contains(x as int, y as int),
        ensures
            color == self@.pixel(x as int, y as int),
            self@.well_formed(),
    {
        proof {
            use_type_invariant(self);
            lemma_offset_in_range(self@, x as int, y as int);
            assert(y * self.width >= 0) by (nonlinear_arith)
                requires
                    y >= 0,
                    self.width >= 0,
            ;
            assert(self.samples@.len() == self.samples.len());
        }
        let at: usize = 4 * ((y as usize) * (self.width as usize) + (x as usize));
        Pixel {
            r: self.samples[at],
            g: self.samples[at + 1],
            b: self.samples[at + 2],
            a: self.samples[at + 3],
        }
    }

    /// The window of full height that shows the columns
    /// `left .. left + width` of this raster.
    pub fn columns(&self, left: u32, width: u32) -> (window: Raster)
        requires
            left + width <= self@.width,
        ensures
            window@.width == width,
            window@.is_columns_of(self@, left as int),
    {
        proof {
            use_type_invariant(self);
        }
        let mut samples: Vec<u8> = Vec::new();
        let mut y: u32 = 0;
        while y < self.height
            invariant
                y <= self.height,
                left + width <= self.width,
                self.complete(),
                samples@.len() == 4 * (y * width + 0),
                forall|i: int, j: int|
                    0 <= i < width && 0 <= j && #[trigger] comes_before(i, j, 0, y as int)
                        ==> (RasterView {
                        width: width as nat,
                        height: self.height as nat,
                        samples: samples@,
                    }).pixel(i, j) == self@.pixel(left + i, j),
            decreases self.height - y,
        {
            let mut x: u32 = 0;
            while x < width
                invariant
                    x <= width,
                    y < self.height,
                    left + width <= self.width,
                    self.complete(),
                    samples@.len() == 4 * (y * width + x),
                    forall|i: int, j: int|
                        0 <= i < width && 0 <= j && #[trigger] comes_before(
                            i,
                            j,
                            x as int,
                            y as int,
                        ) ==> (RasterView {
                            width: width as nat,
                            height: self.height as nat,
                            samples: samples@,
                        }).pixel(i, j) == self@.pixel(left + i, j),
                decreases width - x,
            {
                proof {
                    lemma_offset_in_range(self@, left + x, y as int);
                    assert(y * self.width >= 0) by (nonlinear_arith)
                        requires
                            y >= 0,
                            self.width >= 0,
                    ;
                    assert(self.samples@.len() == self.samples.len());
                }
                let at: usize = 4 * ((y as usize) * (self.width as usize) + (left as usize) + (
                x as usize));
                let ghost before = samples@;
                samples.push(self.samples[at]);
                samples.push(self.samples[at + 1]);
                samples.push(self.samples[at + 2]);
                samples.push(self.samples[at + 3]);
                proof {
                    let old_view = RasterView {
                        width: width as nat,
                        height: self.height as nat,
                        samples: before,
                    };
                    let new_view = RasterView {
                        width: width as nat,
                        height: self.height as nat,
                        samples: samples@,
                    };
                    assert forall|i: int, j: int|
                        0 <= i < width && 0 <= j && #[trigger] comes_before(
                            i,
                            j,
                            x as int + 1,
                            y as int,
                        ) implies new_view.pixel(i, j) == self@.pixel(left + i, j) by {
                        if comes_before(i, j, x as int, y as int) {
                            lemma_offset_monotonic(width as int, i, j, x as int, y as int);
                            assert(new_view.pixel(i, j) == old_view.pixel(i, j));
                        } else {
                            assert(i == x && j == y);
                        }
                    }
                }
                x += 1;
            }
            proof {
                assert((y + 1) * width + 0 == y * width + width) by (nonlinear_arith);
                assert forall|i: int, j: int|
                    0 <= i < width && 0 <= j && #[trigger] comes_before(
                        i,
                        j,
                        0,
                        y as int + 1,
                    ) implies comes_before(i, j, width as int, y as int) by {}
            }
            y += 1;
        }
        proof {
            assert(4 * (y * width + 0) == 4 * (width as nat) * (self.height as nat))
                by (nonlinear_arith)
                requires
                    y == self.height,
            ;
        }
        let window = Raster { width, height: self.height, samples };
        proof {
            assert forall|i: int, j: int| #[trigger] window@.contains(i, j) implies window@.pixel(
                i,
                j,
            ) == self@.pixel(left + i, j) by {
                assert(comes_before(i, j, 0, y as int));
            }
        }
        window
    }
}

} // verus!
