//! RGB frames the size of the board, and rectangular regions of them.
use vstd::prelude::*;

verus! {

/// A rectangle of the board: its top-left corner and its size, in pixels.
#[derive(Clone, Copy, Debug, PartialEq, Eq, Structural)]
pub struct Region {
    pub x: usize,
    pub y: usize,
    pub width: usize,
    pub height: usize,
}

/// Why a block of pixels could not be copied into a frame.
#[derive(Clone, Copy, Debug, PartialEq, Eq, Structural)]
pub enum FrameError {
    /// The pixel data is not three bytes for each pixel of the block.
    PixelCount,
    /// The block does not lie wholly inside the frame.
    OutOfBounds,
}

impl FrameError {
    /// The error as text.
    pub fn message(&self) -> (s: String)
        ensures
            s@ == frame_error_text(*self),
    {
        match self {
            FrameError::PixelCount => "画素データの大きさが合いません".to_string(),
            FrameError::OutOfBounds => "画像がフレームの外にはみ出しています".to_string(),
        }
    }
}

pub open spec fn frame_error_text(e: FrameError) -> Seq<char> {
    match e {
        FrameError::PixelCount => "画素データの大きさが合いません"@,
        FrameError::OutOfBounds => "画像がフレームの外にはみ出しています"@,
    }
}

/// An image of `width` x `height` pixels, each an RGB triple, held row by row.
#[derive(Clone, Debug, PartialEq, Eq)]
pub struct RgbFrame {
    width: usize,
    height: usize,
    rows: Vec<Vec<[u8; 3]>>,
}

/// A frame as its size and its pixels, `pixels[y][x]`.
pub struct FrameModel {
    pub width: usize,
    pub height: usize,
    pub pixels: Seq<Seq<[u8; 3]>>,
}

impl View for RgbFrame {
    type V = FrameModel;

    closed spec fn view(&self) -> FrameModel {
        FrameModel {
            width: self.width,
            height: self.height,
            pixels: self.rows@.map_values(|r: Vec<[u8; 3]>| r@),
        }
    }
}

/// The frame holds `height` rows of `width` pixels.
pub open spec fn frame_shaped(f: FrameModel) -> bool {
    &&& f.pixels.len() == f.height
    &&& forall|y: int| 0 <= y < f.height ==> #[trigger] f.pixels[y].len() == f.width
}

/// A frame of the given size, all black.
pub open spec fn black_frame(width: usize, height: usize) -> FrameModel {
    FrameModel {
        width,
        height,
        pixels: Seq::new(height as nat, |y: int| Seq::new(width as nat, |x: int| [0u8, 0u8, 0u8])),
    }
}

/// Pixel `(c, r)` of a block `w` pixels wide given as RGB bytes.
pub open spec fn block_pixel(pixels: Seq<u8>, w: int, c: int, r: int) -> [u8; 3] {
    let i = (r * w + c) * 3;
    [pixels[i], pixels[i + 1], pixels[i + 2]]
}

/// The frame after copying the `w` x `h` block `pixels` to `(x, y)`, or why not.
pub open spec fn blit_result(f: FrameModel, x: int, y: int, w: int, h: int, pixels: Seq<u8>) -> Result<
    FrameModel,
    FrameError,
> {
    if w * h * 3 != pixels.len() {
        Err(FrameError::PixelCount)
    } else if x < 0 || y < 0 || x + w > f.width || y + h > f.height {
        Err(FrameError::OutOfBounds)
    } else {
        Ok(
            FrameModel {
                pixels: Seq::new(
                    f.height as nat,
                    |py: int|
                        Seq::new(
                            f.width as nat,
                            |px: int|
                                if x <= px < x + w && y <= py < y + h {
                                    block_pixel(pixels, w, px - x, py - y)
                                } else {
                                    f.pixels[py][px]
                                },
                        ),
                ),
                ..f
            },
        )
    }
}

proof fn lemma_block_index(w: int, h: int, c: int, r: int)
    requires
        0 <= c < w,
        0 <= r < h,
    ensures
        0 <= r * w + c,
        (r * w + c) * 3 + 2 < w * h * 3,
{
    assert(r * w + c < w * h) by (nonlinear_arith)
        requires
            0 <= c < w,
            0 <= r < h,
    ;
    assert(0 <= r * w) by (nonlinear_arith)
        requires
            0 <= r,
            0 <= w,
    ;
}

impl RgbFrame {
    /// The frame is as many rows of as many pixels as its size says.
    pub open spec fn well_formed(&self) -> bool {
        frame_shaped(self@)
    }

    /// An all-black frame of `width` x `height` pixels.
    pub fn black(width: usize, height: usize) -> (f: RgbFrame)
        ensures
            f@ == black_frame(width, height),
            f.well_formed(),
    {
        let mut rows: Vec<Vec<[u8; 3]>> = Vec::new();
        let mut y: usize = 0;
        while y < height
            invariant
                y <= height,
                rows@.len() == y,
                forall|j: int| 0 <= j < y ==> #[trigger] rows@[j]@ == Seq::new(width as nat, |x: int| [0u8, 0u8, 0u8]),
            decreases height - y,
        {
            let mut row: Vec<[u8; 3]> = Vec::new();
            let mut x: usize = 0;
            while x < width
                invariant
                    x <= width,
                    row@ == Seq::new(x as nat, |i: int| [0u8, 0u8, 0u8]),
                decreases width - x,
            {
                row.push([0u8, 0u8, 0u8]);
                x += 1;
                assert(row@ =~= Seq::new(x as nat, |i: int| [0u8, 0u8, 0u8]));
            }
            rows.push(row);
            y += 1;
        }
        let f = RgbFrame { width, height, rows };
        assert(f@.pixels =~= black_frame(width, height).pixels);
        f
    }

    pub fn width(&self) -> (w: usize)
        ensures
            w == self@.width,
    {
        self.width
    }

    pub fn height(&self) -> (h: usize)
        ensures
            h == self@.height,
    {
        self.height
    }

    /// The colour of pixel `(x, y)`.
    pub fn pixel(&self, x: usize, y: usize) -> (c: [u8; 3])
        requires
            self.well_formed(),
            x < self@.width,
            y < self@.height,
        ensures
            c == self@.pixels[y as int][x as int],
    {
        assert(self@.pixels[y as int] == self.rows@[y as int]@);
        self.rows[y][x]
    }

    /// Sets pixel `(x, y)` to `color`.
    pub(crate) fn set_pixel(&mut self, x: usize, y: usize, color: [u8; 3])
        requires
            old(self).well_formed(),
            x < old(self)@.width,
            y < old(self)@.height,
        ensures
            final(self).well_formed(),
            final(self)@ == (FrameModel {
                pixels: old(self)@.pixels.update(
                    y as int,
                    old(self)@.pixels[y as int].update(x as int, color),
                ),
                ..old(self)@
            }),
    {
        self.rows[y].set(x, color);
        assert(self@.pixels =~= old(self)@.pixels.update(
            y as int,
            old(self)@.pixels[y as int].update(x as int, color),
        ));
    }

    /// Copies the `w` x `h` block of RGB bytes `pixels` to `(x, y)`.
    pub fn blit_rgb(&mut self, x: isize, y: isize, w: usize, h: usize, pixels: &[u8]) -> (r: Result<
        (),
        FrameError,
    >)
        requires
            old(self).well_formed(),
        ensures
            final(self).well_formed(),
            match blit_result(old(self)@, x as int, y as int, w as int, h as int, pixels@) {
                Ok(f) => r is Ok && final(self)@ == f,
                Err(e) => r == Err::<(), FrameError>(e) && final(self)@ == old(self)@,
            },
    {
        let ghost start = self@;
        let len = pixels.len();
        match w.checked_mul(h) {
            Some(n) => match n.checked_mul(3) {
                Some(m) => {
                    if m != len {
                        return Err(FrameError::PixelCount);
                    }
                },
                None => {
                    return Err(FrameError::PixelCount);
                },
            },
            None => {
                proof {
                    assert(w * h * 3 >= w * h) by (nonlinear_arith)
                        requires
                            w * h >= 0,
                    ;
                }
                return Err(FrameError::PixelCount);
            },
        }
        if x < 0 || y < 0 {
            return Err(FrameError::OutOfBounds);
        }
        let xu = x as usize;
        let yu = y as usize;
        if w > self.width || xu > self.width - w || h > self.height || yu > self.height - h {
            return Err(FrameError::OutOfBounds);
        }
        let ghost target = blit_result(start, x as int, y as int, w as int, h as int, pixels@)->Ok_0;
        let mut r: usize = 0;
        while r < h
            invariant
                self.well_formed(),
                r <= h,
                xu == x,
                yu == y,
                xu + w <= start.width,
                yu + h <= start.height,
                w * h * 3 == pixels@.len(),
                len == pixels@.len(),
                self@.width == start.width,
                self@.height == start.height,
                frame_shaped(start),
                target == blit_result(start, x as int, y as int, w as int, h as int, pixels@)->Ok_0,
                forall|py: int, px: int|
                    0 <= py < start.height && 0 <= px < start.width ==> #[trigger] self@.pixels[py][px]
                        == if yu <= py < yu + r && xu <= px < xu + w {
                        target.pixels[py][px]
                    } else {
                        start.pixels[py][px]
                    },
            decreases h - r,
        {
            let mut c: usize = 0;
            while c < w
                invariant
                    self.well_formed(),
                    r < h,
                    c <= w,
                    xu == x,
                    yu == y,
                    xu + w <= start.width,
                    yu + h <= start.height,
                    w * h * 3 == pixels@.len(),
                    len == pixels@.len(),
                    self@.width == start.width,
                    self@.height == start.height,
                    frame_shaped(start),
                    target == blit_result(start, x as int, y as int, w as int, h as int, pixels@)->Ok_0,
                    forall|py: int, px: int|
                        0 <= py < start.height && 0 <= px < start.width ==> #[trigger] self@.pixels[py][px]
                            == if (yu <= py < yu + r && xu <= px < xu + w) || (py == yu + r && xu
                            <= px < xu + c) {
                            target.pixels[py][px]
                        } else {
                            start.pixels[py][px]
                        },
                decreases w - c,
            {
                proof {
                    lemma_block_index(w as int, h as int, c as int, r as int);
                }
                let i = (r * w + c) * 3;
                let color = [pixels[i], pixels[i + 1], pixels[i + 2]];
                assert(color == block_pixel(pixels@, w as int, c as int, r as int));
                self.set_pixel(xu + c, yu + r, color);
                c += 1;
            }
            r += 1;
        }
        assert(self@.pixels =~= target.pixels) by {
            assert forall|py: int| 0 <= py < start.height implies #[trigger] self@.pixels[py] =~= target.pixels[py] by {
                assert forall|px: int| 0 <= px < start.width implies self@.pixels[py][px] == target.pixels[py][px] by {
                }
            }
        }
        Ok(())
    }
}

/// Copying a `w` x `h` block to `(x, y)` succeeds exactly when the block has
/// `w * h` RGB triples and lies inside the frame; then the pixel `c` to the
/// right of `x` and `r` below `y` takes the block's triple number `r * w + c`
/// (bytes `3 * (r * w + c)` to `3 * (r * w + c) + 2`, row after row), every
/// other pixel keeps its colour, and the frame keeps its size.
pub proof fn law_blit_places_block(f: FrameModel, x: int, y: int, w: int, h: int, pixels: Seq<u8>, c: int, r: int, px: int, py: int)
    requires
        frame_shaped(f),
        0 <= px < f.width,
        0 <= py < f.height,
    ensures
        blit_result(f, x, y, w, h, pixels) is Ok <==> (w * h * 3 == pixels.len() && 0 <= x && 0 <= y
            && x + w <= f.width && y + h <= f.height),
        blit_result(f, x, y, w, h, pixels) matches Ok(g) ==> {
            &&& g.width == f.width && g.height == f.height && frame_shaped(g)
            &&& (0 <= c < w && 0 <= r < h) ==> g.pixels[y + r][x + c] == [
                pixels[3 * (r * w + c)],
                pixels[3 * (r * w + c) + 1],
                pixels[3 * (r * w + c) + 2],
            ]
            &&& !(x <= px < x + w && y <= py < y + h) ==> g.pixels[py][px] == f.pixels[py][px]
        },
{
    if blit_result(f, x, y, w, h, pixels) is Ok {
        let g = blit_result(f, x, y, w, h, pixels)->Ok_0;
        assert(frame_shaped(g));
        if 0 <= c < w && 0 <= r < h {
            assert((r * w + c) * 3 == 3 * (r * w + c));
            assert(g.pixels[y + r][x + c] == block_pixel(pixels, w, c, r));
        }
    }
}

} // verus!
