use vstd::prelude::*;

use crate::error::AppError;

verus! {

/// A point in pixels.
#[derive(Clone, Copy, Debug, PartialEq, Eq, Structural)]
pub struct Point {
    pub x: i32,
    pub y: i32,
}

/// An axis-aligned rectangle: its top-left corner and its size in pixels.
#[derive(Clone, Copy, Debug, PartialEq, Eq, Structural)]
pub struct Rect {
    pub x: i32,
    pub y: i32,
    pub width: u32,
    pub height: u32,
}

impl Rect {
    /// The rectangle's edges are representable as `i32` coordinates.
    pub open spec fn fits(self) -> bool {
        &&& self.width <= i32::MAX
        &&& self.height <= i32::MAX
        &&& self.x + self.width <= i32::MAX
        &&& self.y + self.height <= i32::MAX
    }

    pub open spec fn spec_right(self) -> int {
        self.x + self.width
    }

    pub open spec fn spec_bottom(self) -> int {
        self.y + self.height
    }

    pub open spec fn spec_contains(self, p: Point) -> bool {
        self.x <= p.x < self.spec_right() && self.y <= p.y < self.spec_bottom()
    }

    /// The x coordinate just past the rectangle.
    pub fn right(self) -> (r: i32)
        requires
            self.fits(),
        ensures
            r == self.spec_right(),
    {
        self.x + self.width as i32
    }

    /// The y coordinate just past the rectangle.
    pub fn bottom(self) -> (r: i32)
        requires
            self.fits(),
        ensures
            r == self.spec_bottom(),
    {
        self.y + self.height as i32
    }

    /// The x coordinate of the centre, as `x + width as i32 / 2` gives it.
    pub open spec fn spec_center_x(self) -> int {
        self.x + signed_half(self.width)
    }

    /// The y coordinate of the centre, as `y + height as i32 / 2` gives it.
    pub open spec fn spec_center_y(self) -> int {
        self.y + signed_half(self.height)
    }

    /// Both coordinates of the centre are `i32` values.
    pub open spec fn center_fits(self) -> bool {
        &&& i32::MIN <= self.spec_center_x() <= i32::MAX
        &&& i32::MIN <= self.spec_center_y() <= i32::MAX
    }

    /// The centre, rounded towards the top-left corner.
    pub fn center(self) -> (c: Point)
        requires
            self.center_fits(),
        ensures
            c.x == self.spec_center_x(),
            c.y == self.spec_center_y(),
    {
        Point { x: self.x + half_extent(self.width), y: self.y + half_extent(self.height) }
    }

    /// Whether the point lies inside the rectangle (right and bottom edges excluded).
    pub fn contains(self, point: Point) -> (b: bool)
        requires
            self.fits(),
        ensures
            b == self.spec_contains(point),
    {
        point.x >= self.x && point.x < self.right() && point.y >= self.y && point.y < self.bottom()
    }
}


/// Half of an extent as `extent as i32 / 2` computes it: an extent above `i32::MAX`
/// reads as the negative `i32` with the same bits, and halving rounds towards zero.
pub open spec fn signed_half(extent: u32) -> int {
    if extent <= 0x7fff_ffff {
        extent as int / 2
    } else {
        -((0x1_0000_0000 - extent as int) / 2)
    }
}

/// Halves an extent read as an `i32`.
pub fn half_extent(extent: u32) -> (h: i32)
    ensures
        h == signed_half(extent),
{
    if extent <= 0x7fff_ffff {
        (extent / 2) as i32
    } else {
        let magnitude: u64 = (0x1_0000_0000u64 - extent as u64) / 2;
        -(magnitude as i32)
    }
}

/// The byte of channel `c` of the pixel at position `p` in row-major order.
pub open spec fn flat_channel(bytes: Seq<u8>, p: int, c: int) -> u8 {
    bytes[p * 4 + c]
}

/// The byte of channel `c` of pixel `(x, y)` in a row-major image `width` pixels wide.
pub open spec fn channel(bytes: Seq<u8>, width: int, x: int, y: int, c: int) -> u8 {
    flat_channel(bytes, y * width + x, c)
}

pub open spec fn max_int(a: int, b: int) -> int {
    if a >= b { a } else { b }
}

pub open spec fn min_int(a: int, b: int) -> int {
    if a <= b { a } else { b }
}

/// A pixel `(x, y)` of a `width × height` image has a row-major position inside the image.
pub proof fn lemma_pixel_position(width: int, height: int, x: int, y: int)
    requires
        0 <= x < width,
        0 <= y < height,
    ensures
        0 <= y * width + x < width * height,
        0 <= (y * width + x) * 4 + 3 < width * height * 4,
{
    assert(0 <= y * width) by (nonlinear_arith)
        requires
            0 <= y,
            0 < width,
    ;
    assert(y * width + x < width * height) by (nonlinear_arith)
        requires
            0 <= x < width,
            0 <= y < height,
    ;
}

/// Row-major positions grow with the row, then with the column.
pub proof fn lemma_position_order(width: int, x1: int, y1: int, x2: int, y2: int)
    requires
        0 <= x1 < width,
        0 <= x2 < width,
        0 <= y1,
        y1 < y2 || (y1 == y2 && x1 < x2),
    ensures
        y1 * width + x1 < y2 * width + x2,
{
    if y1 < y2 {
        assert(y1 * width + width <= y2 * width) by (nonlinear_arith)
            requires
                y1 < y2,
                0 < width,
        ;
    }
}

/// The next position after the last pixel of a row is the first pixel of the next row.
pub proof fn lemma_next_row(width: int, y: int)
    ensures
        y * width + width == (y + 1) * width,
{
    assert(y * width + width == (y + 1) * width) by (nonlinear_arith);
}

/// The brightest of three channel values.
pub open spec fn max3(a: u8, b: u8, c: u8) -> u8 {
    if a >= b {
        if a >= c { a } else { c }
    } else {
        if b >= c { b } else { c }
    }
}

/// The darkest of three channel values.
pub open spec fn min3(a: u8, b: u8, c: u8) -> u8 {
    if a <= b {
        if a <= c { a } else { c }
    } else {
        if b <= c { b } else { c }
    }
}

/// A pixel reads as text when it is bright and nearly grey.
pub open spec fn is_text_color(blue: u8, green: u8, red: u8) -> bool {
    max3(red, green, blue) >= 115 && max3(red, green, blue) - min3(red, green, blue) <= 90
}

/// Channel `c` of the high-contrast rendering of a pixel: black text on white, opaque.
pub open spec fn contrast_byte(blue: u8, green: u8, red: u8, c: int) -> u8 {
    if c == 3 {
        255
    } else if is_text_color(blue, green, red) {
        0
    } else {
        255
    }
}

/// A captured image: its top-left corner on screen, its size, and its pixels as
/// blue, green, red and alpha bytes in row-major order.
#[derive(Clone, Debug, PartialEq, Eq)]
pub struct Frame {
    pub origin: Point,
    pub width: u32,
    pub height: u32,
    pub bgra: Vec<u8>,
}

impl Frame {
    /// A non-empty image with four bytes for each pixel.
    pub open spec fn wf(&self) -> bool {
        &&& self.width > 0
        &&& self.height > 0
        &&& self.bgra@.len() == self.width * self.height * 4
    }

    /// Channel `c` (0 blue, 1 green, 2 red, 3 alpha) of pixel `(x, y)`.
    pub open spec fn byte(&self, x: int, y: int, c: int) -> u8 {
        channel(self.bgra@, self.width as int, x, y, c)
    }

    /// Builds a frame; refuses an empty size or a byte count other than four per pixel.
    pub fn new(origin: Point, width: u32, height: u32, bgra: Vec<u8>) -> (r: Result<Frame, AppError>)
        ensures
            (r is Ok) <==> (width > 0 && height > 0 && bgra@.len() == width * height * 4),
            r matches Ok(f) ==> f.wf() && f.origin == origin && f.width == width && f.height
                == height && f.bgra@ == bgra@,
            r matches Err(e) ==> e == (AppError::InvalidImage {
                width,
                height,
                bytes: bgra@.len() as usize,
            }),
    {
        proof {
            assert(width * height <= u32::MAX * u32::MAX) by (nonlinear_arith)
                requires
                    width <= u32::MAX,
                    height <= u32::MAX,
            ;
        }
        let expected: u128 = width as u128 * height as u128 * 4;
        if width == 0 || height == 0 || bgra.len() as u128 != expected {
            return Err(AppError::InvalidImage { width, height, bytes: bgra.len() });
        }
        Ok(Frame { origin, width, height, bgra })
    }

    /// The four bytes of pixel `(x, y)`.
    pub fn pixel(&self, x: u32, y: u32) -> (p: [u8; 4])
        requires
            self.wf(),
            x < self.width,
            y < self.height,
        ensures
            forall|c: int| 0 <= c < 4 ==> p@[c] == self.byte(x as int, y as int, c),
    {
        proof {
            lemma_pixel_position(self.width as int, self.height as int, x as int, y as int);
        }
        let length = self.bgra.len();
        let offset = (y as usize * self.width as usize + x as usize) * 4;
        [self.bgra[offset], self.bgra[offset + 1], self.bgra[offset + 2], self.bgra[offset + 3]]
    }

    /// The rectangle lies inside the frame.
    pub open spec fn spec_holds(&self, rect: Rect) -> bool {
        &&& rect.x >= 0
        &&& rect.y >= 0
        &&& rect.spec_right() <= self.width
        &&& rect.spec_bottom() <= self.height
    }

    /// Copies the pixels under `rect` into a new frame whose origin is moved by the
    /// rectangle's corner.
    pub fn crop(&self, rect: Rect) -> (r: Result<Frame, AppError>)
        requires
            self.wf(),
            self.width <= i32::MAX,
            self.height <= i32::MAX,
            rect.fits(),
            self.spec_holds(rect) ==> i32::MIN <= self.origin.x + rect.x <= i32::MAX,
            self.spec_holds(rect) ==> i32::MIN <= self.origin.y + rect.y <= i32::MAX,
        ensures
            !self.spec_holds(rect) ==> r == Err::<Frame, AppError>(
                AppError::InvalidCrop { x: rect.x, y: rect.y, width: rect.width, height: rect.height },
            ),
            self.spec_holds(rect) && (rect.width == 0 || rect.height == 0) ==> r == Err::<
                Frame,
                AppError,
            >(AppError::InvalidImage { width: rect.width, height: rect.height, bytes: 0 }),
            self.spec_holds(rect) && rect.width > 0 && rect.height > 0 ==> r is Ok,
            r matches Ok(f) ==> {
                &&& f.wf()
                &&& f.origin == Point { x: (self.origin.x + rect.x) as i32, y: (self.origin.y + rect.y) as i32 }
                &&& f.width == rect.width
                &&& f.height == rect.height
                &&& forall|x: int, y: int, c: int|
                    0 <= x < rect.width && 0 <= y < rect.height && 0 <= c < 4 ==> #[trigger] f.byte(x, y, c)
                        == self.byte(rect.x + x, rect.y + y, c)
            },
            r matches Ok(f) ==> is_crop_of(f, *self, rect),
    {
        if rect.x < 0 || rect.y < 0 || rect.right() > self.width as i32 || rect.bottom()
            > self.height as i32 {
            return Err(
                AppError::InvalidCrop { x: rect.x, y: rect.y, width: rect.width, height: rect.height },
            );
        }
        let source_width = self.width as usize;
        let left = rect.x as usize;
        let top = rect.y as usize;
        let width = rect.width as usize;
        let height = rect.height as usize;
        let length = self.bgra.len();
        let mut bgra: Vec<u8> = Vec::new();
        let mut row: usize = 0;
        while row < height
            invariant
                self.wf(),
                length == self.bgra@.len(),
                source_width == self.width,
                left == rect.x,
                top == rect.y,
                width == rect.width,
                height == rect.height,
                self.spec_holds(rect),
                0 <= row <= height,
                bgra@.len() == row * width * 4,
                forall|x: int, y: int, c: int|
                    0 <= x < width && 0 <= y < row && 0 <= c < 4 ==> #[trigger] channel(
                        bgra@,
                        width as int,
                        x,
                        y,
                        c,
                    ) == self.byte(left + x, top + y, c),
            decreases height - row,
        {
            let mut column: usize = 0;
            proof {
                assert((row * width + 0) * 4 == row * width * 4);
            }
            while column < width
                invariant
                    self.wf(),
                    length == self.bgra@.len(),
                    source_width == self.width,
                    left == rect.x,
                    top == rect.y,
                    width == rect.width,
                    height == rect.height,
                    self.spec_holds(rect),
                    0 <= row < height,
                    0 <= column <= width,
                    bgra@.len() == (row * width + column) * 4,
                    forall|x: int, y: int, c: int|
                        0 <= x < width && 0 <= y && (y < row || (y == row && x < column)) && 0 <= c
                            < 4 ==> #[trigger] channel(bgra@, width as int, x, y, c) == self.byte(
                            left + x,
                            top + y,
                            c,
                        ),
                decreases width - column,
            {
                proof {
                    lemma_pixel_position(
                        self.width as int,
                        self.height as int,
                        (left + column) as int,
                        (top + row) as int,
                    );
                }
                let start = ((top + row) * source_width + left + column) * 4;
                let ghost before = bgra@;
                bgra.push(self.bgra[start]);
                bgra.push(self.bgra[start + 1]);
                bgra.push(self.bgra[start + 2]);
                bgra.push(self.bgra[start + 3]);
                proof {
                    assert forall|x: int, y: int, c: int|
                        0 <= x < width && 0 <= y && (y < row || (y == row && x < column + 1)) && 0
                            <= c < 4 implies #[trigger] channel(bgra@, width as int, x, y, c)
                        == self.byte(left + x, top + y, c) by {
                        if y < row || x < column {
                            lemma_position_order(width as int, x, y, column as int, row as int);
                            assert(channel(bgra@, width as int, x, y, c) == channel(
                                before,
                                width as int,
                                x,
                                y,
                                c,
                            ));
                        }
                    }
                }
                column += 1;
            }
            proof {
                lemma_next_row(width as int, row as int);
            }
            row += 1;
        }
        proof {
            lemma_next_row(width as int, (height - 1) as int);
            assert(bgra@.len() == rect.width * rect.height * 4) by (nonlinear_arith)
                requires
                    bgra@.len() == row * width * 4,
                    row == height,
                    height == rect.height,
                    width == rect.width,
            ;
        }
        Frame::new(
            Point { x: self.origin.x + rect.x, y: self.origin.y + rect.y },
            rect.width,
            rect.height,
            bgra,
        )
    }

    /// Enlarges the frame `factor` times, each output pixel repeating the source pixel it
    /// falls on.
    pub fn scale_nearest(&self, factor: u32) -> (r: Result<Frame, AppError>)
        requires
            self.wf(),
            self.width * factor <= u32::MAX,
            self.height * factor <= u32::MAX,
            self.width * factor * (self.height * factor) * 4 <= usize::MAX,
        ensures
            factor == 0 ==> r == Err::<Frame, AppError>(
                AppError::InvalidImage { width: 0, height: 0, bytes: 0 },
            ),
            factor > 0 ==> r is Ok,
            r matches Ok(f) ==> {
                &&& f.wf()
                &&& f.origin == self.origin
                &&& f.width == self.width * factor
                &&& f.height == self.height * factor
                &&& forall|x: int, y: int, c: int|
                    0 <= x < f.width && 0 <= y < f.height && 0 <= c < 4 ==> #[trigger] f.byte(x, y, c)
                        == self.byte(x / factor as int, y / factor as int, c)
            },
    {
        let width = self.width * factor;
        let height = self.height * factor;
        let source_width = self.width as usize;
        let length = self.bgra.len();
        let mut bgra: Vec<u8> = Vec::new();
        let mut row: u32 = 0;
        while row < height
            invariant
                self.wf(),
                length == self.bgra@.len(),
                source_width == self.width,
                width == self.width * factor,
                height == self.height * factor,
                0 <= row <= height,
                bgra@.len() == row * width * 4,
                forall|x: int, y: int, c: int|
                    0 <= x < width && 0 <= y < row && 0 <= c < 4 ==> #[trigger] channel(
                        bgra@,
                        width as int,
                        x,
                        y,
                        c,
                    ) == self.byte(x / factor as int, y / factor as int, c),
            decreases height - row,
        {
            proof {
                assert(factor > 0) by (nonlinear_arith)
                    requires
                        row < height,
                        height == self.height * factor,
                ;
                assert(row / factor < self.height) by (nonlinear_arith)
                    requires
                        row < self.height * factor,
                        factor > 0,
                ;
            }
            let source_row = row / factor;
            let mut column: u32 = 0;
            proof {
                assert((row * width + 0) * 4 == row * width * 4);
            }
            while column < width
                invariant
                    self.wf(),
                    length == self.bgra@.len(),
                    source_width == self.width,
                    width == self.width * factor,
                    height == self.height * factor,
                    factor > 0,
                    0 <= row < height,
                    source_row == row / factor,
                    source_row < self.height,
                    0 <= column <= width,
                    bgra@.len() == (row * width + column) * 4,
                    forall|x: int, y: int, c: int|
                        0 <= x < width && 0 <= y && (y < row || (y == row && x < column)) && 0 <= c
                            < 4 ==> #[trigger] channel(bgra@, width as int, x, y, c) == self.byte(
                            x / factor as int,
                            y / factor as int,
                            c,
                        ),
                decreases width - column,
            {
                proof {
                    assert(column / factor < self.width) by (nonlinear_arith)
                        requires
                            column < self.width * factor,
                            factor > 0,
                    ;
                }
                let source_column = column / factor;
                proof {
                    lemma_pixel_position(
                        self.width as int,
                        self.height as int,
                        source_column as int,
                        source_row as int,
                    );
                }
                let start = (source_row as usize * source_width + source_column as usize) * 4;
                let ghost before = bgra@;
                bgra.push(self.bgra[start]);
                bgra.push(self.bgra[start + 1]);
                bgra.push(self.bgra[start + 2]);
                bgra.push(self.bgra[start + 3]);
                proof {
                    assert forall|x: int, y: int, c: int|
                        0 <= x < width && 0 <= y && (y < row || (y == row && x < column + 1)) && 0
                            <= c < 4 implies #[trigger] channel(bgra@, width as int, x, y, c)
                        == self.byte(x / factor as int, y / factor as int, c) by {
                        if y < row || x < column {
                            lemma_position_order(width as int, x, y, column as int, row as int);
                            assert(channel(bgra@, width as int, x, y, c) == channel(
                                before,
                                width as int,
                                x,
                                y,
                                c,
                            ));
                        }
                    }
                }
                column += 1;
            }
            proof {
                lemma_next_row(width as int, row as int);
            }
            row += 1;
        }
        proof {
            assert(bgra@.len() == width * height * 4) by (nonlinear_arith)
                requires
                    bgra@.len() == row * width * 4,
                    row == height,
            ;
            if factor > 0 {
                assert(width > 0 && height > 0) by (nonlinear_arith)
                    requires
                        width == self.width * factor,
                        height == self.height * factor,
                        self.width > 0,
                        self.height > 0,
                        factor > 0,
                ;
            }
        }
        Frame::new(self.origin, width, height, bgra)
    }

    /// Turns bright, weakly coloured pixels (text) black and everything else white.
    pub fn high_contrast_text(&self) -> (r: Result<Frame, AppError>)
        requires
            self.wf(),
        ensures
            r matches Ok(f) && f.wf() && f.origin == self.origin && f.width == self.width
                && f.height == self.height && forall|x: int, y: int, c: int|
                0 <= x < self.width && 0 <= y < self.height && 0 <= c < 4 ==> #[trigger] f.byte(
                    x,
                    y,
                    c,
                ) == contrast_byte(self.byte(x, y, 0), self.byte(x, y, 1), self.byte(x, y, 2), c),
    {
        let length = self.bgra.len();
        let pixels = length / 4;
        let mut bgra: Vec<u8> = Vec::new();
        let mut position: usize = 0;
        while position < pixels
            invariant
                self.wf(),
                length == self.bgra@.len(),
                pixels == length / 4,
                pixels * 4 == length,
                0 <= position <= pixels,
                bgra@.len() == position * 4,
                forall|p: int, c: int|
                    0 <= p < position && 0 <= c < 4 ==> #[trigger] flat_channel(bgra@, p, c)
                        == contrast_byte(
                        flat_channel(self.bgra@, p, 0),
                        flat_channel(self.bgra@, p, 1),
                        flat_channel(self.bgra@, p, 2),
                        c,
                    ),
            decreases pixels - position,
        {
            let blue = self.bgra[position * 4];
            let green = self.bgra[position * 4 + 1];
            let red = self.bgra[position * 4 + 2];
            let maximum = if red >= green {
                if red >= blue { red } else { blue }
            } else {
                if green >= blue { green } else { blue }
            };
            let minimum = if red <= green {
                if red <= blue { red } else { blue }
            } else {
                if green <= blue { green } else { blue }
            };
            let is_text = maximum >= 115 && maximum - minimum <= 90;
            let value: u8 = if is_text { 0 } else { 255 };
            let ghost before = bgra@;
            bgra.push(value);
            bgra.push(value);
            bgra.push(value);
            bgra.push(255);
            proof {
                assert forall|p: int, c: int|
                    0 <= p < position + 1 && 0 <= c < 4 implies #[trigger] flat_channel(bgra@, p, c)
                    == contrast_byte(
                    flat_channel(self.bgra@, p, 0),
                    flat_channel(self.bgra@, p, 1),
                    flat_channel(self.bgra@, p, 2),
                    c,
                ) by {
                    if p < position {
                        assert(flat_channel(bgra@, p, c) == flat_channel(before, p, c));
                    }
                }
            }
            position += 1;
        }
        proof {
            assert forall|x: int, y: int, c: int|
                0 <= x < self.width && 0 <= y < self.height && 0 <= c < 4 implies #[trigger] channel(
                bgra@,
                self.width as int,
                x,
                y,
                c,
            ) == contrast_byte(self.byte(x, y, 0), self.byte(x, y, 1), self.byte(x, y, 2), c) by {
                lemma_pixel_position(self.width as int, self.height as int, x, y);
            }
        }
        Frame::new(self.origin, self.width, self.height, bgra)
    }
}

/// `g` is the part of `f` under `rect`, its origin moved by the rectangle's corner: what
/// a successful `crop` returns.
pub open spec fn is_crop_of(g: Frame, f: Frame, rect: Rect) -> bool {
    &&& f.wf()
    &&& rect.fits()
    &&& f.spec_holds(rect)
    &&& rect.width > 0 && rect.height > 0
    &&& i32::MIN <= f.origin.x + rect.x <= i32::MAX
    &&& i32::MIN <= f.origin.y + rect.y <= i32::MAX
    &&& g.wf()
    &&& g.origin == Point { x: (f.origin.x + rect.x) as i32, y: (f.origin.y + rect.y) as i32 }
    &&& g.width == rect.width
    &&& g.height == rect.height
    &&& forall|x: int, y: int, c: int|
        0 <= x < rect.width && 0 <= y < rect.height && 0 <= c < 4 ==> #[trigger] g.byte(x, y, c) == f.byte(
            rect.x + x,
            rect.y + y,
            c,
        )
}

/// Two frames with the same origin, size and bytes.
pub open spec fn same_frame(a: Frame, b: Frame) -> bool {
    &&& a.origin == b.origin
    &&& a.width == b.width
    &&& a.height == b.height
    &&& a.bgra@ == b.bgra@
}

/// Every byte of a frame is channel `c` of some pixel `(x, y)`.
proof fn lemma_byte_position(width: int, height: int, i: int) -> (p: (int, int, int))
    requires
        width > 0,
        height > 0,
        0 <= i < width * height * 4,
    ensures
        0 <= p.0 < width,
        0 <= p.1 < height,
        0 <= p.2 < 4,
        i == (p.1 * width + p.0) * 4 + p.2,
{
    let q = i / 4;
    let c = i % 4;
    assert(q < width * height);
    let y = q / width;
    let x = q % width;
    assert(q == y * width + x) by (nonlinear_arith)
        requires
            width > 0,
            y == q / width,
            x == q % width,
    ;
    assert(0 <= x < width) by (nonlinear_arith)
        requires
            width > 0,
            x == q % width,
    ;
    assert(0 <= y < height) by (nonlinear_arith)
        requires
            width > 0,
            0 <= q < width * height,
            y == q / width,
    ;
    (x, y, c)
}

/// Frames of one size whose pixels agree hold the same bytes.
proof fn lemma_same_pixels_same_bytes(a: Frame, b: Frame)
    requires
        a.wf(),
        b.wf(),
        a.width == b.width,
        a.height == b.height,
        forall|x: int, y: int, c: int|
            0 <= x < a.width && 0 <= y < a.height && 0 <= c < 4 ==> #[trigger] a.byte(x, y, c) == b.byte(x, y, c),
    ensures
        a.bgra@ == b.bgra@,
{
    assert forall|i: int| 0 <= i < a.bgra@.len() implies a.bgra@[i] == b.bgra@[i] by {
        let p = lemma_byte_position(a.width as int, a.height as int, i);
        assert(a.byte(p.0, p.1, p.2) == b.byte(p.0, p.1, p.2));
    }
    assert(a.bgra@ =~= b.bgra@);
}

/// A crop of a frame is determined by the frame and the rectangle.
pub proof fn lemma_crop_is_unique(f: Frame, g1: Frame, g2: Frame, rect: Rect)
    requires
        is_crop_of(g1, f, rect),
        is_crop_of(g2, f, rect),
    ensures
        same_frame(g1, g2),
{
    assert forall|x: int, y: int, c: int|
        0 <= x < g1.width && 0 <= y < g1.height && 0 <= c < 4 implies #[trigger] g1.byte(x, y, c) == g2.byte(x, y, c) by {
        assert(g1.byte(x, y, c) == f.byte(rect.x + x, rect.y + y, c));
        assert(g2.byte(x, y, c) == f.byte(rect.x + x, rect.y + y, c));
    }
    lemma_same_pixels_same_bytes(g1, g2);
}

/// Cropping a crop is one crop of the first frame, at the summed offsets with the second
/// rectangle's size.
pub proof fn lemma_crop_of_crop(f: Frame, g: Frame, h: Frame, outer: Rect, inner: Rect)
    requires
        is_crop_of(g, f, outer),
        is_crop_of(h, g, inner),
    ensures
        is_crop_of(
            h,
            f,
            Rect { x: (outer.x + inner.x) as i32, y: (outer.y + inner.y) as i32, width: inner.width, height: inner.height },
        ),
{
    let combined = Rect {
        x: (outer.x + inner.x) as i32,
        y: (outer.y + inner.y) as i32,
        width: inner.width,
        height: inner.height,
    };
    assert(combined.x == outer.x + inner.x);
    assert(combined.y == outer.y + inner.y);
    assert forall|x: int, y: int, c: int|
        0 <= x < combined.width && 0 <= y < combined.height && 0 <= c < 4 implies #[trigger] h.byte(x, y, c) == f.byte(
        combined.x + x,
        combined.y + y,
        c,
    ) by {
        assert(h.byte(x, y, c) == g.byte(inner.x + x, inner.y + y, c));
        assert(g.byte(inner.x + x, inner.y + y, c) == f.byte(outer.x + (inner.x + x), outer.y + (inner.y + y), c));
    }
}

/// Cropping the whole frame succeeds and gives the frame back.
pub proof fn lemma_whole_crop(f: Frame, g: Frame)
    requires
        f.wf(),
        f.width <= i32::MAX,
        f.height <= i32::MAX,
    ensures
        ({
            let whole = Rect { x: 0, y: 0, width: f.width, height: f.height };
            &&& whole.fits()
            &&& f.spec_holds(whole)
            &&& whole.width > 0 && whole.height > 0
            &&& is_crop_of(g, f, whole) ==> same_frame(g, f)
        }),
{
    let whole = Rect { x: 0, y: 0, width: f.width, height: f.height };
    if is_crop_of(g, f, whole) {
        assert forall|x: int, y: int, c: int|
            0 <= x < g.width && 0 <= y < g.height && 0 <= c < 4 implies #[trigger] g.byte(x, y, c) == f.byte(x, y, c) by {
            assert(g.byte(x, y, c) == f.byte(whole.x + x, whole.y + y, c));
        }
        lemma_same_pixels_same_bytes(g, f);
    }
}

/// The part of `rect` inside `[0, bounds_width) × [0, bounds_height)`, if it is not empty.
pub open spec fn spec_clamp_rect(rect: Rect, bounds_width: int, bounds_height: int) -> Option<Rect> {
    let left = max_int(rect.x as int, 0);
    let top = max_int(rect.y as int, 0);
    let right = min_int(rect.spec_right(), bounds_width);
    let bottom = min_int(rect.spec_bottom(), bounds_height);
    if right <= left || bottom <= top {
        None
    } else {
        Some(
            Rect {
                x: left as i32,
                y: top as i32,
                width: (right - left) as u32,
                height: (bottom - top) as u32,
            },
        )
    }
}

/// Cuts a rectangle down to the bounds of a `bounds_width × bounds_height` image.
pub fn clamp_rect(rect: Rect, bounds_width: u32, bounds_height: u32) -> (r: Option<Rect>)
    requires
        rect.fits(),
        bounds_width <= i32::MAX,
        bounds_height <= i32::MAX,
    ensures
        r == spec_clamp_rect(rect, bounds_width as int, bounds_height as int),
        r matches Some(c) ==> {
            &&& c.fits()
            &&& c.width > 0
            &&& c.height > 0
            &&& 0 <= c.x && c.spec_right() <= bounds_width
            &&& 0 <= c.y && c.spec_bottom() <= bounds_height
            &&& rect.x <= c.x && c.spec_right() <= rect.spec_right()
            &&& rect.y <= c.y && c.spec_bottom() <= rect.spec_bottom()
        },
{
    let left = if rect.x >= 0 { rect.x } else { 0 };
    let top = if rect.y >= 0 { rect.y } else { 0 };
    let rect_right = rect.right();
    let rect_bottom = rect.bottom();
    let right = if rect_right <= bounds_width as i32 { rect_right } else { bounds_width as i32 };
    let bottom = if rect_bottom <= bounds_height as i32 { rect_bottom } else { bounds_height as i32 };
    if right <= left || bottom <= top {
        return None;
    }
    Some(Rect { x: left, y: top, width: (right - left) as u32, height: (bottom - top) as u32 })
}

} // verus!
