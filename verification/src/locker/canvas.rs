//! Drawing on an RGBA canvas that keeps its transparency.

use vstd::prelude::*;

verus! {

/// The opacity of a pixel under another, in 255 parts.
pub open spec fn mixed_alpha(source: int, target: int) -> int {
    source + target * (255 - source) / 255
}

/// One channel of a color over the pixel at byte `at`.
pub open spec fn over(pixels: Seq<u8>, at: int, color: Seq<u8>, channel: int) -> u8 {
    let source = color[3] as int;
    let target = pixels[at + 3] as int;
    let alpha = mixed_alpha(source, target);
    if alpha == 0 {
        pixels[at + channel]
    } else if channel == 3 {
        alpha as u8
    } else {
        ((color[channel] * source + pixels[at + channel] * target * (255 - source) / 255) / alpha
            % 256) as u8
    }
}

/// Whether a canvas of this width holds the pixel at a column and row.
pub open spec fn holds(pixels: Seq<u8>, width: int, x: int, y: int) -> bool {
    &&& 0 <= x < width <= i32::MAX
    &&& 0 <= y <= i32::MAX
    &&& 4 * (y * width + x) + 4 <= pixels.len()
}

/// The canvas with a color over one pixel. Pixels off the canvas are left out.
pub open spec fn dotted(pixels: Seq<u8>, width: int, x: int, y: int, color: Seq<u8>) -> Seq<u8> {
    if holds(pixels, width, x, y) {
        Seq::new(
            pixels.len(),
            |index: int|
                if index / 4 == y * width + x {
                    over(pixels, 4 * (y * width + x), color, index % 4)
                } else {
                    pixels[index]
                },
        )
    } else {
        pixels
    }
}

proof fn lemma_channel_bounds(source: int, target: int, above: int, below: int)
    requires
        0 <= source <= 255,
        0 <= target <= 255,
        0 <= above <= 255,
        0 <= below <= 255,
    ensures
        0 <= target * (255 - source) <= 65_025,
        0 <= mixed_alpha(source, target) <= 255,
        0 <= above * source <= 65_025,
        0 <= below * target <= 65_025,
        0 <= below * target * (255 - source) <= 16_581_375,
{
    assert(0 <= target * (255 - source) <= 65_025) by (nonlinear_arith)
        requires
            0 <= source <= 255,
            0 <= target <= 255,
    ;
    assert(target * (255 - source) <= 255 * (255 - source)) by (nonlinear_arith)
        requires
            0 <= source <= 255,
            0 <= target <= 255,
    ;
    assert(0 <= above * source <= 65_025) by (nonlinear_arith)
        requires
            0 <= source <= 255,
            0 <= above <= 255,
    ;
    assert(0 <= below * target <= 65_025) by (nonlinear_arith)
        requires
            0 <= below <= 255,
            0 <= target <= 255,
    ;
    assert(0 <= below * target * (255 - source) <= 65_025 * 255) by (nonlinear_arith)
        requires
            0 <= below * target <= 65_025,
            0 <= 255 - source <= 255,
    ;
}

fn mix(source: u8, source_alpha: u8, target: u8, target_alpha: u8, alpha: u32) -> (channel: u8)
    requires
        alpha == mixed_alpha(source_alpha as int, target_alpha as int),
        alpha > 0,
    ensures
        channel == ((source * source_alpha + target * target_alpha * (255 - source_alpha) / 255)
            / alpha as int % 256) as u8,
{
    proof {
        lemma_channel_bounds(
            source_alpha as int,
            target_alpha as int,
            source as int,
            target as int,
        );
    }
    let rest: u32 = 255 - source_alpha as u32;
    let under: u32 = target as u32 * target_alpha as u32 * rest / 255;
    let premultiplied: u32 = source as u32 * source_alpha as u32 + under;
    (premultiplied / alpha % 256) as u8
}

/// Draws one pixel. Pixels off the canvas are left out.
pub fn blend_pixel(pixels: &mut [u8], width: u32, x: i32, y: i32, source: [u8; 4])
    ensures
        final(pixels)@ == dotted(old(pixels)@, width as int, x as int, y as int, source@),
{
    let length: usize = pixels.len();
    if x < 0 || y < 0 || width > 0x7fff_ffff || x as u32 >= width {
        return;
    }
    assert(0 <= y * width <= 0x7fff_ffff * 0x7fff_ffff) by (nonlinear_arith)
        requires
            0 <= y <= 0x7fff_ffff,
            0 <= width <= 0x7fff_ffff,
    ;
    let pixel: u64 = y as u64 * width as u64 + x as u64;
    if pixel * 4 + 4 > length as u64 {
        return;
    }
    let index: usize = (pixel * 4) as usize;
    let source_alpha: u8 = source[3];
    let target_alpha: u8 = pixels[index + 3];
    proof {
        lemma_channel_bounds(source_alpha as int, target_alpha as int, 0, 0);
    }
    let alpha: u32 = source_alpha as u32 + target_alpha as u32 * (255 - source_alpha as u32) / 255;
    if alpha == 0 {
        assert(pixels@ =~= dotted(pixels@, width as int, x as int, y as int, source@));
        return;
    }
    let red: u8 = mix(source[0], source_alpha, pixels[index], target_alpha, alpha);
    let green: u8 = mix(source[1], source_alpha, pixels[index + 1], target_alpha, alpha);
    let blue: u8 = mix(source[2], source_alpha, pixels[index + 2], target_alpha, alpha);
    pixels[index] = red;
    pixels[index + 1] = green;
    pixels[index + 2] = blue;
    pixels[index + 3] = alpha as u8;
    assert(pixels@ =~= dotted(old(pixels)@, width as int, x as int, y as int, source@));
}

// ---------------------------------------------------------------------------
// Shapes
// ---------------------------------------------------------------------------

/// A filled shape.
#[derive(Clone, Copy, Debug, PartialEq, Eq, Structural)]
pub enum Shape {
    Circle { center_x: u32, center_y: u32, radius: u32 },
    RoundedRect { x: u32, y: u32, width: u32, height: u32, radius: u32 },
}

/// The larger of a difference and zero.
pub open spec fn above_zero(value: int) -> int {
    if value < 0 {
        0
    } else {
        value
    }
}

/// A sum, at most the largest word.
pub open spec fn capped(value: int) -> int {
    if value > u32::MAX {
        u32::MAX as int
    } else {
        value
    }
}

/// How far a position lies inside the rounded end of a side.
pub open spec fn into_corner(local: int, size: int, radius: int) -> int {
    if local < radius {
        radius - 1 - local
    } else {
        above_zero(local - (size - radius))
    }
}

/// The smallest of three numbers.
pub open spec fn smallest(first: int, second: int, third: int) -> int {
    if first <= second && first <= third {
        first
    } else if second <= third {
        second
    } else {
        third
    }
}

impl Shape {
    /// The columns and rows that a shape may touch: from the first, up to but
    /// not including the second.
    pub open spec fn bounds(self) -> ((int, int), (int, int)) {
        match self {
            Shape::Circle { center_x, center_y, radius } => (
                (above_zero(center_x - radius), capped(center_x + radius)),
                (above_zero(center_y - radius), capped(center_y + radius)),
            ),
            Shape::RoundedRect { x, y, width, height, .. } => (
                (x as int, capped(x + width)),
                (y as int, capped(y + height)),
            ),
        }
    }

    /// Whether a shape covers the pixel at a column and row.
    pub open spec fn covers(self, column: int, row: int) -> bool {
        let ((left, right), (top, bottom)) = self.bounds();
        &&& left <= column < right
        &&& top <= row < bottom
        &&& match self {
            Shape::Circle { center_x, center_y, radius } => {
                let dx = column - center_x;
                let dy = row - center_y;
                dx * dx + dy * dy <= radius * radius
            },
            Shape::RoundedRect { x, y, width, height, radius } => {
                let radius = smallest(radius as int, width as int / 2, height as int / 2);
                let dx = into_corner(column - x, width as int, radius);
                let dy = into_corner(row - y, height as int, radius);
                dx * dx + dy * dy <= radius * radius
            },
        }
    }
}

/// The canvas with a shape of one color over it.
pub open spec fn painted(pixels: Seq<u8>, width: int, shape: Shape, color: Seq<u8>) -> Seq<u8> {
    Seq::new(
        pixels.len(),
        |index: int|
            {
                let column = index / 4 % width;
                let row = index / 4 / width;
                if shape.covers(column, row) && holds(pixels, width, column, row) {
                    over(pixels, index - index % 4, color, index % 4)
                } else {
                    pixels[index]
                }
            },
    )
}

/// The canvas after the rows before `row` and, of that row, the columns before
/// `column` were painted.
spec fn painted_until(
    pixels: Seq<u8>,
    width: int,
    shape: Shape,
    color: Seq<u8>,
    row: int,
    column: int,
) -> Seq<u8> {
    Seq::new(
        pixels.len(),
        |index: int|
            {
                let at_column = index / 4 % width;
                let at_row = index / 4 / width;
                if shape.covers(at_column, at_row) && holds(pixels, width, at_column, at_row) && (
                at_row < row || (at_row == row && at_column < column)) {
                    over(pixels, index - index % 4, color, index % 4)
                } else {
                    pixels[index]
                }
            },
    )
}

fn square(value: u32) -> (squared: u128)
    ensures
        squared == value * value,
{
    assert(0 <= value * value <= 0xffff_ffff * 0xffff_ffff) by (nonlinear_arith)
        requires
            0 <= value <= 0xffff_ffff,
    ;
    value as u128 * value as u128
}

fn distance(left: u32, right: u32) -> (between: u32)
    ensures
        between == left - right || between == right - left,
{
    if left >= right {
        left - right
    } else {
        right - left
    }
}

fn corner(local: u32, size: u32, radius: u32) -> (inside: u32)
    requires
        radius <= size,
    ensures
        inside == into_corner(local as int, size as int, radius as int),
{
    if local < radius {
        radius - 1 - local
    } else {
        local.saturating_sub(size - radius)
    }
}

impl Shape {
    fn is_covering(self, column: u32, row: u32) -> (covering: bool)
        requires
            ({
                let ((left, right), (top, bottom)) = self.bounds();
                left <= column < right && top <= row < bottom
            }),
        ensures
            covering == self.covers(column as int, row as int),
    {
        match self {
            Shape::Circle { center_x, center_y, radius } => {
                let dx: u32 = distance(column, center_x);
                let dy: u32 = distance(row, center_y);
                assert((column - center_x) * (column - center_x) == dx * dx) by (nonlinear_arith)
                    requires
                        dx == column - center_x || dx == center_x - column,
                ;
                assert((row - center_y) * (row - center_y) == dy * dy) by (nonlinear_arith)
                    requires
                        dy == row - center_y || dy == center_y - row,
                ;
                assert(dx * dx <= 0xffff_ffff * 0xffff_ffff) by (nonlinear_arith)
                    requires
                        0 <= dx <= 0xffff_ffff,
                ;
                assert(dy * dy <= 0xffff_ffff * 0xffff_ffff) by (nonlinear_arith)
                    requires
                        0 <= dy <= 0xffff_ffff,
                ;
                square(dx) + square(dy) <= square(radius)
            },
            Shape::RoundedRect { x, y, width, height, radius } => {
                let radius: u32 = smaller(smaller(radius, width / 2), height / 2);
                let dx: u32 = corner(column - x, width, radius);
                let dy: u32 = corner(row - y, height, radius);
                assert(dx * dx <= 0xffff_ffff * 0xffff_ffff) by (nonlinear_arith)
                    requires
                        0 <= dx <= 0xffff_ffff,
                ;
                assert(dy * dy <= 0xffff_ffff * 0xffff_ffff) by (nonlinear_arith)
                    requires
                        0 <= dy <= 0xffff_ffff,
                ;
                square(dx) + square(dy) <= square(radius)
            },
        }
    }

    fn extent(self) -> (extent: ((u32, u32), (u32, u32)))
        ensures
            extent.0.0 == self.bounds().0.0,
            extent.0.1 == self.bounds().0.1,
            extent.1.0 == self.bounds().1.0,
            extent.1.1 == self.bounds().1.1,
    {
        match self {
            Shape::Circle { center_x, center_y, radius } => (
                (center_x.saturating_sub(radius), center_x.saturating_add(radius)),
                (center_y.saturating_sub(radius), center_y.saturating_add(radius)),
            ),
            Shape::RoundedRect { x, y, width, height, .. } => (
                (x, x.saturating_add(width)),
                (y, y.saturating_add(height)),
            ),
        }
    }
}

fn smaller(left: u32, right: u32) -> (least: u32)
    ensures
        least == if left <= right {
            left
        } else {
            right
        },
{
    if left <= right {
        left
    } else {
        right
    }
}

/// The pixel at a column and row, and no other, has that column and row.
proof fn lemma_pixel(width: int, pixel: int, column: int, row: int)
    requires
        0 <= column < width,
        0 <= row,
        0 <= pixel,
    ensures
        (pixel == row * width + column) == (pixel / width == row && pixel % width == column),
        0 <= pixel % width < width,
        0 <= pixel / width,
{
    vstd::arithmetic::div_mod::lemma_fundamental_div_mod(pixel, width);
    assert(width * (pixel / width) == (pixel / width) * width) by (nonlinear_arith);
    if pixel == row * width + column {
        vstd::arithmetic::div_mod::lemma_fundamental_div_mod_converse(pixel, width, row, column);
    }
    assert(0 <= pixel % width < width) by (nonlinear_arith)
        requires
            width > 0,
    ;
    assert(0 <= pixel / width) by (nonlinear_arith)
        requires
            pixel >= 0,
            width > 0,
    ;
}

/// Painting one more pixel of a row.
proof fn lemma_next_pixel(
    pixels: Seq<u8>,
    width: int,
    shape: Shape,
    color: Seq<u8>,
    row: int,
    column: int,
)
    requires
        0 <= column,
        0 <= row,
        0 < width <= i32::MAX,
    ensures
        ({
            let before = painted_until(pixels, width, shape, color, row, column);
            let after = painted_until(pixels, width, shape, color, row, column + 1);
            after == if shape.covers(column, row) {
                dotted(before, width, column, row, color)
            } else {
                before
            }
        }),
{
    let before = painted_until(pixels, width, shape, color, row, column);
    let after = painted_until(pixels, width, shape, color, row, column + 1);
    let expected = if shape.covers(column, row) {
        dotted(before, width, column, row, color)
    } else {
        before
    };
    assert forall|index: int| 0 <= index < pixels.len() implies after[index]
        == expected[index] by {
        let at_column = index / 4 % width;
        let at_row = index / 4 / width;
        if column < width {
            lemma_pixel(width, index / 4, column, row);
            if at_row == row && at_column == column {
                let at = 4 * (index / 4);
                assert(at == index - index % 4);
                if holds(pixels, width, column, row) {
                    assert((at + 3) / 4 == index / 4);
                    assert(before[at + 3] == pixels[at + 3]);
                    assert(at + index % 4 == index);
                    assert(before[index] == pixels[index]);
                }
            }
        } else {
            lemma_pixel(width, index / 4, 0, row);
        }
    }
    assert(after =~= expected);
}

/// A row that was painted up to the right edge is followed by the next one.
proof fn lemma_next_row(
    pixels: Seq<u8>,
    width: int,
    shape: Shape,
    color: Seq<u8>,
    row: int,
)
    ensures
        ({
            let ((left, right), _) = shape.bounds();
            &&& left >= right || painted_until(pixels, width, shape, color, row, right)
                == painted_until(pixels, width, shape, color, row + 1, left)
            &&& left >= right ==> painted_until(pixels, width, shape, color, row, left)
                == painted_until(pixels, width, shape, color, row + 1, left)
        }),
{
    let ((left, right), _) = shape.bounds();
    if left < right {
        assert(painted_until(pixels, width, shape, color, row, right) =~= painted_until(
            pixels,
            width,
            shape,
            color,
            row + 1,
            left,
        ));
    } else {
        assert(painted_until(pixels, width, shape, color, row, left) =~= painted_until(
            pixels,
            width,
            shape,
            color,
            row + 1,
            left,
        ));
    }
}

/// Paints a shape.
pub fn paint(pixels: &mut [u8], width: u32, shape: Shape, color: [u8; 4])
    ensures
        final(pixels)@ == painted(old(pixels)@, width as int, shape, color@),
{
    if width == 0 || width > 0x7fff_ffff {
        assert(pixels@ =~= painted(pixels@, width as int, shape, color@));
        return;
    }
    let ghost blank = pixels@;
    let ((left, right), (top, bottom)) = shape.extent();
    let mut row: u32 = top;
    assert(pixels@ =~= painted_until(
        blank,
        width as int,
        shape,
        color@,
        top as int,
        left as int,
    ));
    while row < bottom
        invariant
            0 < width <= i32::MAX,
            left == shape.bounds().0.0,
            right == shape.bounds().0.1,
            top == shape.bounds().1.0,
            bottom == shape.bounds().1.1,
            top <= row,
            row <= bottom || row == top,
            pixels@ == painted_until(
                blank,
                width as int,
                shape,
                color@,
                row as int,
                left as int,
            ),
        decreases bottom - row,
    {
        let mut column: u32 = left;
        while column < right
            invariant
                0 < width <= i32::MAX,
                left == shape.bounds().0.0,
                right == shape.bounds().0.1,
                top == shape.bounds().1.0,
                bottom == shape.bounds().1.1,
                top <= row < bottom,
                left <= column,
                column <= right || column == left,
                pixels@ == painted_until(
                    blank,
                    width as int,
                    shape,
                    color@,
                    row as int,
                    column as int,
                ),
            decreases right - column,
        {
            proof {
                lemma_next_pixel(
                    blank,
                    width as int,
                    shape,
                    color@,
                    row as int,
                    column as int,
                );
            }
            if shape.is_covering(column, row) {
                if column <= 0x7fff_ffff && row <= 0x7fff_ffff {
                    blend_pixel(pixels, width, column as i32, row as i32, color);
                }
            }
            column += 1;
        }
        proof {
            lemma_next_row(blank, width as int, shape, color@, row as int);
        }
        row += 1;
    }
    assert(pixels@ =~= painted(blank, width as int, shape, color@));
}

/// Paints a filled circle.
pub fn blend_circle(
    pixels: &mut [u8],
    stride: u32,
    center_x: u32,
    center_y: u32,
    radius: u32,
    color: [u8; 4],
)
    ensures
        final(pixels)@ == painted(
            old(pixels)@,
            stride as int,
            (Shape::Circle { center_x, center_y, radius }),
            color@,
        ),
{
    paint(pixels, stride, Shape::Circle { center_x, center_y, radius }, color);
}

/// Paints a filled rectangle with rounded corners.
pub fn blend_rounded_rect(
    pixels: &mut [u8],
    stride: u32,
    x: u32,
    y: u32,
    width: u32,
    height: u32,
    radius: u32,
    color: [u8; 4],
)
    ensures
        final(pixels)@ == painted(
            old(pixels)@,
            stride as int,
            (Shape::RoundedRect { x, y, width, height, radius }),
            color@,
        ),
{
    paint(pixels, stride, Shape::RoundedRect { x, y, width, height, radius }, color);
}

// ---------------------------------------------------------------------------
// Laws
// ---------------------------------------------------------------------------

/// A color over a pixel: an opaque one takes its place, a transparent one leaves it, and
/// on an empty pixel every color stays what it is. Over an opaque pixel each channel is
/// the mean of the two by the color's opacity, rounded down.
pub proof fn law_colors_cover_by_their_opacity(
    pixels: Seq<u8>,
    at: int,
    color: Seq<u8>,
    channel: int,
)
    requires
        0 <= at,
        at + 4 <= pixels.len(),
        color.len() == 4,
        0 <= channel < 3,
    ensures
        color[3] == 255 ==> over(pixels, at, color, channel) == color[channel] && over(
            pixels,
            at,
            color,
            3,
        ) == 255,
        color[3] == 0 ==> over(pixels, at, color, channel) == pixels[at + channel] && over(
            pixels,
            at,
            color,
            3,
        ) == pixels[at + 3],
        pixels[at + 3] == 0 && color[3] > 0 ==> over(pixels, at, color, channel) == color[channel]
            && over(pixels, at, color, 3) == color[3],
        pixels[at + 3] == 255 ==> {
            let mean = color[channel] * color[3] + pixels[at + channel] * (255 - color[3]);
            &&& 255 * over(pixels, at, color, channel) <= mean
            &&& mean < 255 * over(pixels, at, color, channel) + 255
            &&& over(pixels, at, color, 3) == 255
        },
        255 * over(pixels, at, color, 3) <= 255 * color[3] + pixels[at + 3] * (255 - color[3])
            < 255 * over(pixels, at, color, 3) + 255,
{
    let source = color[3] as int;
    let target = pixels[at + 3] as int;
    let above = color[channel] as int;
    let below = pixels[at + channel] as int;
    lemma_channel_bounds(source, target, above, below);
    let alpha = mixed_alpha(source, target);
    assert(0 * (255 - source) == 0 && above * 0 == 0 && below * 0 == 0) by (nonlinear_arith);
    if source == 255 {
        assert(target * (255 - source) == 0) by (nonlinear_arith)
            requires
                source == 255,
        ;
        assert(below * target * (255 - source) == 0) by (nonlinear_arith)
            requires
                source == 255,
        ;
        assert(above * source == 255 * above) by (nonlinear_arith)
            requires
                source == 255,
        ;
        assert(alpha == 255);
        assert((255 * above + 0) / 255 == above);
    }
    if source == 0 {
        assert(target * (255 - source) == 255 * target) by (nonlinear_arith)
            requires
                source == 0,
        ;
        assert(above * source == 0) by (nonlinear_arith)
            requires
                source == 0,
        ;
        assert(below * target * (255 - source) == 255 * (below * target)) by (nonlinear_arith)
            requires
                source == 0,
        ;
        if target > 0 {
            assert(below * target / target == below) by (nonlinear_arith)
                requires
                    target > 0,
            ;
        }
    }
    if target == 0 {
        assert(target * (255 - source) == 0) by (nonlinear_arith)
            requires
                target == 0,
        ;
        assert(below * target * (255 - source) == 0) by (nonlinear_arith)
            requires
                target == 0,
        ;
        if source > 0 {
            assert(above * source / source == above) by (nonlinear_arith)
                requires
                    source > 0,
            ;
        }
    }
    if target == 255 {
        assert(target * (255 - source) == 255 * (255 - source)) by (nonlinear_arith)
            requires
                target == 255,
        ;
        assert(alpha == 255);
        assert(below * target * (255 - source) == 255 * (below * (255 - source))) by (nonlinear_arith)
            requires
                target == 255,
        ;
        assert(0 <= above * source + below * (255 - source) <= 255 * 255) by (nonlinear_arith)
            requires
                0 <= above <= 255,
                0 <= below <= 255,
                0 <= source <= 255,
        ;
    }
}

/// The channels of a color over a pixel, in general: what the two of them amount to, the
/// lower one as far as it shows through, in parts of their common opacity.
pub proof fn law_colors_amount_to_their_parts(
    pixels: Seq<u8>,
    at: int,
    color: Seq<u8>,
    channel: int,
) -> (parts: (int, int))
    requires
        0 <= at,
        at + 4 <= pixels.len(),
        color.len() == 4,
        0 <= channel < 3,
        over(pixels, at, color, 3) > 0,
    ensures
        ({
            let (through, share) = parts;
            let alpha = over(pixels, at, color, 3);
            let amount = color[channel] * color[3] + through;
            &&& 255 * through <= pixels[at + channel] * pixels[at + 3] * (255 - color[3]) < 255
                * through + 255
            &&& share * alpha <= amount < share * alpha + alpha
            &&& 0 <= share
            &&& over(pixels, at, color, channel) == share % 256
        }),
{
    let source = color[3] as int;
    let target = pixels[at + 3] as int;
    let above = color[channel] as int;
    let below = pixels[at + channel] as int;
    lemma_channel_bounds(source, target, above, below);
    let alpha = mixed_alpha(source, target);
    let through = below * target * (255 - source) / 255;
    let amount = above * source + through;
    let share = amount / alpha;
    assert(alpha > 0);
    assert(share * alpha <= amount < share * alpha + alpha && 0 <= share) by (nonlinear_arith)
        requires
            share == amount / alpha,
            alpha > 0,
            amount >= 0,
    ;
    (through, share)
}

/// Drawing one pixel changes that pixel and no other, and none where it is off the canvas.
pub proof fn law_one_pixel_is_drawn(
    pixels: Seq<u8>,
    width: int,
    x: int,
    y: int,
    color: Seq<u8>,
    index: int,
)
    requires
        0 <= index < pixels.len(),
        0 < width <= i32::MAX,
        y <= i32::MAX,
    ensures
        dotted(pixels, width, x, y, color).len() == pixels.len(),
        ({
            let at = 4 * (y * width + x);
            let drawn = 0 <= x < width && 0 <= y && at + 4 <= pixels.len();
            &&& !(drawn && at <= index < at + 4) ==> dotted(pixels, width, x, y, color)[index]
                == pixels[index]
            &&& drawn && at <= index < at + 4 ==> dotted(pixels, width, x, y, color)[index] == over(
                pixels,
                at,
                color,
                index - at,
            )
        }),
{
}

/// Painting a shape changes the pixels it covers, each by the color over it, and no
/// others.
pub proof fn law_shapes_are_painted_pixel_by_pixel(
    pixels: Seq<u8>,
    width: int,
    shape: Shape,
    color: Seq<u8>,
    column: int,
    row: int,
    channel: int,
)
    requires
        0 <= column < width <= i32::MAX,
        0 <= row <= i32::MAX,
        0 <= channel < 4,
        4 * (row * width + column) + 4 <= pixels.len(),
    ensures
        painted(pixels, width, shape, color).len() == pixels.len(),
        painted(pixels, width, shape, color)[4 * (row * width + column) + channel]
            == if shape.covers(column, row) {
            over(pixels, 4 * (row * width + column), color, channel)
        } else {
            pixels[4 * (row * width + column) + channel]
        },
{
    assert(0 <= row * width) by (nonlinear_arith)
        requires
            0 <= row,
            0 < width,
    ;
    let pixel = row * width + column;
    let index = 4 * pixel + channel;
    assert(index / 4 == pixel && index % 4 == channel);
    lemma_pixel(width, pixel, column, row);
}

/// A circle covers the pixels within its radius, but for the last column and row of the
/// square around it.
pub proof fn law_circles_are_round(
    center_x: u32,
    center_y: u32,
    radius: u32,
    column: int,
    row: int,
)
    requires
        center_x + radius <= u32::MAX,
        center_y + radius <= u32::MAX,
        0 <= column,
        0 <= row,
    ensures
        (Shape::Circle { center_x, center_y, radius }).covers(column, row) <==> {
            &&& (column - center_x) * (column - center_x) + (row - center_y) * (row - center_y)
                <= radius * radius
            &&& column - center_x != radius
            &&& row - center_y != radius
        },
{
    let dx = column - center_x;
    let dy = row - center_y;
    assert(dx * dx + dy * dy <= radius * radius ==> -radius <= dx <= radius && -radius <= dy
        <= radius) by (nonlinear_arith)
        requires
            radius >= 0,
    ;
}

/// A rounded rectangle covers what its box holds, but for the corners: there it covers
/// what lies within the radius of the corner's middle pixel. The radius is at most half a
/// side, and all four corners are alike.
pub proof fn law_rounded_rectangles_lack_their_corners(
    x: u32,
    y: u32,
    width: u32,
    height: u32,
    radius: u32,
    column: int,
    row: int,
)
    requires
        x + width <= u32::MAX,
        y + height <= u32::MAX,
    ensures
        ({
            let shape = Shape::RoundedRect { x, y, width, height, radius };
            let inside = x <= column < x + width && y <= row < y + height;
            let corner = if 2 * radius <= width && 2 * radius <= height {
                radius as int
            } else if width <= height {
                width as int / 2
            } else {
                height as int / 2
            };
            let left = column - x;
            let top = row - y;
            &&& !inside ==> !shape.covers(column, row)
            &&& inside && (corner <= left < width - corner || corner <= top < height - corner)
                ==> shape.covers(column, row)
            &&& inside && left < corner && top < corner ==> (shape.covers(column, row) <==> (corner
                - 1 - left) * (corner - 1 - left) + (corner - 1 - top) * (corner - 1 - top)
                <= corner * corner)
            &&& shape.covers(column, row) == shape.covers(2 * x + width - 1 - column, row)
            &&& shape.covers(column, row) == shape.covers(column, 2 * y + height - 1 - row)
        }),
{
    let corner = smallest(radius as int, width as int / 2, height as int / 2);
    let left = column - x;
    let top = row - y;
    let dx = into_corner(left, width as int, corner);
    let dy = into_corner(top, height as int, corner);
    if 0 <= left < width && 0 <= top < height {
        assert(0 <= dx <= corner && 0 <= dy <= corner);
        assert(0 <= dx * dx <= corner * corner && 0 <= dy * dy <= corner * corner)
            by (nonlinear_arith)
            requires
                0 <= dx <= corner,
                0 <= dy <= corner,
        ;
        assert(0int * 0 == 0);
        assert(into_corner(width - 1 - left, width as int, corner) == dx);
        assert(into_corner(height - 1 - top, height as int, corner) == dy);
    }
}

} // verus!
