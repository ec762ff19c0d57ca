//! Plain data shared by every part of the crate.

use vstd::prelude::*;

verus! {

/// Number a backend gives to a resource it created.
pub type ResourceId = u32;

/// Identity of a texture held by the backend.
#[derive(Copy, Clone, Debug, PartialEq, Eq, Structural)]
pub struct TextureId(pub ResourceId);

/// What a backend reports about a texture it created or loaded.
#[derive(Copy, Clone, Debug)]
pub struct TextureData {
    pub id: TextureId,
    pub width: u32,
    pub height: u32,
}

/// Identity of a font held by the backend.
#[derive(Copy, Clone, Debug, PartialEq, Eq, Structural)]
pub struct FontId(pub ResourceId);

/// What a backend reports about a font it loaded.
#[derive(Copy, Clone, Debug)]
pub struct FontData {
    pub id: FontId,
    pub glyphs_height: u32,
}

/// Horizontal placement of a line inside its bounding rectangle.
#[derive(Copy, Clone, Debug, Default, PartialEq, Eq, Structural)]
pub enum TextAlign {
    #[default]
    Left,
    Right,
    Center,
    Justified,
}

/// Vertical placement of a block of lines inside its bounding rectangle.
#[derive(Copy, Clone, Debug, Default, PartialEq, Eq, Structural)]
pub enum TextCrossAlign {
    #[default]
    Start,
    Center,
    End,
}

/// Space kept free between a bounding rectangle and the text inside it.
#[derive(Copy, Clone, Debug, Default)]
pub struct TextPadding {
    pub left: u16,
    pub right: u16,
    pub top: u16,
    pub bottom: u16,
}

/// Bearings and advance width of one glyph.
#[derive(Copy, Clone, Debug)]
pub struct GlyphMetrics {
    pub min_x: i32,
    pub max_x: i32,
    pub min_y: i32,
    pub max_y: i32,
    pub advance: u32,
}

/// The difference `hi - lo` reduced into the range of a `u32`.
pub open spec fn extent(lo: i32, hi: i32) -> int {
    (hi - lo) % 0x1_0000_0000
}

fn extent_of(lo: i32, hi: i32) -> (r: u32)
    ensures
        r == extent(lo, hi),
{
    let d: i64 = hi as i64 - lo as i64;
    if d < 0 {
        (d + 0x1_0000_0000) as u32
    } else {
        d as u32
    }
}

impl GlyphMetrics {
    /// Extent of the glyph's bounding box between `min_x` and `max_x`.
    pub fn height(&self) -> (r: u32)
        ensures
            r == extent(self.min_x, self.max_x),
    {
        extent_of(self.min_x, self.max_x)
    }

    /// Extent of the glyph's bounding box between `min_y` and `max_y`.
    pub fn width(&self) -> (r: u32)
        ensures
            r == extent(self.min_y, self.max_y),
    {
        extent_of(self.min_y, self.max_y)
    }
}

/// Size of a window or surface in pixels.
#[derive(Copy, Clone, Debug)]
pub struct Dimensions {
    pub width: u32,
    pub height: u32,
}

/// How the window is shown.
#[derive(Copy, Clone, Debug)]
pub enum WindowConfig {
    Borderless(Dimensions),
    Bordered { size: Dimensions, resizable: bool },
    Fullscreen,
}

impl WindowConfig {
    /// The size that the window is asked to have. A fullscreen window is
    /// asked for none, which is given as zero by zero.
    pub fn size(&self) -> (size: Dimensions)
        ensures
            size == (match *self {
                WindowConfig::Borderless(size) => size,
                WindowConfig::Bordered { size, .. } => size,
                WindowConfig::Fullscreen => Dimensions { width: 0, height: 0 },
            }),
    {
        match *self {
            WindowConfig::Borderless(size) => size,
            WindowConfig::Bordered { size, .. } => size,
            WindowConfig::Fullscreen => Dimensions { width: 0, height: 0 },
        }
    }
}

/// Keys the input state keeps track of. `Count` closes the list and names
/// no key.
#[derive(Copy, Clone, Debug, PartialEq, Eq, Structural)]
pub enum Key {
    W,
    A,
    S,
    D,
    Count,
}

impl Key {
    /// The key that carries the letter, if it is one that is kept track of.
    pub fn from_letter(letter: char) -> (key: Option<Key>)
        ensures
            key == (if letter == 'w' {
                Some(Key::W)
            } else if letter == 'a' {
                Some(Key::A)
            } else if letter == 's' {
                Some(Key::S)
            } else if letter == 'd' {
                Some(Key::D)
            } else {
                None
            }),
    {
        if letter == 'w' {
            Some(Key::W)
        } else if letter == 'a' {
            Some(Key::A)
        } else if letter == 's' {
            Some(Key::S)
        } else if letter == 'd' {
            Some(Key::D)
        } else {
            None
        }
    }
}

/// One input event handed over by the backend.
#[derive(Copy, Clone, Debug)]
pub enum Event {
    KeyDown(Key),
    KeyUp(Key),
    MouseDown,
    MouseUp,
    MouseDoubleClick,
    Close,
}

/// A point on the integer pixel grid.
#[derive(Copy, Clone, Debug, Default, PartialEq, Eq, Structural)]
pub struct Point {
    pub x: i32,
    pub y: i32,
}

impl Point {
    pub fn new(x: i32, y: i32) -> (p: Self)
        ensures
            p == (Point { x, y }),
    {
        Self { x, y }
    }
}

/// An axis-aligned rectangle: origin and size.
#[derive(Copy, Clone, Debug, Default, PartialEq, Eq, Structural)]
pub struct Rect {
    pub x: i32,
    pub y: i32,
    pub w: u32,
    pub h: u32,
}

impl Rect {
    pub fn new(x: i32, y: i32, w: u32, h: u32) -> (r: Self)
        ensures
            r == (Rect { x, y, w, h }),
    {
        Self { x, y, w, h }
    }

    /// The origin of the rectangle.
    pub fn point(&self) -> (p: Point)
        ensures
            p == (Point { x: self.x, y: self.y }),
    {
        Point::new(self.x, self.y)
    }
}

/// The `i32` nearest to `v`.
pub open spec fn saturated(v: int) -> i32 {
    if v > i32::MAX {
        i32::MAX
    } else if v < i32::MIN {
        i32::MIN
    } else {
        v as i32
    }
}

/// The `i32` nearest to `v`.
pub fn saturate(v: i64) -> (r: i32)
    ensures
        r == saturated(v as int),
{
    if v > i32::MAX as i64 {
        i32::MAX
    } else if v < i32::MIN as i64 {
        i32::MIN
    } else {
        v as i32
    }
}

/// The `i32` nearest to `v`.
pub fn saturate_wide(v: i128) -> (r: i32)
    ensures
        r == saturated(v as int),
{
    if v > i32::MAX as i128 {
        i32::MAX
    } else if v < i32::MIN as i128 {
        i32::MIN
    } else {
        v as i32
    }
}

/// `a - b` where that is not negative, else zero.
pub open spec fn minus(a: u32, b: u32) -> u32 {
    if a >= b {
        (a - b) as u32
    } else {
        0
    }
}

/// `a - b` where that is not negative, else zero.
pub fn minus_of(a: u32, b: u32) -> (r: u32)
    ensures
        r == minus(a, b),
{
    if a >= b {
        a - b
    } else {
        0
    }
}

/// Half of `v`, rounded towards zero.
pub fn half_of(v: i64) -> (r: i64)
    requires
        i64::MIN < v,
    ensures
        r == half(v as int),
{
    if v >= 0 {
        v / 2
    } else {
        -((-v) / 2)
    }
}

/// Half of `v`, rounded towards zero.
pub open spec fn half(v: int) -> int {
    if v >= 0 {
        v / 2
    } else {
        -((-v) / 2)
    }
}

/// An RGBA colour, one byte per channel.
#[derive(Copy, Clone, Debug, Default, PartialEq, Eq, Structural)]
pub struct Color {
    pub r: u8,
    pub g: u8,
    pub b: u8,
    pub a: u8,
}

impl Color {
    /// Transparent black.
    pub fn black() -> (c: Self)
        ensures
            c == (Color { r: 0, g: 0, b: 0, a: 0 }),
    {
        Self::new(0, 0, 0, 0)
    }

    pub fn white() -> (c: Self)
        ensures
            c == (Color { r: 255, g: 255, b: 255, a: 255 }),
    {
        Self::new(255, 255, 255, 255)
    }

    pub fn green() -> (c: Self)
        ensures
            c == (Color { r: 0, g: 255, b: 0, a: 255 }),
    {
        Self::new(0, 255, 0, 255)
    }

    pub fn red() -> (c: Self)
        ensures
            c == (Color { r: 255, g: 0, b: 0, a: 255 }),
    {
        Self::new(255, 0, 0, 255)
    }

    pub fn blue() -> (c: Self)
        ensures
            c == (Color { r: 0, g: 255, b: 0, a: 255 }),
    {
        Self::new(0, 255, 0, 255)
    }

    pub fn new(r: u8, g: u8, b: u8, a: u8) -> (c: Self)
        ensures
            c == (Color { r, g, b, a }),
    {
        Self { r, g, b, a }
    }
}

/// How a texture is copied onto the current render target. `angle_bits`
/// holds the rotation in degrees as the bit pattern of a 64-bit IEEE 754
/// number; zero bits are zero degrees.
#[derive(Copy, Clone, Debug, Default, PartialEq, Eq, Structural)]
pub struct CopyTextureOptions {
    pub src: Option<Rect>,
    pub dest: Option<Rect>,
    pub center: Option<Point>,
    pub angle_bits: u64,
    pub flip_h: bool,
    pub flip_v: bool,
    pub color_mod: Option<Color>,
}

/// How a copy is mirrored.
#[derive(Copy, Clone, Debug, PartialEq, Eq, Structural)]
pub enum Flip {
    Unflipped,
    Horizontal,
    Vertical,
}

impl CopyTextureOptions {
    /// How the copy is mirrored. Where both directions are asked for, the
    /// copy is mirrored horizontally.
    pub fn flip(&self) -> (flip: Flip)
        ensures
            flip == (if self.flip_h {
                Flip::Horizontal
            } else if self.flip_v {
                Flip::Vertical
            } else {
                Flip::Unflipped
            }),
    {
        if self.flip_h {
            Flip::Horizontal
        } else if self.flip_v {
            Flip::Vertical
        } else {
            Flip::Unflipped
        }
    }
}

} // verus!
