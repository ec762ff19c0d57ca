//! Atlases: textures into which glyphs are packed in rows of one height,
//! left to right and top to bottom, without ever moving a glyph again.

use crate::backend::{Backend, BackendCall, Error, Issued, Outcome, Traced};
use crate::texture::{data_of, Texture, TextureKind, TextureView};
use crate::types::Rect;
use vstd::prelude::*;

verus! {

/// Width of the texture behind each atlas.
pub const ATLAS_WIDTH: u32 = 1024;

/// Height of the texture behind each atlas.
pub const ATLAS_HEIGHT: u32 = 1024;

/// Furthest that an atlas reaches along either axis, whatever the size of
/// its texture: the largest origin a `Rect` can have.
pub const ATLAS_REACH: u32 = 0x7fff_ffff;

/// What an atlas answers when asked for room.
#[derive(Copy, Clone, Debug, PartialEq, Eq, Structural)]
pub enum Allocation {
    /// Room was found and is now taken.
    Placed(Rect),
    /// No row is left. Another atlas has to take the glyph.
    Full,
    /// The glyph is wider than an atlas, or its row higher: no atlas will
    /// ever take it.
    Oversize,
}

/// What a `FontAtlas` holds: its texture, the part of it that is in use, the
/// height of its rows and how far they are filled.
pub struct AtlasView {
    pub texture: TextureView,
    pub width: u32,
    pub height: u32,
    pub glyph_height: u32,
    pub x_cursor: u32,
    pub y_cursor: u32,
    pub full: bool,
}

/// The smaller of a texture's extent and `ATLAS_REACH`.
pub open spec fn reach(extent: u32) -> u32 {
    if extent > ATLAS_REACH {
        ATLAS_REACH
    } else {
        extent
    }
}

/// Whether the next glyph of width `glyph_width` begins a new row: it does
/// where it no longer fits behind what the current row holds.
pub open spec fn wraps(atlas: AtlasView, glyph_width: u32) -> bool {
    atlas.x_cursor + glyph_width > atlas.width
}

/// The top left corner at which the next glyph of width `glyph_width` comes
/// to lie, if there is room.
pub open spec fn next_origin(atlas: AtlasView, glyph_width: u32) -> (int, int) {
    if wraps(atlas, glyph_width) {
        (0, atlas.y_cursor + atlas.glyph_height)
    } else {
        (atlas.x_cursor as int, atlas.y_cursor as int)
    }
}

/// What an atlas answers to a request for room of width `glyph_width`.
pub open spec fn allocation(atlas: AtlasView, glyph_width: u32) -> Allocation {
    let (x, y) = next_origin(atlas, glyph_width);
    if glyph_width > atlas.width || atlas.glyph_height > atlas.height {
        Allocation::Oversize
    } else if atlas.full || y + atlas.glyph_height > atlas.height {
        Allocation::Full
    } else {
        Allocation::Placed(
            Rect { x: x as i32, y: y as i32, w: glyph_width, h: atlas.glyph_height },
        )
    }
}

/// The atlas behind a request for room of width `glyph_width`: where room
/// was found, the row is filled that much further; where none is left, the
/// atlas is full from then on; else nothing has changed.
pub open spec fn allocated(atlas: AtlasView, glyph_width: u32) -> AtlasView {
    match allocation(atlas, glyph_width) {
        Allocation::Placed(rect) => AtlasView {
            x_cursor: (rect.x + glyph_width) as u32,
            y_cursor: rect.y as u32,
            ..atlas
        },
        Allocation::Full => AtlasView { full: true, ..atlas },
        Allocation::Oversize => atlas,
    }
}

/// An atlas in which nothing has been placed yet.
pub open spec fn fresh(atlas: AtlasView) -> bool {
    atlas.x_cursor == 0 && atlas.y_cursor == 0 && !atlas.full
}

/// A texture into which glyphs are packed: left to right in rows of one
/// height, top to bottom.
#[derive(Debug)]
pub struct FontAtlas {
    texture: Texture,
    glyph_height: u32,
    x_cursor: u32,
    y_cursor: u32,
    full: bool,
}

impl View for FontAtlas {
    type V = AtlasView;

    closed spec fn view(&self) -> AtlasView {
        AtlasView {
            texture: self.texture@,
            width: reach(self.texture@.width),
            height: reach(self.texture@.height),
            glyph_height: self.glyph_height,
            x_cursor: self.x_cursor,
            y_cursor: self.y_cursor,
            full: self.full,
        }
    }
}

/// The answer of the backend that gives an atlas its texture, or fails to.
pub open spec fn atlas_made(r: Result<FontAtlas, Error>) -> Outcome {
    match r {
        Ok(atlas) => Outcome::Texture(data_of(atlas@.texture)),
        Err(e) => Outcome::Failed(e),
    }
}

fn reach_of(extent: u32) -> (r: u32)
    ensures
        r == reach(extent),
{
    if extent > ATLAS_REACH {
        ATLAS_REACH
    } else {
        extent
    }
}

impl FontAtlas {
    /// An empty atlas over `texture`, with rows of height `glyph_height`.
    pub fn over(texture: Texture, glyph_height: u32) -> (atlas: Self)
        ensures
            atlas@.texture == texture@,
            atlas@.glyph_height == glyph_height,
            fresh(atlas@),
    {
        FontAtlas { texture, glyph_height, x_cursor: 0, y_cursor: 0, full: false }
    }

    /// Creates a texture to draw to, with one call of the backend, and an
    /// empty atlas over it, with rows of height `glyph_height`.
    pub fn new<B: Backend>(
        backend: &mut Traced<B>,
        width: u32,
        height: u32,
        glyph_height: u32,
    ) -> (r: Result<Self, Error>)
        ensures
            final(backend).calls() == old(backend).calls().push(
                (Issued {
                    call: BackendCall::TextureCreate { width, height },
                    outcome: atlas_made(r),
                }),
            ),
            r matches Ok(atlas) ==> {
                &&& atlas@.texture.kind == TextureKind::Target
                &&& atlas@.glyph_height == glyph_height
                &&& fresh(atlas@)
            },
    {
        match Texture::new_target(backend, width, height) {
            Ok(texture) => Ok(FontAtlas::over(texture, glyph_height)),
            Err(e) => Err(e),
        }
    }

    /// The texture that holds the glyphs.
    pub fn texture(&self) -> (texture: &Texture)
        ensures
            texture@ == self@.texture,
    {
        &self.texture
    }

    /// Takes the atlas apart and hands out its texture.
    pub fn into_texture(self) -> (texture: Texture)
        ensures
            texture@ == self@.texture,
    {
        self.texture
    }

    /// An atlas uses its texture up to `ATLAS_REACH` along each axis.
    pub proof fn lemma_reach(&self)
        ensures
            self@.width == reach(self@.texture.width),
            self@.height == reach(self@.texture.height),
    {
    }

    /// Takes room for a glyph of width `glyph_width` in a row of the atlas's
    /// height, behind what the atlas holds already.
    pub fn allocate(&mut self, glyph_width: u32) -> (r: Allocation)
        ensures
            r == allocation(old(self)@, glyph_width),
            final(self)@ == allocated(old(self)@, glyph_width),
    {
        let width = reach_of(self.texture.width());
        let height = reach_of(self.texture.height());
        if glyph_width > width || self.glyph_height > height {
            return Allocation::Oversize;
        }
        if self.full {
            return Allocation::Full;
        }
        let wraps = self.x_cursor as u64 + glyph_width as u64 > width as u64;
        let x: u64 = if wraps {
            0
        } else {
            self.x_cursor as u64
        };
        let y: u64 = if wraps {
            self.y_cursor as u64 + self.glyph_height as u64
        } else {
            self.y_cursor as u64
        };
        if y + self.glyph_height as u64 > height as u64 {
            self.full = true;
            return Allocation::Full;
        }
        self.x_cursor = (x + glyph_width as u64) as u32;
        self.y_cursor = y as u32;
        Allocation::Placed(Rect::new(x as i32, y as i32, glyph_width, self.glyph_height))
    }
}

/// `rect` lies in the part of the atlas that is taken: in a row above the
/// current one, or in the current row before the cursor.
pub open spec fn taken(atlas: AtlasView, rect: Rect) -> bool {
    &&& 0 <= rect.x
    &&& 0 <= rect.y
    &&& rect.x + rect.w <= atlas.width
    &&& rect.y + rect.h <= atlas.height
    &&& {
        ||| rect.y + rect.h <= atlas.y_cursor
        ||| rect.y == atlas.y_cursor && rect.h <= atlas.glyph_height && rect.x + rect.w
            <= atlas.x_cursor
    }
}

/// The two rectangles share no pixel.
pub open spec fn disjoint(a: Rect, b: Rect) -> bool {
    ||| a.x + a.w <= b.x
    ||| b.x + b.w <= a.x
    ||| a.y + a.h <= b.y
    ||| b.y + b.h <= a.y
}

/// Room that an atlas hands out lies inside the atlas, and so inside its
/// texture; it shares no pixel with what was taken before, and is taken
/// from then on, like everything that was taken before. An atlas in which
/// nothing has been placed is never full.
pub proof fn lemma_allocation(atlas: AtlasView, glyph_width: u32)
    requires
        atlas.width <= ATLAS_REACH,
        atlas.height <= ATLAS_REACH,
    ensures
        allocated(atlas, glyph_width).texture == atlas.texture,
        allocated(atlas, glyph_width).width == atlas.width,
        allocated(atlas, glyph_width).height == atlas.height,
        allocated(atlas, glyph_width).glyph_height == atlas.glyph_height,
        forall|before: Rect| taken(atlas, before) ==> taken(allocated(atlas, glyph_width), before),
        fresh(atlas) ==> allocation(atlas, glyph_width) != Allocation::Full,
        allocation(atlas, glyph_width) matches Allocation::Placed(rect) ==> {
            &&& 0 <= rect.x
            &&& 0 <= rect.y
            &&& rect.w == glyph_width
            &&& rect.h == atlas.glyph_height
            &&& rect.x + rect.w <= atlas.width
            &&& rect.y + rect.h <= atlas.height
            &&& rect.x == next_origin(atlas, glyph_width).0
            &&& rect.y == next_origin(atlas, glyph_width).1
            &&& taken(allocated(atlas, glyph_width), rect)
            &&& forall|before: Rect| taken(atlas, before) ==> disjoint(before, rect)
        },
{
}

} // verus!
