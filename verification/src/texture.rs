//! Textures: images held by the backend, and surfaces that can be drawn to.

use crate::backend::{done, Backend, BackendCall, Error, Issued, Outcome, Traced};
use crate::types::{TextureData, TextureId};
use vstd::prelude::*;

verus! {

/// Whether a texture is an image or a surface to draw to.
#[derive(Copy, Clone, Debug, PartialEq, Eq, Structural)]
pub enum TextureKind {
    Static,
    Target,
}

/// What a `Texture` holds.
pub struct TextureView {
    pub id: TextureId,
    pub kind: TextureKind,
    pub width: u32,
    pub height: u32,
}

/// A texture of the backend. Whoever holds the value owns the texture: it
/// is neither copied nor cloned, and `release` uses it up.
#[derive(Debug)]
pub struct Texture {
    id: TextureId,
    kind: TextureKind,
    width: u32,
    height: u32,
}

impl View for Texture {
    type V = TextureView;

    closed spec fn view(&self) -> TextureView {
        TextureView { id: self.id, kind: self.kind, width: self.width, height: self.height }
    }
}

/// What the backend reported of a texture.
pub open spec fn data_of(texture: TextureView) -> TextureData {
    TextureData { id: texture.id, width: texture.width, height: texture.height }
}

/// The answer of the backend that gives a texture, or fails to.
pub open spec fn texture_made(r: Result<Texture, Error>) -> Outcome {
    match r {
        Ok(texture) => Outcome::Texture(data_of(texture@)),
        Err(e) => Outcome::Failed(e),
    }
}

impl Texture {
    fn from_data(data: Result<TextureData, Error>, kind: TextureKind) -> (r: Result<Self, Error>)
        ensures
            texture_made(r) == crate::backend::texture_outcome(data),
            r matches Ok(texture) ==> texture@.kind == kind,
    {
        match data {
            Ok(data) => Ok(Texture { id: data.id, kind, width: data.width, height: data.height }),
            Err(e) => Err(e),
        }
    }

    /// Loads the image at `path`, with one call of the backend. What the
    /// backend answers becomes the texture, or the error.
    pub fn new_static<B: Backend>(backend: &mut Traced<B>, path: &str) -> (r: Result<Self, Error>)
        ensures
            final(backend).calls() == old(backend).calls().push(
                (Issued {
                    call: BackendCall::TextureLoad { path: path@ },
                    outcome: texture_made(r),
                }),
            ),
            r matches Ok(texture) ==> texture@.kind == TextureKind::Static,
    {
        let data = backend.texture_load(path);
        Texture::from_data(data, TextureKind::Static)
    }

    /// Creates a surface to draw to, with one call of the backend. What the
    /// backend answers becomes the texture, or the error.
    pub fn new_target<B: Backend>(backend: &mut Traced<B>, w: u32, h: u32) -> (r: Result<
        Self,
        Error,
    >)
        ensures
            final(backend).calls() == old(backend).calls().push(
                (Issued {
                    call: BackendCall::TextureCreate { width: w, height: h },
                    outcome: texture_made(r),
                }),
            ),
            r matches Ok(texture) ==> texture@.kind == TextureKind::Target,
    {
        let data = backend.texture_create(w, h);
        Texture::from_data(data, TextureKind::Target)
    }

    /// Gives the texture back to the backend, with one call. The value is
    /// used up, so no texture is released twice.
    pub fn release<B: Backend>(self, backend: &mut Traced<B>) -> (r: Result<(), Error>)
        ensures
            final(backend).calls() == old(backend).calls().push(
                (Issued {
                    call: BackendCall::TextureDestroy { texture: self@.id },
                    outcome: done(r),
                }),
            ),
    {
        backend.texture_destroy(self.id)
    }

    pub fn id(&self) -> (r: TextureId)
        ensures
            r == self@.id,
    {
        self.id
    }

    pub fn width(&self) -> (r: u32)
        ensures
            r == self@.width,
    {
        self.width
    }

    pub fn height(&self) -> (r: u32)
        ensures
            r == self@.height,
    {
        self.height
    }

    pub fn kind(&self) -> (r: TextureKind)
        ensures
            r == self@.kind,
    {
        self.kind
    }
}

} // verus!
