//! What the crate asks of the platform underneath it.
//!
//! A backend creates windows, textures and fonts, draws, and hands over input
//! events. The crate never looks inside a backend and claims nothing about
//! what its calls do. It reaches a backend through a `Traced` only, which
//! keeps the record of the calls made: which calls, with which arguments, in
//! which order, and what each of them answered. What the crate proves about
//! its own functions is stated over that record.

use crate::types::{
    Color, CopyTextureOptions, Event, FontData, FontId, GlyphMetrics, Point, Rect, TextureData,
    TextureId, WindowConfig,
};
use vstd::prelude::*;

verus! {

/// Why an operation failed.
#[derive(Clone, Debug, PartialEq, Eq)]
pub enum Error {
    /// A texture, font, atlas or glyph was named that does not exist, or no
    /// longer exists.
    ResourceNotFound,
    /// The backend could not carry out a call; the text is its own.
    BackendFailure(String),
    /// A glyph is too large for an atlas, even an empty one.
    AtlasCapacityExceeded,
    /// The request cannot be carried out as it stands.
    InvalidInput,
}

impl Error {
    /// A sentence that says what went wrong.
    pub fn message(&self) -> (text: String)
        ensures
            self matches Error::BackendFailure(reason) ==> text@ == reason@,
            self is ResourceNotFound ==> text@ == "resource not found"@,
            self is AtlasCapacityExceeded ==> text@ == "glyph does not fit into an atlas"@,
            self is InvalidInput ==> text@ == "invalid input"@,
    {
        match self {
            Error::ResourceNotFound => "resource not found".to_owned(),
            Error::BackendFailure(reason) => reason.clone(),
            Error::AtlasCapacityExceeded => "glyph does not fit into an atlas".to_owned(),
            Error::InvalidInput => "invalid input".to_owned(),
        }
    }
}

/// A call on a backend, with its arguments.
pub enum BackendCall {
    WindowSetConfig { config: WindowConfig },
    TextureCreate { width: u32, height: u32 },
    TextureLoad { path: Seq<char> },
    TextureDestroy { texture: TextureId },
    FontLoad { path: Seq<char>, scale: u8 },
    FontDestroy { font: FontId },
    FontGlyphMetrics { font: FontId, glyph: char },
    RenderSetLogicalSize { width: u32, height: u32 },
    RenderSetTarget { target: Option<TextureId> },
    RenderSetDrawColor { color: Color },
    RenderClear,
    RenderPresent,
    RenderCopyTexture { texture: TextureId, options: CopyTextureOptions },
    RenderFillRect { rect: Option<Rect>, color: Color },
    RenderDrawRect { rect: Option<Rect>, color: Color },
    RenderFontGlyph { font: FontId, glyph: char, origin: Point },
    EventsPump,
    InputMousePosition,
    SystemGetMillis,
}

/// What a backend answered to a call.
pub enum Outcome {
    Done,
    Texture(TextureData),
    Font(FontData),
    Metrics(GlyphMetrics),
    Position(i32, i32),
    Millis(u64),
    Failed(Error),
}

/// A call that a backend has taken, and its answer.
pub struct Issued {
    pub call: BackendCall,
    pub outcome: Outcome,
}

/// The answer of a call that returns nothing but success or failure.
pub open spec fn done(r: Result<(), Error>) -> Outcome {
    match r {
        Ok(_) => Outcome::Done,
        Err(e) => Outcome::Failed(e),
    }
}

/// What `done` undoes: the result that stands for an answer.
pub open spec fn result_of(outcome: Outcome) -> Result<(), Error> {
    match outcome {
        Outcome::Failed(e) => Err(e),
        _ => Ok(()),
    }
}

/// The answer of a call for a texture.
pub open spec fn texture_outcome(r: Result<TextureData, Error>) -> Outcome {
    match r {
        Ok(data) => Outcome::Texture(data),
        Err(e) => Outcome::Failed(e),
    }
}

/// The answer of a call for a font.
pub open spec fn font_outcome(r: Result<FontData, Error>) -> Outcome {
    match r {
        Ok(data) => Outcome::Font(data),
        Err(e) => Outcome::Failed(e),
    }
}

/// The answer of a call for glyph metrics.
pub open spec fn metrics_outcome(r: Result<GlyphMetrics, Error>) -> Outcome {
    match r {
        Ok(metrics) => Outcome::Metrics(metrics),
        Err(e) => Outcome::Failed(e),
    }
}

/// The answer of a call for the mouse position.
pub open spec fn position_outcome(r: Result<(i32, i32), Error>) -> Outcome {
    match r {
        Ok(at) => Outcome::Position(at.0, at.1),
        Err(e) => Outcome::Failed(e),
    }
}

/// The answer of a call for the time.
pub open spec fn millis_outcome(r: Result<u64, Error>) -> Outcome {
    match r {
        Ok(millis) => Outcome::Millis(millis),
        Err(e) => Outcome::Failed(e),
    }
}

/// `later` is `earlier` with one more call behind it: `call`, whatever its
/// answer.
pub open spec fn one_more(earlier: Seq<Issued>, later: Seq<Issued>, call: BackendCall) -> bool {
    later.len() == earlier.len() + 1 && later.drop_last() == earlier && later.last().call == call
}

/// One of the calls from place `from` on failed with `e`.
pub open spec fn failed_from(calls: Seq<Issued>, from: int, e: Error) -> bool {
    exists|i: int| from <= i < calls.len() && (#[trigger] calls[i]).outcome == Outcome::Failed(e)
}

/// `later` is `earlier` with more calls behind it, or the same.
pub open spec fn extends(earlier: Seq<Issued>, later: Seq<Issued>) -> bool {
    earlier.len() <= later.len() && forall|i: int|
        0 <= i < earlier.len() ==> #[trigger] later[i] == earlier[i]
}

/// The platform under the crate: windows, textures, fonts, drawing, input
/// and time.
pub trait Backend {
    fn window_set_config(&mut self, config: WindowConfig) -> Result<(), Error>;

    /// Creates a texture that can be drawn to.
    fn texture_create(&mut self, w: u32, h: u32) -> Result<TextureData, Error>;

    /// Loads an image as a texture.
    fn texture_load(&mut self, path: &str) -> Result<TextureData, Error>;

    fn texture_destroy(&mut self, id: TextureId) -> Result<(), Error>;

    fn font_load(&mut self, path: &str, scale: u8) -> Result<FontData, Error>;

    fn font_destroy(&mut self, id: FontId) -> Result<(), Error>;

    fn font_glyph_metrics(&mut self, font: FontId, glyph: char) -> Result<GlyphMetrics, Error>;

    fn render_set_logical_size(&mut self, w: u32, h: u32) -> Result<(), Error>;

    /// Makes a texture, or the screen for `None`, the target of all drawing.
    fn render_set_target(&mut self, target: Option<TextureId>) -> Result<(), Error>;

    fn render_set_draw_color(&mut self, color: Color) -> Result<(), Error>;

    fn render_clear(&mut self) -> Result<(), Error>;

    fn render_present(&mut self) -> Result<(), Error>;

    fn render_copy_texture(
        &mut self,
        texture: TextureId,
        options: CopyTextureOptions,
    ) -> Result<(), Error>;

    fn render_fill_rect(&mut self, rect: Option<Rect>, color: Color) -> Result<(), Error>;

    fn render_draw_rect(&mut self, rect: Option<Rect>, color: Color) -> Result<(), Error>;

    /// Draws one glyph onto the current target, its top left corner at
    /// `origin`.
    fn render_font_glyph(&mut self, font: FontId, glyph: char, origin: Point) -> Result<(), Error>;

    fn input_mouse_position(&mut self) -> Result<(i32, i32), Error>;

    /// Milliseconds since the backend started.
    fn system_get_millis(&mut self) -> Result<u64, Error>;

    /// Appends the events that came in since the last call.
    fn events_pump(&mut self, events: &mut Vec<Event>);

    fn system_log(&self, s: &str);
}

/// A backend, and the record of the calls made on it.
pub struct Traced<B: Backend> {
    backend: B,
    calls: Ghost<Seq<Issued>>,
}

impl<B: Backend> Traced<B> {
    /// Every call made so far, oldest first.
    pub closed spec fn calls(&self) -> Seq<Issued> {
        self.calls@
    }

    /// The backend that the calls are made on.
    pub closed spec fn inner(&self) -> B {
        self.backend
    }

    /// Takes charge of a backend. The record begins empty.
    pub fn new(backend: B) -> (traced: Self)
        ensures
            traced.calls() == Seq::<Issued>::empty(),
            traced.inner() == backend,
    {
        Traced { backend, calls: Ghost(Seq::empty()) }
    }

    /// The backend itself, to look at.
    pub fn backend(&self) -> (backend: &B)
        ensures
            *backend == self.inner(),
    {
        &self.backend
    }

    /// Gives the backend back.
    pub fn into_backend(self) -> (backend: B)
        ensures
            backend == self.inner(),
    {
        self.backend
    }

    pub fn window_set_config(&mut self, config: WindowConfig) -> (r: Result<(), Error>)
        ensures
            final(self).calls() == old(self).calls().push(
                (Issued {
                    call: BackendCall::WindowSetConfig { config },
                    outcome: done(r),
                }),
            ),
    {
        let r = self.backend.window_set_config(config);
        proof {
            self.calls@ = self.calls@.push(
                Issued {
                    call: BackendCall::WindowSetConfig { config },
                    outcome: done(r),
                },
            );
        }
        r
    }

    /// Creates a texture that can be drawn to.
    pub fn texture_create(&mut self, w: u32, h: u32) -> (r: Result<TextureData, Error>)
        ensures
            final(self).calls() == old(self).calls().push(
                (Issued {
                    call: BackendCall::TextureCreate { width: w, height: h },
                    outcome: texture_outcome(r),
                }),
            ),
    {
        let r = self.backend.texture_create(w, h);
        proof {
            self.calls@ = self.calls@.push(
                Issued {
                    call: BackendCall::TextureCreate { width: w, height: h },
                    outcome: texture_outcome(r),
                },
            );
        }
        r
    }

    /// Loads an image as a texture.
    pub fn texture_load(&mut self, path: &str) -> (r: Result<TextureData, Error>)
        ensures
            final(self).calls() == old(self).calls().push(
                (Issued {
                    call: BackendCall::TextureLoad { path: path@ },
                    outcome: texture_outcome(r),
                }),
            ),
    {
        let r = self.backend.texture_load(path);
        proof {
            self.calls@ = self.calls@.push(
                Issued {
                    call: BackendCall::TextureLoad { path: path@ },
                    outcome: texture_outcome(r),
                },
            );
        }
        r
    }

    pub fn texture_destroy(&mut self, id: TextureId) -> (r: Result<(), Error>)
        ensures
            final(self).calls() == old(self).calls().push(
                (Issued {
                    call: BackendCall::TextureDestroy { texture: id },
                    outcome: done(r),
                }),
            ),
    {
        let r = self.backend.texture_destroy(id);
        proof {
            self.calls@ = self.calls@.push(
                Issued {
                    call: BackendCall::TextureDestroy { texture: id },
                    outcome: done(r),
                },
            );
        }
        r
    }

    pub fn font_load(&mut self, path: &str, scale: u8) -> (r: Result<FontData, Error>)
        ensures
            final(self).calls() == old(self).calls().push(
                (Issued {
                    call: BackendCall::FontLoad { path: path@, scale },
                    outcome: font_outcome(r),
                }),
            ),
    {
        let r = self.backend.font_load(path, scale);
        proof {
            self.calls@ = self.calls@.push(
                Issued {
                    call: BackendCall::FontLoad { path: path@, scale },
                    outcome: font_outcome(r),
                },
            );
        }
        r
    }

    pub fn font_destroy(&mut self, id: FontId) -> (r: Result<(), Error>)
        ensures
            final(self).calls() == old(self).calls().push(
                (Issued {
                    call: BackendCall::FontDestroy { font: id },
                    outcome: done(r),
                }),
            ),
    {
        let r = self.backend.font_destroy(id);
        proof {
            self.calls@ = self.calls@.push(
                Issued {
                    call: BackendCall::FontDestroy { font: id },
                    outcome: done(r),
                },
            );
        }
        r
    }

    pub fn font_glyph_metrics(
        &mut self,
        font: FontId,
        glyph: char,
    ) -> (r: Result<GlyphMetrics, Error>)
        ensures
            final(self).calls() == old(self).calls().push(
                (Issued {
                    call: BackendCall::FontGlyphMetrics { font, glyph },
                    outcome: metrics_outcome(r),
                }),
            ),
    {
        let r = self.backend.font_glyph_metrics(font, glyph);
        proof {
            self.calls@ = self.calls@.push(
                Issued {
                    call: BackendCall::FontGlyphMetrics { font, glyph },
                    outcome: metrics_outcome(r),
                },
            );
        }
        r
    }

    pub fn render_set_logical_size(&mut self, w: u32, h: u32) -> (r: Result<(), Error>)
        ensures
            final(self).calls() == old(self).calls().push(
                (Issued {
                    call: BackendCall::RenderSetLogicalSize { width: w, height: h },
                    outcome: done(r),
                }),
            ),
    {
        let r = self.backend.render_set_logical_size(w, h);
        proof {
            self.calls@ = self.calls@.push(
                Issued {
                    call: BackendCall::RenderSetLogicalSize { width: w, height: h },
                    outcome: done(r),
                },
            );
        }
        r
    }

    /// Makes a texture, or the screen for `None`, the target of all drawing.
    pub fn render_set_target(&mut self, target: Option<TextureId>) -> (r: Result<(), Error>)
        ensures
            final(self).calls() == old(self).calls().push(
                (Issued {
                    call: BackendCall::RenderSetTarget { target },
                    outcome: done(r),
                }),
            ),
    {
        let r = self.backend.render_set_target(target);
        proof {
            self.calls@ = self.calls@.push(
                Issued {
                    call: BackendCall::RenderSetTarget { target },
                    outcome: done(r),
                },
            );
        }
        r
    }

    pub fn render_set_draw_color(&mut self, color: Color) -> (r: Result<(), Error>)
        ensures
            final(self).calls() == old(self).calls().push(
                (Issued {
                    call: BackendCall::RenderSetDrawColor { color },
                    outcome: done(r),
                }),
            ),
    {
        let r = self.backend.render_set_draw_color(color);
        proof {
            self.calls@ = self.calls@.push(
                Issued {
                    call: BackendCall::RenderSetDrawColor { color },
                    outcome: done(r),
                },
            );
        }
        r
    }

    pub fn render_clear(&mut self) -> (r: Result<(), Error>)
        ensures
            final(self).calls() == old(self).calls().push(
                (Issued {
                    call: BackendCall::RenderClear,
                    outcome: done(r),
                }),
            ),
    {
        let r = self.backend.render_clear();
        proof {
            self.calls@ = self.calls@.push(
                Issued {
                    call: BackendCall::RenderClear,
                    outcome: done(r),
                },
            );
        }
        r
    }

    pub fn render_present(&mut self) -> (r: Result<(), Error>)
        ensures
            final(self).calls() == old(self).calls().push(
                (Issued {
                    call: BackendCall::RenderPresent,
                    outcome: done(r),
                }),
            ),
    {
        let r = self.backend.render_present();
        proof {
            self.calls@ = self.calls@.push(
                Issued {
                    call: BackendCall::RenderPresent,
                    outcome: done(r),
                },
            );
        }
        r
    }

    pub fn render_copy_texture(
        &mut self,
        texture: TextureId,
        options: CopyTextureOptions,
    ) -> (r: Result<(), Error>)
        ensures
            final(self).calls() == old(self).calls().push(
                (Issued {
                    call: BackendCall::RenderCopyTexture { texture, options },
                    outcome: done(r),
                }),
            ),
    {
        let r = self.backend.render_copy_texture(texture, options);
        proof {
            self.calls@ = self.calls@.push(
                Issued {
                    call: BackendCall::RenderCopyTexture { texture, options },
                    outcome: done(r),
                },
            );
        }
        r
    }

    pub fn render_fill_rect(&mut self, rect: Option<Rect>, color: Color) -> (r: Result<(), Error>)
        ensures
            final(self).calls() == old(self).calls().push(
                (Issued {
                    call: BackendCall::RenderFillRect { rect, color },
                    outcome: done(r),
                }),
            ),
    {
        let r = self.backend.render_fill_rect(rect, color);
        proof {
            self.calls@ = self.calls@.push(
                Issued {
                    call: BackendCall::RenderFillRect { rect, color },
                    outcome: done(r),
                },
            );
        }
        r
    }

    pub fn render_draw_rect(&mut self, rect: Option<Rect>, color: Color) -> (r: Result<(), Error>)
        ensures
            final(self).calls() == old(self).calls().push(
                (Issued {
                    call: BackendCall::RenderDrawRect { rect, color },
                    outcome: done(r),
                }),
            ),
    {
        let r = self.backend.render_draw_rect(rect, color);
        proof {
            self.calls@ = self.calls@.push(
                Issued {
                    call: BackendCall::RenderDrawRect { rect, color },
                    outcome: done(r),
                },
            );
        }
        r
    }

    /// Draws one glyph onto the current target, its top left corner at
    /// `origin`.
    pub fn render_font_glyph(
        &mut self,
        font: FontId,
        glyph: char,
        origin: Point,
    ) -> (r: Result<(), Error>)
        ensures
            final(self).calls() == old(self).calls().push(
                (Issued {
                    call: BackendCall::RenderFontGlyph { font, glyph, origin },
                    outcome: done(r),
                }),
            ),
    {
        let r = self.backend.render_font_glyph(font, glyph, origin);
        proof {
            self.calls@ = self.calls@.push(
                Issued {
                    call: BackendCall::RenderFontGlyph { font, glyph, origin },
                    outcome: done(r),
                },
            );
        }
        r
    }

    pub fn input_mouse_position(&mut self) -> (r: Result<(i32, i32), Error>)
        ensures
            final(self).calls() == old(self).calls().push(
                (Issued {
                    call: BackendCall::InputMousePosition,
                    outcome: position_outcome(r),
                }),
            ),
    {
        let r = self.backend.input_mouse_position();
        proof {
            self.calls@ = self.calls@.push(
                Issued {
                    call: BackendCall::InputMousePosition,
                    outcome: position_outcome(r),
                },
            );
        }
        r
    }

    /// Milliseconds since the backend started.
    pub fn system_get_millis(&mut self) -> (r: Result<u64, Error>)
        ensures
            final(self).calls() == old(self).calls().push(
                (Issued {
                    call: BackendCall::SystemGetMillis,
                    outcome: millis_outcome(r),
                }),
            ),
    {
        let r = self.backend.system_get_millis();
        proof {
            self.calls@ = self.calls@.push(
                Issued {
                    call: BackendCall::SystemGetMillis,
                    outcome: millis_outcome(r),
                },
            );
        }
        r
    }

    /// Appends to `events` what came in since the last call.
    pub fn events_pump(&mut self, events: &mut Vec<Event>)
        ensures
            final(self).calls() == old(self).calls().push(
                (Issued { call: BackendCall::EventsPump, outcome: Outcome::Done }),
            ),
    {
        self.backend.events_pump(events);
        proof {
            self.calls@ = self.calls@.push(
                Issued { call: BackendCall::EventsPump, outcome: Outcome::Done },
            );
        }
    }

    /// Hands a line of text to the backend's log. It is not recorded.
    pub fn system_log(&self, s: &str) {
        self.backend.system_log(s);
    }
}

} // verus!
