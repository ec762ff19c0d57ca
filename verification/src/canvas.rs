//! The render scope: what is drawn goes to one target at a time, and a
//! nested scope hands the target back when it ends.

use crate::backend::{
    done, extends, result_of, Backend, BackendCall, Error, Issued, Outcome, Traced,
};
use crate::font::{bounded_copies, drawn, grown, line_copies, measured, registered, Font};
use crate::texture::Texture;
use crate::types::{
    Color, CopyTextureOptions, FontId, GlyphMetrics, Point, Rect, TextAlign, TextCrossAlign,
    TextPadding, TextureId,
};
use vstd::prelude::*;

verus! {

/// The identity of the texture to draw to; `None` for the screen.
pub open spec fn target_id(target: Option<&mut Texture>) -> Option<TextureId> {
    match target {
        Some(texture) => Some(texture@.id),
        None => None,
    }
}

/// One copy from a texture onto the target.
#[derive(Copy, Clone, Debug, PartialEq, Eq, Structural)]
pub struct TextureCopy {
    pub texture: TextureId,
    pub options: CopyTextureOptions,
}

/// The call that makes a copy.
pub open spec fn copy_call(copy: TextureCopy) -> BackendCall {
    BackendCall::RenderCopyTexture { texture: copy.texture, options: copy.options }
}

/// The copies were made in their order, one call each, up to the first that
/// failed; none was made behind it. The result is success where all were
/// made and none failed, else the error of the one that failed.
pub open spec fn copied(
    before: Seq<Issued>,
    after: Seq<Issued>,
    copies: Seq<TextureCopy>,
    r: Result<(), Error>,
) -> bool {
    let made = after.len() - before.len();
    &&& extends(before, after)
    &&& made <= copies.len()
    &&& forall|j: int|
        0 <= j < made ==> (#[trigger] after[before.len() + j]).call == copy_call(copies[j])
    &&& forall|j: int|
        0 <= j < made - 1 ==> (#[trigger] after[before.len() + j]).outcome == Outcome::Done
    &&& match r {
        Ok(_) => made == copies.len() && (made > 0 ==> after.last().outcome == Outcome::Done),
        Err(e) => made > 0 && after.last().outcome == Outcome::Failed(e),
    }
}

/// A backend with one target bound: a texture, or the screen.
pub struct Canvas<'a, B: Backend> {
    backend: &'a mut Traced<B>,
    target: Option<TextureId>,
}

impl<'a, B: Backend> Canvas<'a, B> {
    /// The target that was bound when the canvas was made.
    pub closed spec fn target(&self) -> Option<TextureId> {
        self.target
    }

    /// Every call made on the backend so far, oldest first.
    pub closed spec fn calls(&self) -> Seq<Issued> {
        self.backend.calls()
    }

    /// Binds `target`, or the screen for `None`, with one call of the
    /// backend, and returns the canvas that draws to it. Where the call
    /// fails, its error comes back and nothing else is done.
    pub fn new(backend: &'a mut Traced<B>, target: Option<&'a mut Texture>) -> (r: Result<
        Self,
        Error,
    >)
        ensures
            match r {
                Ok(canvas) => {
                    &&& canvas.target() == target_id(target)
                    &&& canvas.calls() == old(backend).calls().push(
                        Issued {
                            call: BackendCall::RenderSetTarget { target: target_id(target) },
                            outcome: Outcome::Done,
                        },
                    )
                },
                Err(e) => final(backend).calls() == old(backend).calls().push(
                    Issued {
                        call: BackendCall::RenderSetTarget { target: target_id(target) },
                        outcome: Outcome::Failed(e),
                    },
                ),
            },
    {
        let id = match target {
            Some(texture) => Some(texture.id()),
            None => None,
        };
        match backend.render_set_target(id) {
            Ok(()) => Ok(Canvas { backend, target: id }),
            Err(e) => Err(e),
        }
    }

    /// Fills the whole target with `color`.
    pub fn clear(&mut self, color: Color) -> (r: Result<(), Error>)
        ensures
            final(self).target() == old(self).target(),
            final(self).calls() == old(self).calls().push(
                (Issued {
                    call: BackendCall::RenderFillRect { rect: None, color },
                    outcome: done(r),
                }),
            ),
    {
        self.backend.render_fill_rect(None, color)
    }

    /// Copies `texture` onto the target.
    pub fn copy_texture(&mut self, texture: &Texture, options: CopyTextureOptions) -> (r: Result<
        (),
        Error,
    >)
        ensures
            final(self).target() == old(self).target(),
            final(self).calls() == old(self).calls().push(
                (Issued {
                    call: BackendCall::RenderCopyTexture { texture: texture@.id, options },
                    outcome: done(r),
                }),
            ),
    {
        self.backend.render_copy_texture(texture.id(), options)
    }

    /// Makes the copies in their order, one call of the backend each, and
    /// stops at the first that fails.
    pub fn copy_all(&mut self, copies: &Vec<TextureCopy>) -> (r: Result<(), Error>)
        ensures
            final(self).target() == old(self).target(),
            copied(old(self).calls(), final(self).calls(), copies@, r),
    {
        let ghost before = self.calls();
        let mut j: usize = 0;
        while j < copies.len()
            invariant
                j <= copies@.len(),
                self.target() == old(self).target(),
                before == old(self).calls(),
                extends(before, self.calls()),
                self.calls().len() == before.len() + j,
                forall|k: int|
                    0 <= k < j ==> (#[trigger] self.calls()[before.len() + k]).call == copy_call(
                        copies@[k],
                    ),
                forall|k: int|
                    0 <= k < j ==> (#[trigger] self.calls()[before.len() + k]).outcome
                        == Outcome::Done,
            decreases copies@.len() - j,
        {
            let copy = copies[j];
            let ghost so_far = self.calls();
            match self.backend.render_copy_texture(copy.texture, copy.options) {
                Ok(()) => {},
                Err(e) => {
                    proof {
                        assert forall|k: int| 0 <= k < j + 1 implies (
                        #[trigger] self.calls()[before.len() + k]).call == copy_call(
                            copies@[k],
                        ) by {
                            if k < j {
                                assert(self.calls()[before.len() + k] == so_far[before.len() + k]);
                            }
                        }
                        assert forall|k: int| 0 <= k < j implies (
                        #[trigger] self.calls()[before.len() + k]).outcome == Outcome::Done by {
                            assert(self.calls()[before.len() + k] == so_far[before.len() + k]);
                        }
                    }
                    return Err(e);
                },
            }
            proof {
                assert forall|k: int| 0 <= k < j + 1 implies (
                #[trigger] self.calls()[before.len() + k]).call == copy_call(copies@[k]) by {
                    if k < j {
                        assert(self.calls()[before.len() + k] == so_far[before.len() + k]);
                    }
                }
                assert forall|k: int| 0 <= k < j + 1 implies (
                #[trigger] self.calls()[before.len() + k]).outcome == Outcome::Done by {
                    if k < j {
                        assert(self.calls()[before.len() + k] == so_far[before.len() + k]);
                    }
                }
            }
            j += 1;
        }
        proof {
            if j > 0 {
                assert(self.calls()[before.len() + (j - 1)].outcome == Outcome::Done);
            }
        }
        Ok(())
    }

    /// Draws the outline of `rect`, or of the whole target for `None`.
    pub fn draw_rect(&mut self, rect: Option<Rect>, color: Color) -> (r: Result<(), Error>)
        ensures
            final(self).target() == old(self).target(),
            final(self).calls() == old(self).calls().push(
                (Issued { call: BackendCall::RenderDrawRect { rect, color }, outcome: done(r) }),
            ),
    {
        self.backend.render_draw_rect(rect, color)
    }

    /// Registers the text with the font and draws it as one line, its first
    /// glyph with its top left corner at `position`.
    pub fn draw_text(&mut self, font: &mut Font, text: &str, position: Point, color: Color) -> (r:
        Result<(), Error>)
        requires
            old(font).wf(),
        ensures
            final(font).wf(),
            grown(old(font), final(font)),
            final(self).target() == old(self).target(),
            exists|mid: Seq<Issued>| #[trigger]
                drawn(
                    old(font),
                    final(font),
                    text@,
                    line_copies(final(font), text@, position, color),
                    old(self).calls(),
                    mid,
                    final(self).calls(),
                    old(self).target(),
                    r,
                ),
    {
        font.draw_text(self, text, position, color)
    }

    /// Registers the text with the font and draws it inside `rect`, broken
    /// into lines. Justified text fails with `InvalidInput`, without a call.
    pub fn draw_text_bounded(
        &mut self,
        font: &mut Font,
        text: &str,
        color: Color,
        rect: Rect,
        align: TextAlign,
        cross_align: TextCrossAlign,
        padding: TextPadding,
    ) -> (r: Result<(), Error>)
        requires
            old(font).wf(),
        ensures
            final(font).wf(),
            grown(old(font), final(font)),
            final(self).target() == old(self).target(),
            align is Justified ==> {
                &&& r == Err::<(), Error>(Error::InvalidInput)
                &&& final(self).calls() == old(self).calls()
                &&& final(font).glyphs() == old(font).glyphs()
                &&& final(font).atlas_views() == old(font).atlas_views()
            },
            !(align is Justified) ==> exists|mid: Seq<Issued>| #[trigger]
                drawn(
                    old(font),
                    final(font),
                    text@,
                    bounded_copies(final(font), text@, color, rect, align, cross_align, padding),
                    old(self).calls(),
                    mid,
                    final(self).calls(),
                    old(self).target(),
                    r,
                ),
    {
        font.draw_text_bounded(self, text, color, rect, align, cross_align, padding)
    }

    /// Copies atlas `index` of the font onto the target, with one call of
    /// the backend. Where the font has no such atlas, no call is made and
    /// the result is `ResourceNotFound`.
    pub fn copy_font_atlas(&mut self, font: &Font, index: usize, options: CopyTextureOptions) -> (r:
        Result<(), Error>)
        ensures
            final(self).target() == old(self).target(),
            index < font.atlas_views().len() ==> final(self).calls() == old(self).calls().push(
                (Issued {
                    call: BackendCall::RenderCopyTexture {
                        texture: font.atlas_views()[index as int].texture.id,
                        options,
                    },
                    outcome: done(r),
                }),
            ),
            index >= font.atlas_views().len() ==> r == Err::<(), Error>(Error::ResourceNotFound)
                && final(self).calls() == old(self).calls(),
    {
        match font.atlas(index) {
            Some(atlas_id) => self.backend.render_copy_texture(atlas_id, options),
            None => Err(Error::ResourceNotFound),
        }
    }

    /// Registers the text with the font and returns how wide it is as one
    /// line.
    pub fn text_width(&mut self, font: &mut Font, text: &str) -> (r: Result<u32, Error>)
        requires
            old(font).wf(),
        ensures
            final(font).wf(),
            grown(old(font), final(font)),
            final(self).target() == old(self).target(),
            measured(
                old(font),
                final(font),
                text@,
                old(self).calls(),
                final(self).calls(),
                old(self).target(),
                r,
            ),
    {
        font.line_width(text, self)
    }

    /// Makes sure that every character of the text has its glyph in an atlas
    /// of the font.
    pub fn register_text(&mut self, font: &mut Font, text: &str) -> (r: Result<(), Error>)
        requires
            old(font).wf(),
        ensures
            final(font).wf(),
            grown(old(font), final(font)),
            registered(
                old(font),
                final(font),
                text@,
                old(self).calls(),
                final(self).calls(),
                old(self).target(),
                r,
            ),
            final(self).target() == old(self).target(),
    {
        font.register_text(text, self)
    }

    /// Draws one glyph of a font onto the target.
    pub fn render_glyph(&mut self, font_id: FontId, glyph: char, position: Point) -> (r: Result<
        (),
        Error,
    >)
        ensures
            final(self).target() == old(self).target(),
            final(self).calls() == old(self).calls().push(
                (Issued {
                    call: BackendCall::RenderFontGlyph { font: font_id, glyph, origin: position },
                    outcome: done(r),
                }),
            ),
    {
        self.backend.render_font_glyph(font_id, glyph, position)
    }

    /// Asks the backend for the metrics of one glyph of a font.
    pub fn glyph_metrics(&mut self, font_id: FontId, glyph: char) -> (r: Result<
        GlyphMetrics,
        Error,
    >)
        ensures
            final(self).target() == old(self).target(),
            final(self).calls() == old(self).calls().push(
                (Issued {
                    call: BackendCall::FontGlyphMetrics { font: font_id, glyph },
                    outcome: crate::backend::metrics_outcome(r),
                }),
            ),
    {
        self.backend.font_glyph_metrics(font_id, glyph)
    }

    /// Creates a texture to draw to.
    pub(crate) fn create_target(&mut self, w: u32, h: u32) -> (r: Result<Texture, Error>)
        ensures
            final(self).target() == old(self).target(),
            final(self).calls() == old(self).calls().push(
                (Issued {
                    call: BackendCall::TextureCreate { width: w, height: h },
                    outcome: crate::texture::texture_made(r),
                }),
            ),
            r matches Ok(texture) ==> texture@.kind == crate::texture::TextureKind::Target,
    {
        Texture::new_target(self.backend, w, h)
    }

    /// Binds `texture` in place of the canvas's own target.
    pub(crate) fn enter(&mut self, texture: &Texture) -> (r: Result<(), Error>)
        ensures
            final(self).target() == old(self).target(),
            final(self).calls() == old(self).calls().push(
                (Issued {
                    call: BackendCall::RenderSetTarget { target: Some(texture@.id) },
                    outcome: done(r),
                }),
            ),
    {
        self.backend.render_set_target(Some(texture.id()))
    }

    /// Binds the canvas's own target again.
    pub(crate) fn leave(&mut self) -> (r: Result<(), Error>)
        ensures
            final(self).target() == old(self).target(),
            final(self).calls() == old(self).calls().push(
                (Issued {
                    call: BackendCall::RenderSetTarget { target: old(self).target() },
                    outcome: done(r),
                }),
            ),
    {
        self.backend.render_set_target(self.target)
    }

    /// Runs `body` with `target` bound, or the screen for `None`, and binds
    /// the canvas's own target again behind it, whether `body` succeeded or
    /// not.
    ///
    /// The first call binds `target`. Where it fails, its error comes back
    /// at once: `body` does not run and nothing is bound again. Else `body`
    /// runs once, on this canvas with `target` as its target, and the call
    /// behind it binds the canvas's own target again. The result is the
    /// error of `body` where it failed, else what the last call answered.
    /// No other call is made than these two and those of `body`.
    pub fn with_target<F>(&mut self, target: Option<&mut Texture>, body: F) -> (r: Result<
        (),
        Error,
    >) where F: FnOnce(&mut Canvas<B>) -> Result<(), Error>
        requires
            forall|scope: &mut Canvas<B>| call_requires(body, (scope,)),
        ensures
            final(self).target() == old(self).target(),
            ({
                let bind = BackendCall::RenderSetTarget { target: target_id(target) };
                let back = BackendCall::RenderSetTarget { target: old(self).target() };
                ||| {
                    &&& r is Err
                    &&& final(self).calls() == old(self).calls().push(
                        Issued { call: bind, outcome: Outcome::Failed(r->Err_0) },
                    )
                }
                ||| exists|scope: &mut Canvas<B>, ran: Result<(), Error>|
                    {
                        &&& #[trigger] call_ensures(body, (scope,), ran)
                        &&& scope.target() == target_id(target)
                        &&& scope.calls() == old(self).calls().push(
                            Issued { call: bind, outcome: Outcome::Done },
                        )
                        &&& final(self).calls() == final(scope).calls().push(
                            final(self).calls().last(),
                        )
                        &&& final(self).calls().last().call == back
                        &&& final(self).calls().last().outcome is Done
                            || final(self).calls().last().outcome is Failed
                        &&& r == (match ran {
                            Ok(_) => result_of(final(self).calls().last().outcome),
                            Err(e) => Err(e),
                        })
                    }
            }),
    {
        let id = match target {
            Some(texture) => Some(texture.id()),
            None => None,
        };
        match self.backend.render_set_target(id) {
            Err(e) => Err(e),
            Ok(()) => {
                let own = self.target;
                self.target = id;
                let ghost before = *self;
                let ran = body(self);
                let ghost after = *self;
                self.target = own;
                let restored = self.backend.render_set_target(own);
                let r = match ran {
                    Ok(()) => restored,
                    Err(e) => Err(e),
                };
                proof {
                    let given = choose|given: &mut Canvas<B>| #[trigger]
                        call_ensures(body, (given,), ran) && *given == before && *final(given)
                            == after;
                    assert(call_ensures(body, (given,), ran));
                    assert(given.target() == target_id(target));
                    assert(self.calls() == final(given).calls().push(self.calls().last()));
                    assert(result_of(done(restored)) == restored) by {
                        if restored is Ok {
                            assert(restored->Ok_0 == ());
                        }
                    }
                    assert(r == (match ran {
                        Ok(_) => result_of(self.calls().last().outcome),
                        Err(e) => Err(e),
                    }));
                }
                r
            },
        }
    }

    /// Ends a frame. A canvas that draws to the screen shows what was drawn,
    /// with one call of the backend; one that draws to a texture makes no
    /// call and succeeds.
    pub fn present(&mut self) -> (r: Result<(), Error>)
        ensures
            final(self).target() == old(self).target(),
            old(self).target() is Some ==> r is Ok && final(self).calls() == old(self).calls(),
            old(self).target() is None ==> final(self).calls() == old(self).calls().push(
                (Issued { call: BackendCall::RenderPresent, outcome: done(r) }),
            ),
    {
        match self.target {
            None => self.backend.render_present(),
            Some(_) => Ok(()),
        }
    }
}

} // verus!
