//! What an application holds on to between frames: the backend, the input
//! state and the clock of the fixed time step.

use crate::backend::{
    done, millis_outcome, Backend, BackendCall, Error, Issued, Outcome, Traced,
};
use crate::canvas::Canvas;
use crate::font::{loaded, released, Font};
use crate::input::{after_events, at_frame_start, idle, taken_in, InputState, InputView};
use crate::texture::{texture_made, Texture, TextureKind};
use crate::types::{Event, WindowConfig};
use vstd::prelude::*;

verus! {

/// Length of a fixed update step in milliseconds.
pub const FIXED_TIMESTEP_MILLIS: u64 = 16;

/// The sum of two times, or the largest time where the sum is above it.
pub open spec fn capped_sum(a: u64, b: u64) -> u64 {
    if a + b > u64::MAX {
        u64::MAX
    } else {
        (a + b) as u64
    }
}

/// The time from `earlier` to `later`; zero where `later` is not later.
pub open spec fn elapsed(earlier: u64, later: u64) -> u64 {
    if later >= earlier {
        (later - earlier) as u64
    } else {
        0
    }
}

/// The clock of the frame loop: when the last frame began, and how much
/// time has passed that no fixed step has used up yet.
#[derive(Copy, Clone, Debug, PartialEq, Eq, Structural)]
pub struct FrameClock {
    pub millis_now: u64,
    pub acc_millis: u64,
}

impl FrameClock {
    /// A clock that starts at `now` with nothing to use up.
    pub fn new(now: u64) -> (clock: Self)
        ensures
            clock == (FrameClock { millis_now: now, acc_millis: 0 }),
    {
        FrameClock { millis_now: now, acc_millis: 0 }
    }

    /// Begins a frame at `now`. Returns the time since the frame before
    /// began, which is also added to the time to use up. A clock that runs
    /// backwards counts as standing still.
    pub fn tick(&mut self, now: u64) -> (delta: u64)
        ensures
            delta == elapsed(old(self).millis_now, now),
            *final(self) == (FrameClock {
                millis_now: now,
                acc_millis: capped_sum(old(self).acc_millis, delta),
            }),
    {
        let delta = if now >= self.millis_now {
            now - self.millis_now
        } else {
            0
        };
        self.millis_now = now;
        self.acc_millis = if delta > u64::MAX - self.acc_millis {
            u64::MAX
        } else {
            self.acc_millis + delta
        };
        delta
    }

    /// Uses up one fixed step, if that much time is there. Returns whether a
    /// step was used up.
    pub fn take_fixed_step(&mut self) -> (step: bool)
        ensures
            step == (old(self).acc_millis >= FIXED_TIMESTEP_MILLIS),
            final(self).millis_now == old(self).millis_now,
            final(self).acc_millis == (if step {
                (old(self).acc_millis - FIXED_TIMESTEP_MILLIS) as u64
            } else {
                old(self).acc_millis
            }),
    {
        if self.acc_millis >= FIXED_TIMESTEP_MILLIS {
            self.acc_millis = self.acc_millis - FIXED_TIMESTEP_MILLIS;
            true
        } else {
            false
        }
    }
}

/// Where no event before place `upto` is `Close`, at least that many events
/// are taken in, and exactly that many where the events end there or the
/// next is `Close`.
proof fn lemma_taken_in(events: Seq<Event>, upto: int)
    requires
        0 <= upto <= events.len(),
        forall|j: int| 0 <= j < upto ==> !((#[trigger] events[j]) is Close),
    ensures
        taken_in(events) >= upto,
        upto == events.len() || events[upto] is Close ==> taken_in(events) == upto,
    decreases events.len(),
{
    if upto > 0 {
        let rest = events.drop_first();
        assert forall|j: int| 0 <= j < upto - 1 implies !((#[trigger] rest[j]) is Close) by {
            assert(rest[j] == events[j + 1]);
        }
        assert(!(events[0] is Close));
        if upto < events.len() {
            assert(rest[upto - 1] == events[upto]);
        }
        lemma_taken_in(rest, upto - 1);
    } else if events.len() > 0 && !(events[0] is Close) {
        lemma_taken_in(events.drop_first(), 0);
    }
}

/// The backend, the input state and the events of the current frame.
pub struct Context<B: Backend> {
    backend: Traced<B>,
    input: InputState,
    events: Vec<Event>,
    quit: bool,
}

impl<B: Backend> Context<B> {
    /// Every call made on the backend so far, oldest first.
    pub closed spec fn calls(&self) -> Seq<Issued> {
        self.backend.calls()
    }

    /// The input state.
    pub closed spec fn input_view(&self) -> InputView {
        self.input@
    }

    /// The events of the current frame.
    pub closed spec fn events(&self) -> Seq<Event> {
        self.events@
    }

    /// Whether the application has asked to quit.
    pub closed spec fn quit(&self) -> bool {
        self.quit
    }

    /// Takes charge of a backend. No call has been made, no key is held, the
    /// mouse is at rest and nobody has asked to quit.
    pub fn new(backend: B) -> (context: Self)
        ensures
            context.calls() == Seq::<Issued>::empty(),
            context.input_view() == idle(),
            context.events() == Seq::<Event>::empty(),
            !context.quit(),
    {
        Context {
            backend: Traced::new(backend),
            input: InputState::default(),
            events: Vec::with_capacity(16),
            quit: false,
        }
    }

    pub fn set_window_config(&mut self, config: WindowConfig) -> (r: Result<(), Error>)
        ensures
            final(self).calls() == old(self).calls().push(
                (Issued { call: BackendCall::WindowSetConfig { config }, outcome: done(r) }),
            ),
            final(self).input_view() == old(self).input_view(),
            final(self).quit() == old(self).quit(),
    {
        self.backend.window_set_config(config)
    }

    /// Loads the image at `path` as a texture.
    pub fn load_texture(&mut self, path: &str) -> (r: Result<Texture, Error>)
        ensures
            final(self).calls() == old(self).calls().push(
                (Issued {
                    call: BackendCall::TextureLoad { path: path@ },
                    outcome: texture_made(r),
                }),
            ),
            r matches Ok(texture) ==> texture@.kind == TextureKind::Static,
            final(self).input_view() == old(self).input_view(),
            final(self).quit() == old(self).quit(),
    {
        Texture::new_static(&mut self.backend, path)
    }

    /// Creates a texture to draw to.
    pub fn create_target(&mut self, w: u32, h: u32) -> (r: Result<Texture, Error>)
        ensures
            final(self).calls() == old(self).calls().push(
                (Issued {
                    call: BackendCall::TextureCreate { width: w, height: h },
                    outcome: texture_made(r),
                }),
            ),
            r matches Ok(texture) ==> texture@.kind == TextureKind::Target,
            final(self).input_view() == old(self).input_view(),
            final(self).quit() == old(self).quit(),
    {
        Texture::new_target(&mut self.backend, w, h)
    }

    /// Loads the font at `path` in size `scale`, with one empty atlas: see
    /// `Font::new`.
    pub fn load_font(&mut self, path: &str, scale: u8) -> (r: Result<Font, Error>)
        ensures
            loaded(old(self).calls(), final(self).calls(), path@, scale, r),
            final(self).input_view() == old(self).input_view(),
            final(self).quit() == old(self).quit(),
    {
        Font::new(&mut self.backend, path, scale)
    }

    /// Gives a texture back to the backend.
    pub fn release_texture(&mut self, texture: Texture) -> (r: Result<(), Error>)
        ensures
            final(self).calls() == old(self).calls().push(
                (Issued {
                    call: BackendCall::TextureDestroy { texture: texture@.id },
                    outcome: done(r),
                }),
            ),
            final(self).input_view() == old(self).input_view(),
            final(self).quit() == old(self).quit(),
    {
        texture.release(&mut self.backend)
    }

    /// Gives a font and its atlases back to the backend: see
    /// `Font::release`.
    pub fn release_font(&mut self, font: Font)
        ensures
            released(old(self).calls(), final(self).calls(), font.atlas_views(), font.font_id()),
            final(self).input_view() == old(self).input_view(),
            final(self).quit() == old(self).quit(),
    {
        font.release(&mut self.backend);
    }

    /// Asks to quit at the end of the frame.
    pub fn request_quit(&mut self)
        ensures
            final(self).quit(),
            final(self).calls() == old(self).calls(),
            final(self).input_view() == old(self).input_view(),
    {
        self.quit = true;
    }

    /// Whether the application has asked to quit.
    pub fn quit_requested(&self) -> (r: bool)
        ensures
            r == self.quit(),
    {
        self.quit
    }

    /// The input state as it is now.
    pub fn input(&self) -> (input: InputState)
        ensures
            input@ == self.input_view(),
    {
        self.input
    }

    /// Milliseconds since the backend started, with one call of the
    /// backend.
    pub fn millis(&mut self) -> (r: Result<u64, Error>)
        ensures
            final(self).calls() == old(self).calls().push(
                (Issued { call: BackendCall::SystemGetMillis, outcome: millis_outcome(r) }),
            ),
            final(self).input_view() == old(self).input_view(),
            final(self).quit() == old(self).quit(),
    {
        self.backend.system_get_millis()
    }

    /// Takes in the input of a frame. The backend is asked where the mouse
    /// is; where that fails, the error comes back and nothing has changed.
    /// Else every mark of the frame before is cleared, the backend is asked
    /// for the events that came in, and they are taken in one after the
    /// other up to the first `Close`. Returns whether there was a `Close`.
    pub fn poll(&mut self) -> (r: Result<bool, Error>)
        ensures
            final(self).quit() == old(self).quit(),
            match r {
                Err(e) => {
                    &&& final(self).calls() == old(self).calls().push(
                        Issued {
                            call: BackendCall::InputMousePosition,
                            outcome: Outcome::Failed(e),
                        },
                    )
                    &&& final(self).input_view() == old(self).input_view()
                },
                Ok(close) => exists|x: i32, y: i32|
                    {
                        &&& #[trigger] final(self).calls() == old(self).calls().push(
                            Issued {
                                call: BackendCall::InputMousePosition,
                                outcome: Outcome::Position(x, y),
                            },
                        ).push(Issued { call: BackendCall::EventsPump, outcome: Outcome::Done })
                        &&& final(self).input_view() == after_events(
                            at_frame_start(old(self).input_view(), x, y),
                            final(self).events(),
                            taken_in(final(self).events()),
                        )
                        &&& close == (taken_in(final(self).events()) < final(self).events().len())
                    },
            },
    {
        let (x, y) = match self.backend.input_mouse_position() {
            Ok(at) => at,
            Err(e) => {
                return Err(e);
            },
        };
        self.input.mouse.set_position(x, y);
        self.input.keyboard.clear_memory();
        self.input.mouse.clear_memory();
        self.events.clear();
        self.backend.events_pump(&mut self.events);
        let ghost start = self.input@;
        assert(start == at_frame_start(old(self).input_view(), x, y));
        let mut close = false;
        let mut i: usize = 0;
        while i < self.events.len() && !close
            invariant
                i <= self.events@.len(),
                self.quit == old(self).quit,
                self.backend.calls() == old(self).calls().push(
                    Issued {
                        call: BackendCall::InputMousePosition,
                        outcome: Outcome::Position(x, y),
                    },
                ).push(Issued { call: BackendCall::EventsPump, outcome: Outcome::Done }),
                close ==> 0 < i && self.events@[i - 1] is Close,
                forall|j: int|
                    0 <= j < (if close {
                        i - 1
                    } else {
                        i as int
                    }) ==> !((#[trigger] self.events@[j]) is Close),
                self.input@ == after_events(
                    start,
                    self.events@,
                    if close {
                        i - 1
                    } else {
                        i as int
                    },
                ),
            decreases self.events@.len() - i,
        {
            let event = self.events[i];
            close = self.input.apply(event);
            i += 1;
        }
        proof {
            if close {
                lemma_taken_in(self.events@, i - 1);
            } else {
                lemma_taken_in(self.events@, i as int);
            }
        }
        Ok(close)
    }

    /// Begins to draw a frame: clears what was drawn and binds the screen,
    /// with one call of the backend each, and returns the canvas that draws
    /// to the screen. Where a call fails, its error comes back and no call
    /// follows.
    pub fn canvas(&mut self) -> (r: Result<Canvas<'_, B>, Error>)
        ensures
            match r {
                Ok(canvas) => {
                    &&& canvas.target() is None
                    &&& canvas.calls() == old(self).calls().push(
                        Issued { call: BackendCall::RenderClear, outcome: Outcome::Done },
                    ).push(
                        Issued {
                            call: BackendCall::RenderSetTarget { target: None },
                            outcome: Outcome::Done,
                        },
                    )
                },
                Err(e) => {
                    ||| final(self).calls() == old(self).calls().push(
                        Issued { call: BackendCall::RenderClear, outcome: Outcome::Failed(e) },
                    )
                    ||| final(self).calls() == old(self).calls().push(
                        Issued { call: BackendCall::RenderClear, outcome: Outcome::Done },
                    ).push(
                        Issued {
                            call: BackendCall::RenderSetTarget { target: None },
                            outcome: Outcome::Failed(e),
                        },
                    )
                },
            },
    {
        match self.backend.render_clear() {
            Ok(()) => {},
            Err(e) => {
                return Err(e);
            },
        }
        Canvas::new(&mut self.backend, None)
    }
}

} // verus!
