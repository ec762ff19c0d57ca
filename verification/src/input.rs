//! Keyboard and mouse state, as the events of one frame after another
//! shape it.

use crate::types::{Event, Key};
use vstd::prelude::*;

verus! {

/// What is known of one key: whether it is held, and whether it went down
/// or up since the memory was last cleared.
#[derive(Copy, Clone, Debug, Default, PartialEq, Eq, Structural)]
pub struct KeyState {
    pub down: bool,
    pub just_down: bool,
    pub just_up: bool,
}

/// The place of a key in the table of key states. `Key::Count` has none.
pub open spec fn key_slot(key: Key) -> Option<int> {
    match key {
        Key::W => Some(0),
        Key::A => Some(1),
        Key::S => Some(2),
        Key::D => Some(3),
        Key::Count => None,
    }
}

fn slot_of(key: Key) -> (slot: Option<usize>)
    ensures
        match slot {
            Some(i) => key_slot(key) == Some(i as int) && i < 4,
            None => key_slot(key).is_none(),
        },
{
    match key {
        Key::W => Some(0),
        Key::A => Some(1),
        Key::S => Some(2),
        Key::D => Some(3),
        Key::Count => None,
    }
}

/// A key that is not held and carries no mark.
pub open spec fn released() -> KeyState {
    KeyState { down: false, just_down: false, just_up: false }
}

/// The key states with the one of `key` replaced. `Key::Count` names no
/// key, so for it nothing is replaced.
pub open spec fn with_key(keys: Seq<KeyState>, key: Key, state: KeyState) -> Seq<KeyState> {
    match key_slot(key) {
        Some(i) => keys.update(i, state),
        None => keys,
    }
}

/// The key states with every mark cleared.
pub open spec fn unmarked(keys: Seq<KeyState>) -> Seq<KeyState> {
    Seq::new(
        keys.len(),
        |i: int| KeyState { down: keys[i].down, just_down: false, just_up: false },
    )
}

/// The state of every key.
#[derive(Copy, Clone, Debug)]
pub struct KeyboardState {
    keys: [KeyState; 4],
}

impl View for KeyboardState {
    type V = Seq<KeyState>;

    /// The state of each key, by its place in the table.
    closed spec fn view(&self) -> Seq<KeyState> {
        self.keys@
    }
}

impl KeyboardState {
    /// What is known of `key`. `Key::Count` names no key: it is never held
    /// and never goes down or up.
    pub open spec fn key(&self, key: Key) -> KeyState {
        match key_slot(key) {
            Some(i) => self@[i],
            None => released(),
        }
    }

    /// There is one state for each key.
    pub proof fn lemma_four_keys(&self)
        ensures
            self@.len() == 4,
    {
    }

    fn get(&self, key: Key) -> (state: KeyState)
        ensures
            state == self.key(key),
    {
        match slot_of(key) {
            Some(i) => self.keys[i],
            None => KeyState { down: false, just_down: false, just_up: false },
        }
    }

    fn put(&mut self, key: Key, state: KeyState)
        ensures
            final(self)@ == with_key(old(self)@, key, state),
    {
        match slot_of(key) {
            Some(i) => {
                self.keys[i] = state;
            },
            None => {},
        }
    }

    /// Whether the key is held.
    pub fn is_key_down(&self, key: Key) -> (r: bool)
        ensures
            r == self.key(key).down,
    {
        self.get(key).down
    }

    /// Whether the key is not held.
    pub fn is_key_up(&self, key: Key) -> (r: bool)
        ensures
            r == !self.key(key).down,
    {
        !self.get(key).down
    }

    /// Whether the key's went-down mark is clear.
    pub fn is_key_just_down(&self, key: Key) -> (r: bool)
        ensures
            r == !self.key(key).just_down,
    {
        !self.get(key).just_down
    }

    /// Whether the key's went-up mark is clear.
    pub fn is_key_just_up(&self, key: Key) -> (r: bool)
        ensures
            r == !self.key(key).just_up,
    {
        !self.get(key).just_up
    }

    /// Clears every mark; which keys are held stays.
    pub fn clear_memory(&mut self)
        ensures
            final(self)@ == unmarked(old(self)@),
    {
        let mut i: usize = 0;
        while i < 4
            invariant
                i <= 4,
                forall|j: int|
                    0 <= j < i ==> #[trigger] self.keys@[j] == (KeyState {
                        down: old(self).keys@[j].down,
                        just_down: false,
                        just_up: false,
                    }),
                forall|j: int| i <= j < 4 ==> #[trigger] self.keys@[j] == old(self).keys@[j],
            decreases 4 - i,
        {
            let down = self.keys[i].down;
            self.keys[i] = KeyState { down, just_down: false, just_up: false };
            i += 1;
        }
        assert(self@ =~= unmarked(old(self)@));
    }

    /// Records that the key went down: it is held, and marked as having
    /// gone down.
    pub fn on_key_down(&mut self, key: Key)
        ensures
            final(self)@ == with_key(
                old(self)@,
                key,
                KeyState { down: true, just_down: true, just_up: false },
            ),
    {
        self.put(key, KeyState { down: true, just_down: true, just_up: false });
    }

    /// Records that the key went up: it is no longer held, and carries no
    /// mark.
    pub fn on_key_up(&mut self, key: Key)
        ensures
            final(self)@ == with_key(old(self)@, key, released()),
    {
        self.put(key, KeyState { down: false, just_down: false, just_up: false });
    }
}

impl Default for KeyboardState {
    /// No key is held and none carries a mark.
    fn default() -> (state: Self)
        ensures
            state@ == Seq::new(4, |i: int| released()),
    {
        let key = KeyState { down: false, just_down: false, just_up: false };
        let state = KeyboardState { keys: [key, key, key, key] };
        assert(state@ =~= Seq::new(4, |i: int| released()));
        state
    }
}

/// What a `MouseState` holds.
pub struct MouseView {
    pub x: i32,
    pub y: i32,
    pub down: bool,
    pub just_down: bool,
    pub just_up: bool,
    pub double_click: bool,
}

/// Position and button state of the mouse.
#[derive(Copy, Clone, Debug)]
pub struct MouseState {
    x: i32,
    y: i32,
    down: bool,
    just_down: bool,
    just_up: bool,
    double_click: bool,
}

impl View for MouseState {
    type V = MouseView;

    closed spec fn view(&self) -> MouseView {
        MouseView {
            x: self.x,
            y: self.y,
            down: self.down,
            just_down: self.just_down,
            just_up: self.just_up,
            double_click: self.double_click,
        }
    }
}

impl MouseState {
    pub fn x(&self) -> (r: i32)
        ensures
            r == self@.x,
    {
        self.x
    }

    pub fn y(&self) -> (r: i32)
        ensures
            r == self@.y,
    {
        self.y
    }

    /// Whether the button is held.
    pub fn is_down(&self) -> (r: bool)
        ensures
            r == self@.down,
    {
        self.down
    }

    /// Whether the button is not held.
    pub fn is_up(&self) -> (r: bool)
        ensures
            r == !self@.down,
    {
        !self.down
    }

    /// Whether the button went down since the memory was last cleared.
    pub fn is_just_down(&self) -> (r: bool)
        ensures
            r == self@.just_down,
    {
        self.just_down
    }

    /// Whether the button went up since the memory was last cleared.
    pub fn is_just_up(&self) -> (r: bool)
        ensures
            r == self@.just_up,
    {
        self.just_up
    }

    /// Whether a double click came in since the memory was last cleared.
    pub fn is_double_click(&self) -> (r: bool)
        ensures
            r == self@.double_click,
    {
        self.double_click
    }

    /// Forgets what happened to the button; position and whether it is held
    /// stay.
    pub fn clear_memory(&mut self)
        ensures
            final(self)@ == (MouseView {
                just_down: false,
                just_up: false,
                double_click: false,
                ..old(self)@
            }),
    {
        self.just_down = false;
        self.just_up = false;
        self.double_click = false;
    }

    pub fn set_position(&mut self, x: i32, y: i32)
        ensures
            final(self)@ == (MouseView { x, y, ..old(self)@ }),
    {
        self.x = x;
        self.y = y;
    }

    /// Records that the button went down.
    pub fn on_down(&mut self)
        ensures
            final(self)@ == (MouseView {
                down: true,
                just_down: true,
                just_up: false,
                ..old(self)@
            }),
    {
        self.down = true;
        self.just_down = true;
        self.just_up = false;
    }

    /// Records that the button went up.
    pub fn on_up(&mut self)
        ensures
            final(self)@ == (MouseView {
                down: false,
                just_down: false,
                just_up: true,
                ..old(self)@
            }),
    {
        self.down = false;
        self.just_down = false;
        self.just_up = true;
    }

    /// Records a double click: the button is up again, and the click is
    /// remembered.
    pub fn on_double_click(&mut self)
        ensures
            final(self)@ == (MouseView {
                down: false,
                just_down: false,
                just_up: true,
                double_click: true,
                ..old(self)@
            }),
    {
        self.down = false;
        self.just_down = false;
        self.just_up = true;
        self.double_click = true;
    }
}

impl Default for MouseState {
    /// The mouse at the origin, the button up, nothing remembered.
    fn default() -> (state: Self)
        ensures
            state@ == mouse_at_rest(),
    {
        MouseState {
            x: 0,
            y: 0,
            down: false,
            just_down: false,
            just_up: false,
            double_click: false,
        }
    }
}

/// The mouse at rest at the origin.
pub open spec fn mouse_at_rest() -> MouseView {
    MouseView { x: 0, y: 0, down: false, just_down: false, just_up: false, double_click: false }
}

/// What an `InputState` holds.
pub struct InputView {
    pub keys: Seq<KeyState>,
    pub mouse: MouseView,
}

/// No key is held, and the mouse is at rest at the origin.
pub open spec fn idle() -> InputView {
    InputView { keys: Seq::new(4, |i: int| released()), mouse: mouse_at_rest() }
}

/// The input state behind an event. `Close` changes nothing.
pub open spec fn after_event(input: InputView, event: Event) -> InputView {
    match event {
        Event::KeyDown(key) => InputView {
            keys: with_key(
                input.keys,
                key,
                KeyState { down: true, just_down: true, just_up: false },
            ),
            ..input
        },
        Event::KeyUp(key) => InputView { keys: with_key(input.keys, key, released()), ..input },
        Event::MouseDown => InputView {
            mouse: MouseView { down: true, just_down: true, just_up: false, ..input.mouse },
            ..input
        },
        Event::MouseUp => InputView {
            mouse: MouseView { down: false, just_down: false, just_up: true, ..input.mouse },
            ..input
        },
        Event::MouseDoubleClick => InputView {
            mouse: MouseView {
                down: false,
                just_down: false,
                just_up: true,
                double_click: true,
                ..input.mouse
            },
            ..input
        },
        Event::Close => input,
    }
}

/// How many of the events are taken in: all before the first `Close`.
pub open spec fn taken_in(events: Seq<Event>) -> int
    decreases events.len(),
{
    if events.len() == 0 || events[0] is Close {
        0
    } else {
        1 + taken_in(events.drop_first())
    }
}

/// The input state behind the first `count` of the events.
pub open spec fn after_events(input: InputView, events: Seq<Event>, count: int) -> InputView
    decreases count,
{
    if count <= 0 {
        input
    } else {
        after_event(after_events(input, events, count - 1), events[count - 1])
    }
}

/// The input state at the start of a frame: every mark is cleared, and the
/// mouse is where it was found.
pub open spec fn at_frame_start(input: InputView, x: i32, y: i32) -> InputView {
    InputView {
        keys: unmarked(input.keys),
        mouse: MouseView {
            x,
            y,
            just_down: false,
            just_up: false,
            double_click: false,
            ..input.mouse
        },
    }
}

/// Keyboard and mouse together.
#[derive(Copy, Clone, Debug)]
pub struct InputState {
    pub keyboard: KeyboardState,
    pub mouse: MouseState,
}

impl View for InputState {
    type V = InputView;

    open spec fn view(&self) -> InputView {
        InputView { keys: self.keyboard@, mouse: self.mouse@ }
    }
}

impl InputState {
    /// Takes in one event. Returns whether it was `Close`, which changes
    /// nothing.
    pub fn apply(&mut self, event: Event) -> (close: bool)
        ensures
            close == (event is Close),
            final(self)@ == after_event(old(self)@, event),
    {
        match event {
            Event::KeyDown(key) => {
                self.keyboard.on_key_down(key);
                false
            },
            Event::KeyUp(key) => {
                self.keyboard.on_key_up(key);
                false
            },
            Event::MouseDown => {
                self.mouse.on_down();
                false
            },
            Event::MouseUp => {
                self.mouse.on_up();
                false
            },
            Event::MouseDoubleClick => {
                self.mouse.on_double_click();
                false
            },
            Event::Close => true,
        }
    }
}

impl Default for InputState {
    /// No key is held, and the mouse is at rest at the origin.
    fn default() -> (state: Self)
        ensures
            state@ == idle(),
    {
        InputState { keyboard: KeyboardState::default(), mouse: MouseState::default() }
    }
}

} // verus!
