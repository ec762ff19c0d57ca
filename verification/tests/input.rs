use panko::input::{InputState, KeyboardState, MouseState};
use panko::types::{Event, Key};

#[test]
fn a_fresh_keyboard_holds_no_key() {
    let keyboard = KeyboardState::default();
    for key in [Key::W, Key::A, Key::S, Key::D, Key::Count] {
        assert!(!keyboard.is_key_down(key));
        assert!(keyboard.is_key_up(key));
        assert!(keyboard.is_key_just_down(key));
        assert!(keyboard.is_key_just_up(key));
    }
}

#[test]
fn a_key_that_went_down_is_held_and_marked() {
    let mut keyboard = KeyboardState::default();
    keyboard.on_key_down(Key::A);
    assert!(keyboard.is_key_down(Key::A));
    assert!(!keyboard.is_key_up(Key::A));
    assert!(!keyboard.is_key_just_down(Key::A));
    assert!(keyboard.is_key_just_up(Key::A));
    assert!(!keyboard.is_key_down(Key::W));
    assert!(keyboard.is_key_just_down(Key::W));
    keyboard.clear_memory();
    assert!(keyboard.is_key_down(Key::A));
    assert!(keyboard.is_key_just_down(Key::A));
    keyboard.on_key_up(Key::A);
    assert!(keyboard.is_key_up(Key::A));
    assert!(keyboard.is_key_just_down(Key::A));
    assert!(keyboard.is_key_just_up(Key::A));
}

#[test]
fn the_key_that_closes_the_list_names_no_key() {
    let mut keyboard = KeyboardState::default();
    keyboard.on_key_down(Key::Count);
    for key in [Key::W, Key::A, Key::S, Key::D, Key::Count] {
        assert!(keyboard.is_key_up(key));
    }
    keyboard.on_key_down(Key::D);
    keyboard.on_key_up(Key::Count);
    assert!(keyboard.is_key_down(Key::D));
}

#[test]
fn the_mouse_remembers_what_happened_until_cleared() {
    let mut mouse = MouseState::default();
    assert_eq!((mouse.x(), mouse.y()), (0, 0));
    assert!(mouse.is_up() && !mouse.is_down());
    assert!(!mouse.is_just_down() && !mouse.is_just_up() && !mouse.is_double_click());
    mouse.set_position(-3, 40);
    mouse.on_down();
    assert_eq!((mouse.x(), mouse.y()), (-3, 40));
    assert!(mouse.is_down() && mouse.is_just_down() && !mouse.is_just_up());
    mouse.clear_memory();
    assert!(mouse.is_down() && !mouse.is_just_down());
    mouse.on_up();
    assert!(mouse.is_up() && mouse.is_just_up() && !mouse.is_just_down());
    mouse.clear_memory();
    mouse.on_down();
    mouse.on_double_click();
    assert!(mouse.is_up() && mouse.is_just_up() && !mouse.is_just_down());
    assert!(mouse.is_double_click());
    mouse.clear_memory();
    assert!(!mouse.is_double_click() && !mouse.is_just_up());
    assert_eq!((mouse.x(), mouse.y()), (-3, 40));
}

#[test]
fn events_shape_the_input_state() {
    let mut input = InputState::default();
    assert!(!input.apply(Event::KeyDown(Key::W)));
    assert!(!input.apply(Event::MouseDown));
    assert!(input.keyboard.is_key_down(Key::W));
    assert!(input.mouse.is_down());
    assert!(!input.apply(Event::KeyUp(Key::W)));
    assert!(!input.apply(Event::MouseUp));
    assert!(input.keyboard.is_key_up(Key::W));
    assert!(input.mouse.is_just_up());
    assert!(!input.apply(Event::MouseDoubleClick));
    assert!(input.mouse.is_double_click());
    assert!(input.apply(Event::Close));
    assert!(input.mouse.is_double_click());
}
