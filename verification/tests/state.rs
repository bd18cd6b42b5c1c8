use logsync::view_state::{Action, InputEvent, State};

#[test]
fn horizontal_scrolling_saturates_and_preserves_vertical_offset() {
    let mut state = State::default();
    state.scroll_down(3);
    state.scroll_left();
    assert_eq!(state.horizontal_offset(), 0);
    state.scroll_right();
    assert_eq!(state.horizontal_offset(), 1);
    state.scroll_left();
    assert_eq!(state.horizontal_offset(), 0);
    state = State::at(state.offset(), u16::MAX);
    state.scroll_right();
    assert_eq!(state.horizontal_offset(), u16::MAX);
    assert_eq!(state.offset(), 1);
}

#[test]
fn scrolling_stays_within_bounds() {
    let mut state = State::default();
    state.scroll_up();
    assert_eq!(state.offset(), 0);
    state.scroll_down(0);
    assert_eq!(state.offset(), 0);
    state.scroll_down(2);
    assert_eq!(state.offset(), 1);
    state.scroll_down(2);
    assert_eq!(state.offset(), 1);
    state.scroll_up();
    assert_eq!(state.offset(), 0);
}

#[test]
fn scrolling_down_then_up_returns_when_there_is_room() {
    let mut state = State::at(4, 7);
    state.scroll_down(10);
    assert_eq!(state.offset(), 5);
    state.scroll_up();
    assert_eq!((state.offset(), state.horizontal_offset()), (4, 7));
    state.scroll_right();
    state.scroll_left();
    assert_eq!((state.offset(), state.horizontal_offset()), (4, 7));
}

#[test]
fn scrolling_down_past_an_offset_beyond_the_end_clamps_it() {
    let mut state = State::at(9, 0);
    state.scroll_down(3);
    assert_eq!(state.offset(), 2);
    let mut state = State::at(usize::MAX, 0);
    state.scroll_down(usize::MAX);
    assert_eq!(state.offset(), usize::MAX - 1);
}

#[test]
fn events_move_the_position_and_only_quit_stops() {
    let mut state = State::new();
    assert_eq!(state.handle_event(InputEvent::KeyDown, 5), Action::Continue);
    assert_eq!(state.handle_event(InputEvent::WheelDown { shift: false }, 5), Action::Continue);
    assert_eq!(state.offset(), 2);
    state.handle_event(InputEvent::WheelDown { shift: true }, 5);
    state.handle_event(InputEvent::WheelRight, 5);
    state.handle_event(InputEvent::KeyRight, 5);
    assert_eq!(state.horizontal_offset(), 3);
    state.handle_event(InputEvent::WheelUp { shift: true }, 5);
    state.handle_event(InputEvent::WheelLeft, 5);
    state.handle_event(InputEvent::KeyLeft, 5);
    assert_eq!(state.horizontal_offset(), 0);
    state.handle_event(InputEvent::WheelUp { shift: false }, 5);
    state.handle_event(InputEvent::KeyUp, 5);
    state.handle_event(InputEvent::Other, 5);
    assert_eq!((state.offset(), state.horizontal_offset()), (0, 0));
    assert_eq!(state.handle_event(InputEvent::KeyQuit, 5), Action::Quit);
}

#[test]
fn a_long_run_of_inputs_never_passes_the_last_row() {
    let events = [
        InputEvent::KeyDown,
        InputEvent::WheelDown { shift: false },
        InputEvent::KeyDown,
        InputEvent::WheelDown { shift: true },
        InputEvent::KeyUp,
        InputEvent::KeyDown,
        InputEvent::Other,
    ];
    for length in [0usize, 1, 2, 4] {
        let mut state = State::new();
        for round in 0..20 {
            let event = events[round % events.len()];
            state.handle_event(event, length);
            assert!(state.offset() <= length.saturating_sub(1), "{length} {round}");
        }
    }
}
