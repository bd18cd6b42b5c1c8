//! The scroll position of the viewer and how input moves it.
use vstd::prelude::*;

verus! {

/// The first aligned row shown and how far the message columns are scrolled
/// sideways.
#[derive(Default)]
pub struct State {
    offset: usize,
    horizontal_offset: u16,
}

impl View for State {
    type V = (usize, u16);

    closed spec fn view(&self) -> (usize, u16) {
        (self.offset, self.horizontal_offset)
    }
}

pub open spec fn after_left(s: (usize, u16)) -> (usize, u16) {
    (s.0, if s.1 == 0 { 0 } else { (s.1 - 1) as u16 })
}

pub open spec fn after_right(s: (usize, u16)) -> (usize, u16) {
    (s.0, if s.1 == u16::MAX { u16::MAX } else { (s.1 + 1) as u16 })
}

pub open spec fn after_up(s: (usize, u16)) -> (usize, u16) {
    (if s.0 == 0 { 0 } else { (s.0 - 1) as usize }, s.1)
}

/// One row further down, but never past the last of `length` rows.
pub open spec fn after_down(s: (usize, u16), length: usize) -> (usize, u16) {
    let next: int = if s.0 == usize::MAX { usize::MAX as int } else { s.0 + 1 };
    let last: int = if length == 0 { 0 } else { length - 1 };
    ((if next < last { next } else { last }) as usize, s.1)
}

/// What the viewer does with an input: keep running or quit.
#[derive(Clone, Copy, Debug, PartialEq, Eq, Structural)]
pub enum Action {
    Continue,
    Quit,
}

/// An input to the viewer: a key, a wheel or touchpad scroll (with whether Shift
/// was held), or anything else.
#[derive(Clone, Copy, Debug, PartialEq, Eq, Structural)]
pub enum InputEvent {
    KeyUp,
    KeyDown,
    KeyLeft,
    KeyRight,
    KeyQuit,
    WheelUp { shift: bool },
    WheelDown { shift: bool },
    WheelLeft,
    WheelRight,
    Other,
}

/// The position after an input, over `length` rows.
pub open spec fn after_event(s: (usize, u16), e: InputEvent, length: usize) -> (usize, u16) {
    match e {
        InputEvent::KeyUp => after_up(s),
        InputEvent::KeyDown => after_down(s, length),
        InputEvent::KeyLeft => after_left(s),
        InputEvent::KeyRight => after_right(s),
        InputEvent::WheelUp { shift } => if shift {
            after_left(s)
        } else {
            after_up(s)
        },
        InputEvent::WheelDown { shift } => if shift {
            after_right(s)
        } else {
            after_down(s, length)
        },
        InputEvent::WheelLeft => after_left(s),
        InputEvent::WheelRight => after_right(s),
        _ => s,
    }
}

impl State {
    pub fn new() -> (s: State)
        ensures
            s@ == (0usize, 0u16),
    {
        State { offset: 0, horizontal_offset: 0 }
    }

    /// A position with the given offsets.
    pub fn at(offset: usize, horizontal_offset: u16) -> (s: State)
        ensures
            s@ == (offset, horizontal_offset),
    {
        State { offset, horizontal_offset }
    }

    pub fn offset(&self) -> (o: usize)
        ensures
            o == self@.0,
    {
        self.offset
    }

    pub fn horizontal_offset(&self) -> (h: u16)
        ensures
            h == self@.1,
    {
        self.horizontal_offset
    }

    pub fn scroll_left(&mut self)
        ensures
            final(self)@ == after_left(old(self)@),
    {
        self.horizontal_offset = self.horizontal_offset.saturating_sub(1);
    }

    pub fn scroll_right(&mut self)
        ensures
            final(self)@ == after_right(old(self)@),
    {
        self.horizontal_offset = self.horizontal_offset.saturating_add(1);
    }

    pub fn scroll_up(&mut self)
        ensures
            final(self)@ == after_up(old(self)@),
    {
        self.offset = self.offset.saturating_sub(1);
    }

    pub fn scroll_down(&mut self, length: usize)
        ensures
            final(self)@ == after_down(old(self)@, length),
    {
        let next = self.offset.saturating_add(1);
        let last = length.saturating_sub(1);
        self.offset = if next < last {
            next
        } else {
            last
        };
    }

    /// Applies an input to the position and says whether the viewer goes on.
    pub fn handle_event(&mut self, event: InputEvent, length: usize) -> (a: Action)
        ensures
            final(self)@ == after_event(old(self)@, event, length),
            (a == Action::Quit) <==> (event == InputEvent::KeyQuit),
    {
        match event {
            InputEvent::KeyQuit => {
                return Action::Quit;
            },
            InputEvent::KeyUp => self.scroll_up(),
            InputEvent::KeyDown => self.scroll_down(length),
            InputEvent::KeyLeft => self.scroll_left(),
            InputEvent::KeyRight => self.scroll_right(),
            InputEvent::WheelUp { shift } => {
                if shift {
                    self.scroll_left();
                } else {
                    self.scroll_up();
                }
            },
            InputEvent::WheelDown { shift } => {
                if shift {
                    self.scroll_right();
                } else {
                    self.scroll_down(length);
                }
            },
            InputEvent::WheelLeft => self.scroll_left(),
            InputEvent::WheelRight => self.scroll_right(),
            InputEvent::Other => {},
        }
        Action::Continue
    }
}

/// Scrolling sideways never moves the vertical position, and scrolling up or
/// down never moves the horizontal one.
pub proof fn lemma_axes_independent(s: (usize, u16), length: usize)
    ensures
        after_left(s).0 == s.0,
        after_right(s).0 == s.0,
        after_up(s).1 == s.1,
        after_down(s, length).1 == s.1,
{
}

/// Scrolling down stays on a row that exists: never past the last row, and on
/// the first when there are none.
pub proof fn lemma_down_stays_in_bounds(s: (usize, u16), length: usize)
    ensures
        length == 0 ==> after_down(s, length).0 == 0,
        length > 0 ==> after_down(s, length).0 < length,
        s.0 < length ==> after_down(s, length).0 >= s.0,
{
}

/// Scrolling right then left returns to the start unless the sideways offset was
/// already at its maximum, and scrolling down then up does so whenever there was
/// a row below.
pub proof fn lemma_scroll_round_trips(s: (usize, u16), length: usize)
    ensures
        s.1 < u16::MAX ==> after_left(after_right(s)) == s,
        s.0 + 1 < length ==> after_up(after_down(s, length)) == s,
{
}

/// The last row that the offset may reach over `length` rows: the first row
/// when there are none.
pub open spec fn last_row(length: usize) -> int {
    if length == 0 {
        0
    } else {
        length - 1
    }
}

/// The position after a run of inputs, over `length` rows.
pub open spec fn after_events(s: (usize, u16), events: Seq<InputEvent>, length: usize) -> (
    usize,
    u16,
)
    decreases events.len(),
{
    if events.len() == 0 {
        s
    } else {
        after_events(after_event(s, events[0], length), events.skip(1), length)
    }
}

/// Whatever inputs arrive, a position on an existing row (on the first, when
/// there are none) stays on one: after every run of inputs, and so before
/// every frame that is drawn, the offset is at most the last row. The viewer
/// starts at `State::new()`, offset zero, which meets this.
pub proof fn lemma_events_stay_in_bounds(s: (usize, u16), events: Seq<InputEvent>, length: usize)
    requires
        s.0 <= last_row(length),
    ensures
        after_events(s, events, length).0 <= last_row(length),
    decreases events.len(),
{
    if events.len() > 0 {
        lemma_events_stay_in_bounds(after_event(s, events[0], length), events.skip(1), length);
    }
}
} // verus!
