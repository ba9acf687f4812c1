//! The list of containers: its state, and how it answers input, Docker and timers.
use crate::docker::{self, Container};
use crate::input::{
    key_id, key_number, Event, KeyCode, KeyEvent, KeyEventKind, MouseButton, MouseEvent,
    MouseEventKind, MODIFIERS_CONTROL, MODIFIERS_NONE, MODIFIERS_SHIFT,
};
use crate::input_state_machine::{
    has_bound_prefix, input_outcome, is_prefix, lemma_binding_recognized, prefix_free,
    prefix_of_binding, Builder, InputResult, InputStateMachine,
};
use crate::timer::{self, Id};
use crate::viewport::{imax, imin, ScrollbarParameters, Viewport, ViewportView};
use std::ops::AddAssign;
use vstd::prelude::*;
use vstd::string::{StrSliceExecFns, StringExecFns};
use vstd::std_specs::hash::obeys_key_model;

verus! {

/// What the container list asks of the rest of the program.
#[derive(Clone, Copy, Debug, PartialEq, Eq, Structural)]
pub enum MessageOut {
    Exit,
    Render,
    /// Ring the terminal bell.
    Bell,
    ToDocker(docker::MessageIn),
    ToTimer(timer::MessageIn),
}

/// What a key binding does.
#[derive(Clone, Copy, Debug, PartialEq, Eq, Structural)]
pub enum Command {
    Quit,
    MoveSelectionUpOneLine,
    MoveSelectionDownOneLine,
    MoveSelectionToFirstLine,
    MoveSelectionToLastLine,
    ScrollUpOneLine,
    ScrollUpHalfPage,
    ScrollUpFullPage,
    ScrollDownOneLine,
    ScrollDownHalfPage,
    ScrollDownFullPage,
    ScrollSelectionToTop,
    ScrollSelectionToMiddle,
    ScrollSelectionToBottom,
    ToggleBlock,
    ToggleScrollbar,
    ToggleAllContainers,
}

/// When to show a scrollbar.
#[derive(Clone, Copy, Debug, PartialEq, Eq, Structural)]
pub enum HaveScrollbar {
    IfNecesssary,
    Never,
    Always,
}

impl HaveScrollbar {
    pub open spec fn following(self) -> HaveScrollbar {
        match self {
            HaveScrollbar::IfNecesssary => HaveScrollbar::Never,
            HaveScrollbar::Never => HaveScrollbar::Always,
            HaveScrollbar::Always => HaveScrollbar::IfNecesssary,
        }
    }

    /// The next choice, in a cycle of the three.
    pub fn next(self) -> (r: Self)
        ensures
            r == self.following(),
    {
        match self {
            Self::IfNecesssary => Self::Never,
            Self::Never => Self::Always,
            Self::Always => Self::IfNecesssary,
        }
    }
}

/// A column of the list.
#[derive(Clone, Copy, Debug, PartialEq, Eq, Structural)]
pub enum ContainerField {
    Id,
    Image,
    Command,
    Created,
    Status,
    Names,
}

/// A rectangle of terminal cells.
#[derive(Clone, Copy, Debug, PartialEq, Eq, Structural)]
pub struct Rect {
    pub x: u16,
    pub y: u16,
    pub width: u16,
    pub height: u16,
}

/// The saturating sum of two cell coordinates.
pub open spec fn sat_add16(a: int, b: int) -> int {
    if a + b > u16::MAX { u16::MAX as int } else { a + b }
}

/// The saturating difference of two cell counts.
pub open spec fn sat_sub16(a: int, b: int) -> int {
    if a - b < 0 { 0 } else { a - b }
}

impl Rect {
    /// The rectangle with no cells, at the origin.
    pub open spec fn zero() -> Rect {
        Rect { x: 0, y: 0, width: 0, height: 0 }
    }

    /// The column just past the rectangle (at most the last column a terminal can have).
    pub open spec fn right(self) -> int {
        sat_add16(self.x as int, self.width as int)
    }

    /// The row just past the rectangle (at most the last row a terminal can have).
    pub open spec fn bottom(self) -> int {
        sat_add16(self.y as int, self.height as int)
    }

    /// Whether the cell at `column` and `row` lies inside the rectangle.
    pub open spec fn holds(self, column: u16, row: u16) -> bool {
        self.x <= column < self.right() && self.y <= row < self.bottom()
    }

    /// What is left inside a border around the rectangle.
    pub open spec fn inside_border(self) -> Rect {
        Rect {
            x: if sat_add16(self.x as int, 1) < self.right() {
                sat_add16(self.x as int, 1) as u16
            } else {
                self.right() as u16
            },
            y: if sat_add16(self.y as int, 1) < self.bottom() {
                sat_add16(self.y as int, 1) as u16
            } else {
                self.bottom() as u16
            },
            width: sat_sub16(self.width as int, 2) as u16,
            height: sat_sub16(self.height as int, 2) as u16,
        }
    }

    /// The rectangle without its first and last rows (nothing, when it has fewer than two).
    pub open spec fn without_first_and_last_rows(self) -> Rect {
        if self.height < 2 {
            Rect::zero()
        } else {
            Rect { y: sat_add16(self.y as int, 1) as u16, height: (self.height - 2) as u16, ..self }
        }
    }

    /// Whether the cell at `column` and `row` lies inside the rectangle.
    pub fn contains(&self, column: u16, row: u16) -> (r: bool)
        ensures
            r == self.holds(column, row),
    {
        column >= self.x && column < self.x.saturating_add(self.width) && row >= self.y && row
            < self.y.saturating_add(self.height)
    }

    /// What is left inside a border around the rectangle.
    pub fn inner_of_border(&self) -> (r: Rect)
        ensures
            r == self.inside_border(),
    {
        let mut inner = *self;
        let right = inner.x.saturating_add(inner.width);
        let x = inner.x.saturating_add(1);
        inner.x = if x < right { x } else { right };
        inner.width = inner.width.saturating_sub(1);
        let bottom = inner.y.saturating_add(inner.height);
        let y = inner.y.saturating_add(1);
        inner.y = if y < bottom { y } else { bottom };
        inner.height = inner.height.saturating_sub(1);
        inner.width = inner.width.saturating_sub(1);
        inner.height = inner.height.saturating_sub(1);
        inner
    }

    /// The rectangle without its first and last rows (nothing, when it has fewer than two).
    pub fn inner_rows(&self) -> (r: Rect)
        ensures
            r == self.without_first_and_last_rows(),
    {
        if self.height < 2 {
            Rect { x: 0, y: 0, width: 0, height: 0 }
        } else {
            Rect { x: self.x, y: self.y.saturating_add(1), width: self.width, height: self.height - 2 }
        }
    }
}

/// How long a key sequence may wait for its next key, in milliseconds.
pub const MULTIKEY_INPUT_TIMEOUT: u64 = 3000;

/// How often the list is refreshed, in milliseconds.
pub const REFRESH_INTERVAL: u64 = 10000;

/// The number that stands for a single key press.
pub open spec fn press(code: KeyCode, modifiers: u8) -> Seq<u64> {
    seq![key_number(code, modifiers)]
}

/// The key bindings of the list.
pub open spec fn key_bindings() -> Map<Seq<u64>, Command> {
    Map::<Seq<u64>, Command>::empty().insert(
        press(KeyCode::Char('q'), MODIFIERS_NONE),
        Command::Quit,
    ).insert(press(KeyCode::Esc, MODIFIERS_NONE), Command::Quit).insert(
        press(KeyCode::Char('k'), MODIFIERS_NONE),
        Command::MoveSelectionUpOneLine,
    ).insert(press(KeyCode::Up, MODIFIERS_NONE), Command::MoveSelectionUpOneLine).insert(
        press(KeyCode::Char('j'), MODIFIERS_NONE),
        Command::MoveSelectionDownOneLine,
    ).insert(press(KeyCode::Down, MODIFIERS_NONE), Command::MoveSelectionDownOneLine).insert(
        press(KeyCode::Char('g'), MODIFIERS_NONE) + press(KeyCode::Char('g'), MODIFIERS_NONE),
        Command::MoveSelectionToFirstLine,
    ).insert(press(KeyCode::Home, MODIFIERS_NONE), Command::MoveSelectionToFirstLine).insert(
        press(KeyCode::Char('G'), MODIFIERS_SHIFT),
        Command::MoveSelectionToLastLine,
    ).insert(press(KeyCode::End, MODIFIERS_NONE), Command::MoveSelectionToLastLine).insert(
        press(KeyCode::Char('y'), MODIFIERS_CONTROL),
        Command::ScrollUpOneLine,
    ).insert(press(KeyCode::Char('u'), MODIFIERS_CONTROL), Command::ScrollUpHalfPage).insert(
        press(KeyCode::Char('b'), MODIFIERS_CONTROL),
        Command::ScrollUpFullPage,
    ).insert(press(KeyCode::PageUp, MODIFIERS_NONE), Command::ScrollUpFullPage).insert(
        press(KeyCode::Char('e'), MODIFIERS_CONTROL),
        Command::ScrollDownOneLine,
    ).insert(press(KeyCode::Char('d'), MODIFIERS_CONTROL), Command::ScrollDownHalfPage).insert(
        press(KeyCode::Char('f'), MODIFIERS_CONTROL),
        Command::ScrollDownFullPage,
    ).insert(press(KeyCode::PageDown, MODIFIERS_NONE), Command::ScrollDownFullPage).insert(
        press(KeyCode::Char('z'), MODIFIERS_NONE) + press(KeyCode::Char('t'), MODIFIERS_NONE),
        Command::ScrollSelectionToTop,
    ).insert(
        press(KeyCode::Char('z'), MODIFIERS_NONE) + press(KeyCode::Char('m'), MODIFIERS_NONE),
        Command::ScrollSelectionToMiddle,
    ).insert(
        press(KeyCode::Char('z'), MODIFIERS_NONE) + press(KeyCode::Char('b'), MODIFIERS_NONE),
        Command::ScrollSelectionToBottom,
    ).insert(press(KeyCode::Char('b'), MODIFIERS_NONE), Command::ToggleBlock).insert(
        press(KeyCode::Char('S'), MODIFIERS_SHIFT),
        Command::ToggleScrollbar,
    ).insert(press(KeyCode::Char('a'), MODIFIERS_NONE), Command::ToggleAllContainers)
}

/// A binding fits when its first key starts no other binding, or when it is one of two-key
/// bindings that share their first key and differ in the second.
proof fn lemma_binding_fits<V>(m: Map<Seq<u64>, V>, keys: Seq<u64>)
    requires
        1 <= keys.len() <= 2,
        forall|b: Seq<u64>|
            #[trigger] m.contains_key(b) ==> b.len() >= 1 && (b[0] != keys[0] || (b.len() == 2
                && keys.len() == 2 && b[1] != keys[1])),
    ensures
        !has_bound_prefix(m, keys),
        !prefix_of_binding(m, keys),
{
    assert forall|i: int| 1 <= i < keys.len() implies !#[trigger] m.contains_key(keys.take(i)) by {
        assert(keys.take(i)[0] == keys[0]);
    }
    assert forall|b: Seq<u64>| #[trigger] m.contains_key(b) implies !(keys.len() <= b.len()
        && b.take(keys.len() as int) == keys) by {
        if keys.len() <= b.len() && b.take(keys.len() as int) == keys {
            assert(b.take(keys.len() as int)[0] == b[0]);
            if keys.len() == 2 {
                assert(b.take(keys.len() as int)[1] == b[1]);
            }
        }
    }
}

/// The input state machine of the list's key bindings.
fn key_bindings_machine() -> (m: InputStateMachine<u64, Command>)
    ensures
        m.wf(),
        m.bindings() == key_bindings(),
        m.pending() == Seq::<u64>::empty(),
{
    proof {
        assert(obeys_key_model::<u64>());
    }
    let b = Builder::<u64, Command>::default();
    let keys = vec![key_id(KeyCode::Char('q'), MODIFIERS_NONE)];
    proof {
        assert(keys@ =~= press(KeyCode::Char('q'), MODIFIERS_NONE));
        lemma_binding_fits(b@, keys@);
    }
    let b = b.binding(keys, Command::Quit).unwrap();
    let keys = vec![key_id(KeyCode::Esc, MODIFIERS_NONE)];
    proof {
        assert(keys@ =~= press(KeyCode::Esc, MODIFIERS_NONE));
        lemma_binding_fits(b@, keys@);
    }
    let b = b.binding(keys, Command::Quit).unwrap();
    let keys = vec![key_id(KeyCode::Char('k'), MODIFIERS_NONE)];
    proof {
        assert(keys@ =~= press(KeyCode::Char('k'), MODIFIERS_NONE));
        lemma_binding_fits(b@, keys@);
    }
    let b = b.binding(keys, Command::MoveSelectionUpOneLine).unwrap();
    let keys = vec![key_id(KeyCode::Up, MODIFIERS_NONE)];
    proof {
        assert(keys@ =~= press(KeyCode::Up, MODIFIERS_NONE));
        lemma_binding_fits(b@, keys@);
    }
    let b = b.binding(keys, Command::MoveSelectionUpOneLine).unwrap();
    let keys = vec![key_id(KeyCode::Char('j'), MODIFIERS_NONE)];
    proof {
        assert(keys@ =~= press(KeyCode::Char('j'), MODIFIERS_NONE));
        lemma_binding_fits(b@, keys@);
    }
    let b = b.binding(keys, Command::MoveSelectionDownOneLine).unwrap();
    let keys = vec![key_id(KeyCode::Down, MODIFIERS_NONE)];
    proof {
        assert(keys@ =~= press(KeyCode::Down, MODIFIERS_NONE));
        lemma_binding_fits(b@, keys@);
    }
    let b = b.binding(keys, Command::MoveSelectionDownOneLine).unwrap();
    let keys = vec![key_id(KeyCode::Char('g'), MODIFIERS_NONE), key_id(KeyCode::Char('g'), MODIFIERS_NONE)];
    proof {
        assert(keys@ =~= press(KeyCode::Char('g'), MODIFIERS_NONE) + press(KeyCode::Char('g'), MODIFIERS_NONE));
        lemma_binding_fits(b@, keys@);
    }
    let b = b.binding(keys, Command::MoveSelectionToFirstLine).unwrap();
    let keys = vec![key_id(KeyCode::Home, MODIFIERS_NONE)];
    proof {
        assert(keys@ =~= press(KeyCode::Home, MODIFIERS_NONE));
        lemma_binding_fits(b@, keys@);
    }
    let b = b.binding(keys, Command::MoveSelectionToFirstLine).unwrap();
    let keys = vec![key_id(KeyCode::Char('G'), MODIFIERS_SHIFT)];
    proof {
        assert(keys@ =~= press(KeyCode::Char('G'), MODIFIERS_SHIFT));
        lemma_binding_fits(b@, keys@);
    }
    let b = b.binding(keys, Command::MoveSelectionToLastLine).unwrap();
    let keys = vec![key_id(KeyCode::End, MODIFIERS_NONE)];
    proof {
        assert(keys@ =~= press(KeyCode::End, MODIFIERS_NONE));
        lemma_binding_fits(b@, keys@);
    }
    let b = b.binding(keys, Command::MoveSelectionToLastLine).unwrap();
    let keys = vec![key_id(KeyCode::Char('y'), MODIFIERS_CONTROL)];
    proof {
        assert(keys@ =~= press(KeyCode::Char('y'), MODIFIERS_CONTROL));
        lemma_binding_fits(b@, keys@);
    }
    let b = b.binding(keys, Command::ScrollUpOneLine).unwrap();
    let keys = vec![key_id(KeyCode::Char('u'), MODIFIERS_CONTROL)];
    proof {
        assert(keys@ =~= press(KeyCode::Char('u'), MODIFIERS_CONTROL));
        lemma_binding_fits(b@, keys@);
    }
    let b = b.binding(keys, Command::ScrollUpHalfPage).unwrap();
    let keys = vec![key_id(KeyCode::Char('b'), MODIFIERS_CONTROL)];
    proof {
        assert(keys@ =~= press(KeyCode::Char('b'), MODIFIERS_CONTROL));
        lemma_binding_fits(b@, keys@);
    }
    let b = b.binding(keys, Command::ScrollUpFullPage).unwrap();
    let keys = vec![key_id(KeyCode::PageUp, MODIFIERS_NONE)];
    proof {
        assert(keys@ =~= press(KeyCode::PageUp, MODIFIERS_NONE));
        lemma_binding_fits(b@, keys@);
    }
    let b = b.binding(keys, Command::ScrollUpFullPage).unwrap();
    let keys = vec![key_id(KeyCode::Char('e'), MODIFIERS_CONTROL)];
    proof {
        assert(keys@ =~= press(KeyCode::Char('e'), MODIFIERS_CONTROL));
        lemma_binding_fits(b@, keys@);
    }
    let b = b.binding(keys, Command::ScrollDownOneLine).unwrap();
    let keys = vec![key_id(KeyCode::Char('d'), MODIFIERS_CONTROL)];
    proof {
        assert(keys@ =~= press(KeyCode::Char('d'), MODIFIERS_CONTROL));
        lemma_binding_fits(b@, keys@);
    }
    let b = b.binding(keys, Command::ScrollDownHalfPage).unwrap();
    let keys = vec![key_id(KeyCode::Char('f'), MODIFIERS_CONTROL)];
    proof {
        assert(keys@ =~= press(KeyCode::Char('f'), MODIFIERS_CONTROL));
        lemma_binding_fits(b@, keys@);
    }
    let b = b.binding(keys, Command::ScrollDownFullPage).unwrap();
    let keys = vec![key_id(KeyCode::PageDown, MODIFIERS_NONE)];
    proof {
        assert(keys@ =~= press(KeyCode::PageDown, MODIFIERS_NONE));
        lemma_binding_fits(b@, keys@);
    }
    let b = b.binding(keys, Command::ScrollDownFullPage).unwrap();
    let keys = vec![key_id(KeyCode::Char('z'), MODIFIERS_NONE), key_id(KeyCode::Char('t'), MODIFIERS_NONE)];
    proof {
        assert(keys@ =~= press(KeyCode::Char('z'), MODIFIERS_NONE) + press(KeyCode::Char('t'), MODIFIERS_NONE));
        lemma_binding_fits(b@, keys@);
    }
    let b = b.binding(keys, Command::ScrollSelectionToTop).unwrap();
    let keys = vec![key_id(KeyCode::Char('z'), MODIFIERS_NONE), key_id(KeyCode::Char('m'), MODIFIERS_NONE)];
    proof {
        assert(keys@ =~= press(KeyCode::Char('z'), MODIFIERS_NONE) + press(KeyCode::Char('m'), MODIFIERS_NONE));
        lemma_binding_fits(b@, keys@);
    }
    let b = b.binding(keys, Command::ScrollSelectionToMiddle).unwrap();
    let keys = vec![key_id(KeyCode::Char('z'), MODIFIERS_NONE), key_id(KeyCode::Char('b'), MODIFIERS_NONE)];
    proof {
        assert(keys@ =~= press(KeyCode::Char('z'), MODIFIERS_NONE) + press(KeyCode::Char('b'), MODIFIERS_NONE));
        lemma_binding_fits(b@, keys@);
    }
    let b = b.binding(keys, Command::ScrollSelectionToBottom).unwrap();
    let keys = vec![key_id(KeyCode::Char('b'), MODIFIERS_NONE)];
    proof {
        assert(keys@ =~= press(KeyCode::Char('b'), MODIFIERS_NONE));
        lemma_binding_fits(b@, keys@);
    }
    let b = b.binding(keys, Command::ToggleBlock).unwrap();
    let keys = vec![key_id(KeyCode::Char('S'), MODIFIERS_SHIFT)];
    proof {
        assert(keys@ =~= press(KeyCode::Char('S'), MODIFIERS_SHIFT));
        lemma_binding_fits(b@, keys@);
    }
    let b = b.binding(keys, Command::ToggleScrollbar).unwrap();
    let keys = vec![key_id(KeyCode::Char('a'), MODIFIERS_NONE)];
    proof {
        assert(keys@ =~= press(KeyCode::Char('a'), MODIFIERS_NONE));
        lemma_binding_fits(b@, keys@);
    }
    let b = b.binding(keys, Command::ToggleAllContainers).unwrap();
    b.build()
}


/// The state of a container list.
pub struct ContainerListView {
    pub containers: Seq<Container>,
    pub viewport: ViewportView,
    pub next_timer_id: u64,
    pub refresh_timer: u64,
    pub input_timer: Option<u64>,
    /// The keys of an unfinished key sequence.
    pub pending: Seq<u64>,
    /// Where the rows of the list were last drawn.
    pub click_map: Option<Rect>,
    pub fields: Seq<ContainerField>,
    pub have_block: bool,
    pub have_scrollbar: HaveScrollbar,
    pub all_containers: bool,
}

/// The timer identifier after `id`.
pub open spec fn next_id(id: u64) -> u64 {
    ((id + 1) % 0x1_0000_0000_0000_0000) as u64
}

impl ContainerListView {
    pub open spec fn with_viewport(self, viewport: ViewportView) -> Self {
        ContainerListView { viewport, ..self }
    }

    /// What a command does, and what it asks for.
    pub open spec fn after_command(self, command: Command) -> (Self, Seq<MessageOut>) {
        let v = self.viewport;
        match command {
            Command::Quit => (self, seq![MessageOut::Exit]),
            Command::MoveSelectionUpOneLine => (
                self.with_viewport(v.moved_up_one_line()),
                seq![MessageOut::Render],
            ),
            Command::MoveSelectionDownOneLine => (
                self.with_viewport(v.moved_down_one_line()),
                seq![MessageOut::Render],
            ),
            Command::MoveSelectionToFirstLine => (
                self.with_viewport(v.moved_to_first_line()),
                seq![MessageOut::Render],
            ),
            Command::MoveSelectionToLastLine => (
                self.with_viewport(v.moved_to_last_line()),
                seq![MessageOut::Render],
            ),
            Command::ScrollUpOneLine => (self.with_viewport(v.scrolled_up(1)), seq![MessageOut::Render]),
            Command::ScrollUpHalfPage => (
                self.with_viewport(v.scrolled_up(imax(v.height / 2, 1))),
                seq![MessageOut::Render],
            ),
            Command::ScrollUpFullPage => (
                self.with_viewport(v.scrolled_up(v.rows())),
                seq![MessageOut::Render],
            ),
            Command::ScrollDownOneLine => (
                self.with_viewport(v.scrolled_down(1)),
                seq![MessageOut::Render],
            ),
            Command::ScrollDownHalfPage => (
                self.with_viewport(v.scrolled_down(imax(v.height / 2, 1))),
                seq![MessageOut::Render],
            ),
            Command::ScrollDownFullPage => (
                self.with_viewport(v.scrolled_down(v.rows())),
                seq![MessageOut::Render],
            ),
            Command::ScrollSelectionToTop => (
                self.with_viewport(v.selection_scrolled_to_top()),
                seq![MessageOut::Render],
            ),
            Command::ScrollSelectionToMiddle => (
                self.with_viewport(v.selection_scrolled_to_middle()),
                seq![MessageOut::Render],
            ),
            Command::ScrollSelectionToBottom => (
                self.with_viewport(v.selection_scrolled_to_bottom()),
                seq![MessageOut::Render],
            ),
            Command::ToggleBlock => (
                ContainerListView { have_block: !self.have_block, ..self },
                seq![MessageOut::Render],
            ),
            Command::ToggleScrollbar => (
                ContainerListView { have_scrollbar: self.have_scrollbar.following(), ..self },
                seq![MessageOut::Render],
            ),
            Command::ToggleAllContainers => (
                ContainerListView { all_containers: !self.all_containers, ..self },
                seq![MessageOut::ToDocker(docker::MessageIn::GetContainers { all: !self.all_containers })],
            ),
        }
    }

    /// What a key event does, and what it asks for. A key press cancels the timer of an
    /// unfinished key sequence, and goes to the key bindings: a completed binding runs its command
    /// (and only the command's requests go out); an unfinished one starts a new timer; a key that
    /// no binding expects rings the bell. Other key events do nothing.
    pub open spec fn after_key(self, event: KeyEvent) -> (Self, Seq<MessageOut>) {
        if event.kind != KeyEventKind::Press {
            (self, Seq::empty())
        } else {
            let cancel = match self.input_timer {
                Some(id) => seq![MessageOut::ToTimer(timer::MessageIn::Cancel(Id(id)))],
                None => Seq::empty(),
            };
            let outcome = input_outcome(
                key_bindings(),
                self.pending,
                key_number(event.code, event.modifiers),
            );
            let cleared = ContainerListView { input_timer: None, pending: outcome.1, ..self };
            match outcome.0 {
                InputResult::Done(command) => cleared.after_command(command),
                InputResult::NeedMore => (
                    ContainerListView {
                        input_timer: Some(self.next_timer_id),
                        next_timer_id: next_id(self.next_timer_id),
                        ..cleared
                    },
                    cancel.push(
                        MessageOut::ToTimer(
                            timer::MessageIn::Start(Id(self.next_timer_id), MULTIKEY_INPUT_TIMEOUT),
                        ),
                    ),
                ),
                InputResult::Invalid => (cleared, cancel.push(MessageOut::Bell)),
            }
        }
    }

    /// What a mouse event does, and what it asks for: the wheel scrolls three lines; a left click
    /// on a row of the list selects its container.
    pub open spec fn after_mouse(self, event: MouseEvent) -> (Self, Seq<MessageOut>) {
        match event.kind {
            MouseEventKind::ScrollDown => (
                self.with_viewport(self.viewport.scrolled_down(3)),
                seq![MessageOut::Render],
            ),
            MouseEventKind::ScrollUp => (
                self.with_viewport(self.viewport.scrolled_up(3)),
                seq![MessageOut::Render],
            ),
            MouseEventKind::Down(MouseButton::Left) => (
                match self.click_map {
                    Some(area) => if area.holds(event.column, event.row) {
                        self.with_viewport(self.viewport.clicked(event.row - area.y))
                    } else {
                        self
                    },
                    None => self,
                },
                seq![MessageOut::Render],
            ),
            _ => (self, Seq::empty()),
        }
    }

    /// What an input event does, and what it asks for.
    pub open spec fn after_input(self, event: Event) -> (Self, Seq<MessageOut>) {
        match event {
            Event::Key(key) => self.after_key(key),
            Event::Mouse(mouse) => self.after_mouse(mouse),
            Event::Resize(_, _) => (self, seq![MessageOut::Render]),
            _ => (self, Seq::empty()),
        }
    }

    /// What an expired timer does, and what it asks for: the timer of an unfinished key sequence
    /// rings the bell and forgets the sequence; the refresh timer asks Docker for the containers
    /// and starts the next refresh timer.
    pub open spec fn after_timer(self, id: u64) -> (Self, Seq<MessageOut>) {
        if self.input_timer == Some(id) {
            (ContainerListView { input_timer: None, pending: Seq::empty(), ..self }, seq![MessageOut::Bell])
        } else if self.refresh_timer == id {
            (
                ContainerListView {
                    refresh_timer: self.next_timer_id,
                    next_timer_id: next_id(self.next_timer_id),
                    ..self
                },
                seq![
                    MessageOut::ToDocker(docker::MessageIn::GetContainers { all: self.all_containers }),
                    MessageOut::ToTimer(timer::MessageIn::Start(Id(self.next_timer_id), REFRESH_INTERVAL)),
                ],
            )
        } else {
            (self, Seq::empty())
        }
    }
}

/// The list of containers, with the window over it and the input bindings.
pub struct ContainerList {
    containers: Vec<Container>,
    viewport: Viewport,
    next_timer_id: Id,
    refresh_timer: Id,
    input_timer: Option<Id>,
    input_state_machine: InputStateMachine<u64, Command>,
    click_map: Option<Rect>,
    fields: Vec<ContainerField>,
    have_block: bool,
    have_scrollbar: HaveScrollbar,
    all_containers: bool,
}

impl View for ContainerList {
    type V = ContainerListView;

    closed spec fn view(&self) -> ContainerListView {
        ContainerListView {
            containers: self.containers@,
            viewport: self.viewport@,
            next_timer_id: self.next_timer_id.0,
            refresh_timer: self.refresh_timer.0,
            input_timer: match self.input_timer {
                Some(id) => Some(id.0),
                None => None,
            },
            pending: self.input_state_machine.pending(),
            click_map: self.click_map,
            fields: self.fields@,
            have_block: self.have_block,
            have_scrollbar: self.have_scrollbar,
            all_containers: self.all_containers,
        }
    }
}

impl ContainerList {
    /// Well-formedness: the window is valid and spans the containers, the key bindings are the
    /// list's, and the timer of a key sequence runs exactly while a sequence is unfinished.
    pub closed spec fn wf(&self) -> bool {
        &&& self.viewport@.is_valid()
        &&& self.viewport@.num_containers == self.containers@.len()
        &&& self.input_state_machine.wf()
        &&& self.input_state_machine.bindings() == key_bindings()
        &&& (self.input_timer is Some <==> self.input_state_machine.pending().len() > 0)
    }
}

impl ContainerList {
    /// A list with no containers yet, and what it asks for first: the containers, a refresh
    /// timer, and a render.
    pub fn new() -> (r: (Self, Vec<MessageOut>))
        ensures
            r.0.wf(),
            r.0@ == (ContainerListView {
                containers: Seq::empty(),
                viewport: ViewportView { num_containers: 0, selection: 0, top: 0, height: 0 },
                next_timer_id: 1,
                refresh_timer: 0,
                input_timer: None,
                pending: Seq::empty(),
                click_map: None,
                fields: seq![
                    ContainerField::Id,
                    ContainerField::Image,
                    ContainerField::Command,
                    ContainerField::Created,
                    ContainerField::Status,
                    ContainerField::Names,
                ],
                have_block: true,
                have_scrollbar: HaveScrollbar::IfNecesssary,
                all_containers: true,
            }),
            r.1@ == seq![
                MessageOut::ToDocker(docker::MessageIn::GetContainers { all: true }),
                MessageOut::ToTimer(timer::MessageIn::Start(Id(0), REFRESH_INTERVAL)),
                MessageOut::Render,
            ],
    {
        let input_state_machine = key_bindings_machine();

        let mut next_timer_id = Id::default();
        let refresh_timer = next_timer_id;
        next_timer_id.add_assign(1u64);
        let all_containers = true;

        (
            Self {
                containers: Vec::new(),
                viewport: Viewport::default(),
                next_timer_id,
                refresh_timer,
                input_timer: None,
                input_state_machine,
                click_map: None,
                fields: vec![
                    ContainerField::Id,
                    ContainerField::Image,
                    ContainerField::Command,
                    ContainerField::Created,
                    ContainerField::Status,
                    ContainerField::Names,
                ],
                have_block: true,
                have_scrollbar: HaveScrollbar::IfNecesssary,
                all_containers,
            },
            vec![
                MessageOut::ToDocker(docker::MessageIn::GetContainers { all: all_containers }),
                MessageOut::ToTimer(timer::MessageIn::Start(refresh_timer, REFRESH_INTERVAL)),
                MessageOut::Render,
            ],
        )
    }
}

impl ContainerList {
    fn handle_command(&mut self, command: Command) -> (r: Vec<MessageOut>)
        requires
            old(self).wf(),
        ensures
            final(self).wf(),
            (final(self)@, r@) == old(self)@.after_command(command),
    {
        match command {
            Command::Quit => {
                return vec![MessageOut::Exit];
            },
            Command::MoveSelectionUpOneLine => {
                self.viewport.move_selection_up_one_line();
            },
            Command::MoveSelectionDownOneLine => {
                self.viewport.move_selection_down_one_line();
            },
            Command::MoveSelectionToFirstLine => {
                self.viewport.move_selection_to_first_line();
            },
            Command::MoveSelectionToLastLine => {
                self.viewport.move_selection_to_last_line();
            },
            Command::ScrollUpOneLine => {
                self.viewport.scroll_up_n_lines(1);
            },
            Command::ScrollUpHalfPage => {
                let n = self.viewport.half_page();
                self.viewport.scroll_up_n_lines(n);
            },
            Command::ScrollUpFullPage => {
                let n = self.viewport.full_page();
                self.viewport.scroll_up_n_lines(n);
            },
            Command::ScrollDownOneLine => {
                self.viewport.scroll_down_n_lines(1);
            },
            Command::ScrollDownHalfPage => {
                let n = self.viewport.half_page();
                self.viewport.scroll_down_n_lines(n);
            },
            Command::ScrollDownFullPage => {
                let n = self.viewport.full_page();
                self.viewport.scroll_down_n_lines(n);
            },
            Command::ScrollSelectionToTop => {
                self.viewport.scroll_selection_to_top();
            },
            Command::ScrollSelectionToMiddle => {
                self.viewport.scroll_selection_to_middle();
            },
            Command::ScrollSelectionToBottom => {
                self.viewport.scroll_selection_to_bottom();
            },
            Command::ToggleBlock => {
                self.have_block = !self.have_block;
            },
            Command::ToggleScrollbar => {
                self.have_scrollbar = self.have_scrollbar.next();
            },
            Command::ToggleAllContainers => {
                self.all_containers = !self.all_containers;
                return vec![
                    MessageOut::ToDocker(docker::MessageIn::GetContainers { all: self.all_containers }),
                ];
            },
        }
        vec![MessageOut::Render]
    }

    fn handle_key_event(&mut self, event: KeyEvent) -> (r: Vec<MessageOut>)
        requires
            old(self).wf(),
        ensures
            final(self).wf(),
            (final(self)@, r@) == old(self)@.after_key(event),
    {
        let mut messages_out = vec![];
        if event.kind == KeyEventKind::Press {
            if let Some(id) = self.input_timer.take() {
                messages_out.push(MessageOut::ToTimer(timer::MessageIn::Cancel(id)));
            }
            proof {
                assert(obeys_key_model::<u64>());
            }
            match self.input_state_machine.input(key_id(event.code, event.modifiers)) {
                InputResult::Done(command) => {
                    return self.handle_command(command);
                },
                InputResult::NeedMore => {
                    let input_timer = self.next_timer_id;
                    self.next_timer_id.add_assign(1u64);
                    self.input_timer = Some(input_timer);
                    messages_out.push(
                        MessageOut::ToTimer(
                            timer::MessageIn::Start(input_timer, MULTIKEY_INPUT_TIMEOUT),
                        ),
                    );
                },
                InputResult::Invalid => {
                    messages_out.push(MessageOut::Bell);
                },
            }
        }
        messages_out
    }

    fn handle_mouse_event(&mut self, event: MouseEvent) -> (r: Vec<MessageOut>)
        requires
            old(self).wf(),
        ensures
            final(self).wf(),
            (final(self)@, r@) == old(self)@.after_mouse(event),
    {
        match event.kind {
            MouseEventKind::ScrollDown => {
                self.viewport.scroll_down_n_lines(3);
            },
            MouseEventKind::ScrollUp => {
                self.viewport.scroll_up_n_lines(3);
            },
            MouseEventKind::Down(MouseButton::Left) => {
                if let Some(area) = &self.click_map {
                    if area.contains(event.column, event.row) {
                        let row = event.row - area.y;
                        self.viewport.handle_click(row as usize);
                    }
                }
            },
            _ => {
                return vec![];
            },
        }
        vec![MessageOut::Render]
    }

    /// Handles an event of the terminal.
    pub fn handle_input_event(&mut self, event: Event) -> (r: Vec<MessageOut>)
        requires
            old(self).wf(),
        ensures
            final(self).wf(),
            (final(self)@, r@) == old(self)@.after_input(event),
    {
        match event {
            Event::Key(event) => self.handle_key_event(event),
            Event::Mouse(event) => self.handle_mouse_event(event),
            Event::Resize(_, _) => vec![MessageOut::Render],
            Event::FocusGained | Event::FocusLost | Event::Paste(_) => vec![],
        }
    }

    /// Takes in the containers that Docker listed.
    pub fn handle_docker_response(&mut self, response: docker::MessageOut) -> (r: Vec<MessageOut>)
        requires
            old(self).wf(),
        ensures
            final(self).wf(),
            ({
                let docker::MessageOut::GetContainers(containers) = response;
                &&& final(self)@ == (ContainerListView {
                    containers: containers@,
                    viewport: old(self)@.viewport.with_num_containers(containers@.len() as int),
                    ..old(self)@
                })
                &&& r@ == seq![MessageOut::Render]
            }),
    {
        let docker::MessageOut::GetContainers(containers) = response;
        self.containers = containers;
        self.viewport.change_num_containers(self.containers.len());
        vec![MessageOut::Render]
    }

    /// Handles an expired timer.
    pub fn handle_timer_event(&mut self, event: timer::MessageOut) -> (r: Vec<MessageOut>)
        requires
            old(self).wf(),
        ensures
            final(self).wf(),
            ({
                let timer::MessageOut::TimerExpired(id) = event;
                (final(self)@, r@) == old(self)@.after_timer(id.0)
            }),
    {
        let timer::MessageOut::TimerExpired(id) = event;
        if self.input_timer.is_some() && self.input_timer.unwrap() == id {
            self.input_state_machine.reset();
            self.input_timer = None;
            vec![MessageOut::Bell]
        } else if self.refresh_timer == id {
            self.refresh_timer = self.next_timer_id;
            self.next_timer_id.add_assign(1u64);
            vec![
                MessageOut::ToDocker(docker::MessageIn::GetContainers { all: self.all_containers }),
                MessageOut::ToTimer(timer::MessageIn::Start(self.refresh_timer, REFRESH_INTERVAL)),
            ]
        } else {
            vec![]
        }
    }
}

/// The text `s` stands for in Rust's debug notation: quoted, with its special characters escaped.
pub uninterp spec fn debug_text(s: Seq<char>) -> Seq<char>;

/// The text that `timeago`'s default formatter gives for a time span, such as "5 minutes ago".
pub uninterp spec fn time_ago_text(seconds: u64, nanoseconds: u32) -> Seq<char>;

/// Formats `s` with std's `Debug` for string slices (`format!("{:?}", s)`). The contract claims
/// only that the result is `debug_text` of the text, so that the same text always gives the same
/// result; how characters are escaped is left unsaid.
#[verifier::external_body]
fn debug_quoted(s: &str) -> (r: String)
    ensures
        r@ == debug_text(s@),
{
    format!("{:?}", s)
}

/// Describes a time span with `timeago::Formatter::new()` and its `convert`, on
/// `std::time::Duration::new(seconds, nanoseconds)`. The contract claims that this does not panic
/// when the nanoseconds make less than a second, and that the result is `time_ago_text` of the
/// span, so that the same span always gives the same text; the wording is left unsaid.
#[verifier::external_body]
fn time_ago(seconds: u64, nanoseconds: u32) -> (r: String)
    requires
        nanoseconds < 1_000_000_000,
    ensures
        r@ == time_ago_text(seconds, nanoseconds),
{
    timeago::Formatter::new().convert(std::time::Duration::new(seconds, nanoseconds))
}

/// `s` without the slashes it starts with.
pub open spec fn trim_leading_slashes(s: Seq<char>) -> Seq<char>
    decreases s.len(),
{
    if s.len() > 0 && s[0] == '/' {
        trim_leading_slashes(s.drop_first())
    } else {
        s
    }
}

/// The texts of `list`, with `separator` between each two.
pub open spec fn joined(list: Seq<Seq<char>>, separator: Seq<char>) -> Seq<char>
    decreases list.len(),
{
    if list.len() == 0 {
        Seq::empty()
    } else if list.len() == 1 {
        list[0]
    } else {
        joined(list.drop_last(), separator) + separator + list.last()
    }
}

/// How the names of a container are shown: without their leading slashes, separated by commas,
/// and `[]` when there are none.
pub open spec fn names_text(names: Option<Seq<Seq<char>>>) -> Seq<char> {
    match names {
        None => "[]"@,
        Some(names) => {
            let trimmed = names.map_values(|name: Seq<char>| trim_leading_slashes(name));
            if trimmed.len() == 0 {
                "[]"@
            } else if trimmed.len() == 1 {
                trimmed[0]
            } else {
                joined(trimmed, ", "@)
            }
        },
    }
}

/// A text, or `N/A` when there is none.
pub open spec fn text_or_na(s: Option<String>) -> Seq<char> {
    match s {
        Some(s) => s@,
        None => "N/A"@,
    }
}

/// The names of a container, by their views.
pub open spec fn names_view(names: Option<Vec<String>>) -> Option<Seq<Seq<char>>> {
    match names {
        Some(names) => Some(names@.map_values(|name: String| name@)),
        None => None,
    }
}

impl ContainerField {
    /// How the field of `container` is shown, at the time `now_seconds` and `now_nanoseconds`
    /// after the Unix epoch.
    pub open spec fn text(self, container: Container, now_seconds: u64, now_nanoseconds: u32) -> Seq<
        char,
    > {
        match self {
            ContainerField::Id => text_or_na(container.id),
            ContainerField::Image => text_or_na(container.image),
            ContainerField::Command => match container.command {
                Some(command) => debug_text(command@),
                None => "N/A"@,
            },
            ContainerField::Created => match container.created {
                Some(when) => time_ago_text((now_seconds - when) as u64, now_nanoseconds),
                None => "N/A"@,
            },
            ContainerField::Status => text_or_na(container.status),
            ContainerField::Names => names_text(names_view(container.names)),
        }
    }

    /// Shows the field of `container`, at the time `now_seconds` and `now_nanoseconds` after the
    /// Unix epoch. To show when a container was created, it must not have been created after that
    /// time.
    pub fn format(self, container: &Container, now_seconds: u64, now_nanoseconds: u32) -> (r:
        String)
        requires
            now_nanoseconds < 1_000_000_000,
            self == ContainerField::Created ==> (container.created matches Some(when) ==> 0
                <= when <= now_seconds),
        ensures
            r@ == self.text(*container, now_seconds, now_nanoseconds),
    {
        match self {
            Self::Id => text_or_not_available(&container.id),
            Self::Image => text_or_not_available(&container.image),
            Self::Command => match &container.command {
                Some(command) => debug_quoted(command.as_str()),
                None => String::from_str("N/A"),
            },
            Self::Created => match container.created {
                None => String::from_str("N/A"),
                Some(when) => time_ago(now_seconds - when as u64, now_nanoseconds),
            },
            Self::Status => text_or_not_available(&container.status),
            Self::Names => match &container.names {
                None => String::from_str("[]"),
                Some(names) => names_list(names),
            },
        }
    }
}

/// The text, or `N/A` when there is none.
fn text_or_not_available(s: &Option<String>) -> (r: String)
    ensures
        r@ == text_or_na(*s),
{
    match s {
        Some(s) => s.clone(),
        None => String::from_str("N/A"),
    }
}

/// `s` without the slashes it starts with.
pub fn trim_slashes(s: &str) -> (r: String)
    ensures
        r@ == trim_leading_slashes(s@),
{
    let len = s.unicode_len();
    let mut start: usize = 0;
    proof {
        assert(s@.skip(0) =~= s@);
    }
    while start < len && s.get_char(start) == '/'
        invariant
            len == s@.len(),
            start <= len,
            trim_leading_slashes(s@.skip(start as int)) == trim_leading_slashes(s@),
        decreases len - start,
    {
        proof {
            assert(s@.skip(start as int).drop_first() =~= s@.skip(start + 1));
        }
        start += 1;
    }
    proof {
        assert(s@.skip(start as int) =~= s@.subrange(start as int, len as int));
    }
    String::from_str(s.substring_char(start, len))
}

/// The names, without their leading slashes, separated by commas; `[]` when there are none.
fn names_list(names: &Vec<String>) -> (r: String)
    ensures
        r@ == names_text(Some(names@.map_values(|name: String| name@))),
{
    let ghost trimmed = names@.map_values(|name: String| name@).map_values(
        |name: Seq<char>| trim_leading_slashes(name),
    );
    if names.len() == 0 {
        return String::from_str("[]");
    }
    let mut text = trim_slashes(names[0].as_str());
    proof {
        assert(trimmed.take(1) =~= seq![trimmed[0]]);
    }
    let mut i: usize = 1;
    while i < names.len()
        invariant
            1 <= i <= names@.len(),
            trimmed.len() == names@.len(),
            forall|j: int| 0 <= j < names@.len() ==> #[trigger] trimmed[j] == trim_leading_slashes(names@[j]@),
            text@ == joined(trimmed.take(i as int), ", "@),
        decreases names@.len() - i,
    {
        let name = trim_slashes(names[i].as_str());
        text.append(", ");
        text.append(name.as_str());
        proof {
            assert(trimmed.take(i + 1).drop_last() =~= trimmed.take(i as int));
        }
        i += 1;
    }
    proof {
        assert(trimmed.take(names@.len() as int) =~= trimmed);
    }
    text
}

/// A width that the layout asks of a column: a share of the whole width, or a fixed number of
/// cells.
#[derive(Clone, Copy, Debug, PartialEq, Eq, Structural)]
pub enum ColumnConstraint {
    Ratio(u32, u32),
    Length(u16),
}

/// The width asked of the `i`-th area when `num_fields` columns share `list_width` cells: each
/// column the same share, and a one-cell gap between neighbours.
pub open spec fn column_constraint_at(num_fields: int, list_width: int, i: int) -> ColumnConstraint {
    if i % 2 == 0 {
        ColumnConstraint::Ratio(((list_width - num_fields + 1) / num_fields) as u32, list_width as u32)
    } else {
        ColumnConstraint::Length(1)
    }
}

/// The widths asked of `num_fields` columns and the gaps between them, in `list_width` cells.
pub fn column_constraints(num_fields: usize, list_width: u16) -> (r: Vec<ColumnConstraint>)
    requires
        1 <= num_fields <= list_width,
    ensures
        r@.len() == 2 * num_fields - 1,
        forall|i: int|
            0 <= i < r@.len() ==> #[trigger] r@[i] == column_constraint_at(
                num_fields as int,
                list_width as int,
                i,
            ),
{
    let width = list_width as usize;
    let rest = width - num_fields + 1;
    assert(rest / num_fields <= rest) by (nonlinear_arith)
        requires
            num_fields >= 1,
            rest >= 0,
    ;
    let share = (rest / num_fields) as u32;
    let count = 2 * num_fields - 1;
    let mut r: Vec<ColumnConstraint> = Vec::new();
    let mut i: usize = 0;
    while i < count
        invariant
            count == 2 * num_fields - 1,
            share == ((list_width - num_fields + 1) / (num_fields as int)) as u32,
            num_fields >= 1,
            0 <= i <= count,
            r@.len() == i,
            forall|j: int|
                0 <= j < i ==> #[trigger] r@[j] == column_constraint_at(
                    num_fields as int,
                    list_width as int,
                    j,
                ),
        decreases count - i,
    {
        if i % 2 == 0 {
            r.push(ColumnConstraint::Ratio(share, list_width as u32));
        } else {
            r.push(ColumnConstraint::Length(1));
        }
        i = i + 1;
    }
    r
}

/// Splits `area` across its width with ratatui's `Layout::horizontal` on `constraints`, with the
/// legacy flex, and `Layout::split`. The contract claims one area per constraint, each on the rows
/// of `area` and within its columns: with no margin, ratatui's solver keeps every edge between the
/// area's left and right edges by required constraints, and rounds edges to whole cells. Where
/// each area begins and how wide it is within those bounds is left unsaid: the solver keeps its
/// rows in hash maps that each process seeds, so the columns are not claimed to be a function of
/// the arguments, nor to come in order.
#[verifier::external_body]
fn split_horizontally(area: Rect, constraints: &Vec<ColumnConstraint>) -> (r: Vec<Rect>)
    ensures
        r@.len() == constraints@.len(),
        forall|i: int|
            0 <= i < r@.len() ==> #[trigger] r@[i].y == area.y && r@[i].height == area.height
                && area.x <= r@[i].x && r@[i].x + r@[i].width <= area.right(),
{
    let constraints = constraints.iter().map(|c| match *c {
        ColumnConstraint::Ratio(n, d) => ratatui::layout::Constraint::Ratio(n, d),
        ColumnConstraint::Length(n) => ratatui::layout::Constraint::Length(n),
    });
    let area = ratatui::layout::Rect { x: area.x, y: area.y, width: area.width, height: area.height };
    let layout = ratatui::layout::Layout::horizontal(constraints);
    let split = layout.flex(ratatui::layout::Flex::Legacy).split(area);
    split.iter().map(|a| Rect { x: a.x, y: a.y, width: a.width, height: a.height }).collect()
}

/// The first, third, fifth, ... areas of `split`: the columns, without the gaps between them.
pub fn every_other(split: &Vec<Rect>) -> (r: Vec<Rect>)
    ensures
        r@.len() == (split@.len() + 1) / 2,
        forall|i: int| 0 <= i < r@.len() ==> #[trigger] r@[i] == split@[2 * i],
{
    let mut r: Vec<Rect> = Vec::new();
    let mut i: usize = 0;
    while i < split.len()
        invariant
            0 <= i <= split@.len(),
            r@.len() == (i + 1) / 2,
            forall|j: int| 0 <= j < r@.len() ==> #[trigger] r@[j] == split@[2 * j],
        decreases split@.len() - i,
    {
        if i % 2 == 0 {
            r.push(split[i]);
        }
        i = i + 1;
    }
    r
}

/// Where the columns of `num_fields` fields go in a list in `list_area`: side by side, each asking
/// the same share of the width, with a one-cell gap between neighbours; every column takes the
/// rows of the list, within its columns.
pub fn column_areas(list_area: Rect, num_fields: usize) -> (r: Vec<Rect>)
    requires
        num_fields <= list_area.width,
    ensures
        r@.len() == num_fields,
        forall|i: int|
            0 <= i < r@.len() ==> #[trigger] r@[i].y == list_area.y && r@[i].height
                == list_area.height && list_area.x <= r@[i].x && r@[i].x + r@[i].width
                <= list_area.right(),
{
    if num_fields == 0 {
        return Vec::new();
    }
    let constraints = column_constraints(num_fields, list_area.width);
    let split = split_horizontally(list_area, &constraints);
    let columns = every_other(&split);
    assert forall|i: int| 0 <= i < columns@.len() implies #[trigger] columns@[i].y == list_area.y
        && columns@[i].height == list_area.height && list_area.x <= columns@[i].x && columns@[i].x
        + columns@[i].width <= list_area.right() by {
        assert(columns@[i] == split@[2 * i]);
    }
    columns
}

/// Where the parts of the list go on the screen.
#[derive(Clone, Copy, Debug, PartialEq, Eq, Structural)]
pub struct RenderPlan {
    /// Where the rows of containers go.
    pub list_area: Rect,
    /// Where the scrollbar goes, if one is shown.
    pub scrollbar_area: Rect,
    pub scrollbar: Option<ScrollbarParameters>,
    /// How many fields of each container fit: each needs a column, and one between each two.
    pub num_fields: usize,
}

/// The scrollbar to show for a choice and a window.
pub open spec fn scrollbar_choice(have: HaveScrollbar, viewport: ViewportView) -> Option<
    ScrollbarParameters,
> {
    match have {
        HaveScrollbar::Never => None,
        HaveScrollbar::IfNecesssary => viewport.scrollbar(),
        HaveScrollbar::Always => match viewport.scrollbar() {
            Some(p) => Some(p),
            None => Some(ScrollbarParameters { total_items: 1, top_item: 1 }),
        },
    }
}

impl ContainerListView {
    /// The list laid out in `area`: with no containers, there is nothing to lay out (and nothing
    /// to click); otherwise the window takes the height of the list's rows, inside the border
    /// when there is one, and a scrollbar without a border takes the last column when it fits.
    pub open spec fn laid_out(self, area: Rect) -> (Self, Option<RenderPlan>) {
        if self.containers.len() == 0 {
            (ContainerListView { click_map: None, ..self }, None)
        } else {
            let list_height = if self.have_block {
                area.inside_border().height
            } else {
                area.height
            };
            let viewport = self.viewport.resized(list_height as int);
            let scrollbar = scrollbar_choice(self.have_scrollbar, viewport);
            let (list_area, scrollbar_area, scrollbar) = if self.have_block {
                (area.inside_border(), area.without_first_and_last_rows(), scrollbar)
            } else if scrollbar is Some && area.width >= 2 {
                (
                    Rect { width: (area.width - 1) as u16, ..area },
                    Rect {
                        x: sat_add16(area.x as int, area.width - 1) as u16,
                        width: 1,
                        ..area
                    },
                    scrollbar,
                )
            } else {
                (area, Rect::zero(), None)
            };
            let num_fields = imin(self.fields.len() as int, (list_area.width + 1) / 2);
            (
                ContainerListView { viewport, click_map: Some(list_area), ..self },
                Some(RenderPlan { list_area, scrollbar_area, scrollbar, num_fields: num_fields as usize }),
            )
        }
    }
}

impl ContainerList {
    /// Lays the list out in `area` for drawing: sizes the window to the rows available and
    /// remembers where the rows go, for clicks.
    pub fn plan_render(&mut self, area: Rect) -> (r: Option<RenderPlan>)
        requires
            old(self).wf(),
            old(self)@.containers.len() + area.height <= usize::MAX,
        ensures
            final(self).wf(),
            (final(self)@, r) == old(self)@.laid_out(area),
            r matches Some(plan) ==> plan.list_area.height == final(self)@.viewport.height,
            r matches Some(plan) ==> plan.num_fields <= plan.list_area.width,
    {
        if self.containers.len() == 0 {
            self.click_map = None;
            return None;
        }
        let inner = area.inner_of_border();
        let list_height = if self.have_block {
            inner.height
        } else {
            area.height
        };
        self.viewport.change_viewport_height(list_height as usize);
        let mut scrollbar = self.scrollbar_parameters();
        let list_area;
        let scrollbar_area;
        if self.have_block {
            list_area = inner;
            scrollbar_area = area.inner_rows();
        } else if scrollbar.is_some() && area.width >= 2 {
            list_area = Rect { x: area.x, y: area.y, width: area.width - 1, height: area.height };
            scrollbar_area = Rect {
                x: area.x.saturating_add(area.width - 1),
                y: area.y,
                width: 1,
                height: area.height,
            };
        } else {
            scrollbar = None;
            list_area = area;
            scrollbar_area = Rect { x: 0, y: 0, width: 0, height: 0 };
        }
        self.click_map = Some(list_area);
        let list_width = list_area.width as usize;
        let half_width = list_width / 2 + list_width % 2;
        let num_fields = if self.fields.len() < half_width {
            self.fields.len()
        } else {
            half_width
        };
        Some(RenderPlan { list_area, scrollbar_area, scrollbar, num_fields })
    }

    /// The scrollbar to show, as the list's choice says.
    pub fn scrollbar_parameters(&self) -> (r: Option<ScrollbarParameters>)
        requires
            self.wf(),
        ensures
            r == scrollbar_choice(self@.have_scrollbar, self@.viewport),
    {
        match self.have_scrollbar {
            HaveScrollbar::Never => None,
            HaveScrollbar::IfNecesssary => self.viewport.scrollbar(),
            HaveScrollbar::Always => match self.viewport.scrollbar() {
                Some(p) => Some(p),
                None => Some(ScrollbarParameters { total_items: 1, top_item: 1 }),
            },
        }
    }

    pub fn containers(&self) -> (r: &Vec<Container>)
        ensures
            r@ == self@.containers,
    {
        &self.containers
    }

    pub fn viewport(&self) -> (r: &Viewport)
        ensures
            r@ == self@.viewport,
    {
        &self.viewport
    }

    pub fn fields(&self) -> (r: &Vec<ContainerField>)
        ensures
            r@ == self@.fields,
    {
        &self.fields
    }

    pub fn have_block(&self) -> (r: bool)
        ensures
            r == self@.have_block,
    {
        self.have_block
    }

    pub fn all_containers(&self) -> (r: bool)
        ensures
            r == self@.all_containers,
    {
        self.all_containers
    }
}

/// Choosing the next scrollbar setting three times comes back to the first.
pub proof fn lemma_scrollbar_choice_cycles(have: HaveScrollbar)
    ensures
        have.following().following().following() == have,
{
}

/// A well-formed list's window is valid and spans its containers, and the timer of a key
/// sequence runs exactly while a sequence is unfinished.
pub proof fn lemma_list_invariants(list: &ContainerList)
    requires
        list.wf(),
    ensures
        list@.viewport.is_valid(),
        list@.viewport.num_containers == list@.containers.len(),
        list@.input_timer is Some <==> list@.pending.len() > 0,
{
}

/// Every key sequence that the list binds runs its command when typed from the start: each key
/// but the last asks for more, and the last completes the binding.
pub proof fn lemma_list_bindings_recognized(keys: Seq<u64>, i: int)
    requires
        key_bindings().contains_key(keys),
        0 <= i < keys.len(),
    ensures
        input_outcome(key_bindings(), keys.take(i), keys[i]) == if i + 1 < keys.len() {
            (InputResult::<Command>::NeedMore, keys.take(i + 1))
        } else {
            (InputResult::Done(key_bindings()[keys]), Seq::<u64>::empty())
        },
{
    lemma_key_bindings_prefix_free();
    lemma_binding_recognized(key_bindings(), keys, i);
}

/// No key sequence that the list binds is a proper prefix of another.
pub proof fn lemma_key_bindings_prefix_free()
    ensures
        prefix_free(key_bindings()),
{
    assert forall|a: Seq<u64>, b: Seq<u64>|
        #[trigger] key_bindings().contains_key(a) && #[trigger] key_bindings().contains_key(b)
            && is_prefix(a, b) implies a == b by {
        assert(b.take(a.len() as int)[0] == b[0]);
        if a.len() == 2 {
            assert(b.take(a.len() as int)[1] == b[1]);
        }
        if a.len() == b.len() {
            assert(b.take(a.len() as int) =~= b);
        }
    }
}

/// Every request for containers in `out` asks for all of them exactly when `all` says so.
pub open spec fn requests_agree(out: Seq<MessageOut>, all: bool) -> bool {
    forall|i: int|
        #![trigger out[i]]
        0 <= i < out.len() ==> (out[i] matches MessageOut::ToDocker(request) ==> request
            == (docker::MessageIn::GetContainers { all }))
}

/// Each request for containers that a command sends carries the setting the list holds
/// afterwards; only the toggle changes that setting, and it asks for the containers at once.
pub proof fn lemma_command_requests_follow_setting(v: ContainerListView, command: Command)
    ensures
        requests_agree(v.after_command(command).1, v.after_command(command).0.all_containers),
        command != Command::ToggleAllContainers ==> v.after_command(command).0.all_containers
            == v.all_containers,
        command == Command::ToggleAllContainers ==> v.after_command(command).0.all_containers
            == !v.all_containers && v.after_command(command).1.contains(
            MessageOut::ToDocker(docker::MessageIn::GetContainers { all: !v.all_containers }),
        ),
{
    let out = v.after_command(command).1;
    if command == Command::ToggleAllContainers {
        assert(out[0] == MessageOut::ToDocker(
            docker::MessageIn::GetContainers { all: !v.all_containers },
        ));
    }
}

/// Whatever input the list gets, each request for containers it sends carries the setting the
/// list holds afterwards.
pub proof fn lemma_input_requests_follow_setting(v: ContainerListView, event: Event)
    ensures
        requests_agree(v.after_input(event).1, v.after_input(event).0.all_containers),
{
    match event {
        Event::Key(key) => {
            if key.kind == KeyEventKind::Press {
                let outcome = input_outcome(
                    key_bindings(),
                    v.pending,
                    key_number(key.code, key.modifiers),
                );
                let cleared = ContainerListView { input_timer: None, pending: outcome.1, ..v };
                match outcome.0 {
                    InputResult::Done(command) => {
                        lemma_command_requests_follow_setting(cleared, command);
                    },
                    _ => {},
                }
            }
        },
        _ => {},
    }
}

/// An expired timer never changes which containers the list shows, and each request for
/// containers it sends carries that setting; the refresh timer sends one.
pub proof fn lemma_timer_requests_follow_setting(v: ContainerListView, id: u64)
    ensures
        v.after_timer(id).0.all_containers == v.all_containers,
        requests_agree(v.after_timer(id).1, v.all_containers),
        v.input_timer != Some(id) && v.refresh_timer == id ==> v.after_timer(id).1.contains(
            MessageOut::ToDocker(docker::MessageIn::GetContainers { all: v.all_containers }),
        ),
{
    let out = v.after_timer(id).1;
    if v.input_timer != Some(id) && v.refresh_timer == id {
        assert(out[0] == MessageOut::ToDocker(
            docker::MessageIn::GetContainers { all: v.all_containers },
        ));
    }
}

/// Half a page is half the window's height, and at least one line. Scrolling half a page up
/// moves the window up that far, as far as the first line allows, and never moves the
/// selection down; scrolling half a page down moves it down that far, as far as the last line
/// allows, and never moves the selection up. Neither changes the count or the height.
pub proof fn lemma_half_page_scrolling(v: ContainerListView)
    requires
        v.viewport.is_valid(),
    ensures
        v.after_command(Command::ScrollUpHalfPage).0.viewport.top == v.viewport.top - imin(
            v.viewport.top,
            imax(v.viewport.height / 2, 1),
        ),
        v.after_command(Command::ScrollUpHalfPage).0.viewport.selection <= v.viewport.selection,
        v.after_command(Command::ScrollUpHalfPage).0.viewport.height == v.viewport.height,
        v.after_command(Command::ScrollUpHalfPage).0.viewport.num_containers
            == v.viewport.num_containers,
        v.after_command(Command::ScrollDownHalfPage).0.viewport.top == v.viewport.top + imin(
            imax(v.viewport.height / 2, 1),
            imax(v.viewport.num_containers - imax(v.viewport.height, 1), 0) - v.viewport.top,
        ),
        v.after_command(Command::ScrollDownHalfPage).0.viewport.selection
            >= v.viewport.selection,
        v.after_command(Command::ScrollDownHalfPage).0.viewport.height == v.viewport.height,
        v.after_command(Command::ScrollDownHalfPage).0.viewport.num_containers
            == v.viewport.num_containers,
{
}

/// A full page is the window's height, and at least one line. Scrolling a full page up or down
/// moves the window that far, as far as the ends of the list allow.
pub proof fn lemma_full_page_scrolling(v: ContainerListView)
    requires
        v.viewport.is_valid(),
    ensures
        v.after_command(Command::ScrollUpFullPage).0.viewport.top == v.viewport.top - imin(
            v.viewport.top,
            imax(v.viewport.height, 1),
        ),
        v.after_command(Command::ScrollUpFullPage).0.viewport.selection <= v.viewport.selection,
        v.after_command(Command::ScrollDownFullPage).0.viewport.top == v.viewport.top + imin(
            imax(v.viewport.height, 1),
            imax(v.viewport.num_containers - imax(v.viewport.height, 1), 0) - v.viewport.top,
        ),
        v.after_command(Command::ScrollDownFullPage).0.viewport.selection
            >= v.viewport.selection,
{
}

/// Half a page up and then half a page down brings the window back to the same top line, when
/// it started at least half a page below the first line; half a page down and then up does,
/// when it started at least half a page above the last top line.
pub proof fn lemma_half_pages_undo(v: ContainerListView)
    requires
        v.viewport.is_valid(),
    ensures
        imax(v.viewport.height / 2, 1) <= v.viewport.top ==> v.after_command(
            Command::ScrollUpHalfPage,
        ).0.after_command(Command::ScrollDownHalfPage).0.viewport.top == v.viewport.top,
        v.viewport.top + imax(v.viewport.height / 2, 1) <= imax(
            v.viewport.num_containers - imax(v.viewport.height, 1),
            0,
        ) ==> v.after_command(Command::ScrollDownHalfPage).0.after_command(
            Command::ScrollUpHalfPage,
        ).0.viewport.top == v.viewport.top,
{
}

/// The mouse wheel scrolls three lines. Turned down, it moves the window down three lines, as
/// far as the last line allows, and never moves the selection up; turned up, it moves the window
/// up three lines, as far as the first line allows, and never moves the selection down.
pub proof fn lemma_wheel_scrolling(v: ContainerListView, event: MouseEvent)
    requires
        v.viewport.is_valid(),
    ensures
        event.kind == MouseEventKind::ScrollDown ==> {
            &&& v.after_mouse(event).0.viewport.top == v.viewport.top + imin(
                3,
                imax(v.viewport.num_containers - imax(v.viewport.height, 1), 0) - v.viewport.top,
            )
            &&& v.after_mouse(event).0.viewport.selection >= v.viewport.selection
            &&& v.after_mouse(event).0.viewport.height == v.viewport.height
            &&& v.after_mouse(event).1 == seq![MessageOut::Render]
        },
        event.kind == MouseEventKind::ScrollUp ==> {
            &&& v.after_mouse(event).0.viewport.top == v.viewport.top - imin(3, v.viewport.top)
            &&& v.after_mouse(event).0.viewport.selection <= v.viewport.selection
            &&& v.after_mouse(event).0.viewport.height == v.viewport.height
            &&& v.after_mouse(event).1 == seq![MessageOut::Render]
        },
{
}

/// A list with containers is always laid out, and a scrollbar it shows is the one its choice
/// gives for the resized window. With a border the choice always stands; then, when the
/// scrollbar is shown only if necessary, it is shown exactly when the containers do not fit in
/// the rows of the list; a scrollbar always shown is shown with a border, or without one when
/// the area is at least two columns wide.
pub proof fn lemma_scrollbar_follows_choice(v: ContainerListView, area: Rect)
    requires
        v.viewport.is_valid(),
        v.viewport.num_containers == v.containers.len(),
        v.containers.len() > 0,
    ensures
        v.laid_out(area).1 is Some,
        v.laid_out(area).1->Some_0.scrollbar is Some ==> v.laid_out(area).1->Some_0.scrollbar
            == scrollbar_choice(v.have_scrollbar, v.laid_out(area).0.viewport),
        v.have_block ==> v.laid_out(area).1->Some_0.scrollbar == scrollbar_choice(
            v.have_scrollbar,
            v.laid_out(area).0.viewport,
        ),
        v.have_block && v.have_scrollbar == HaveScrollbar::IfNecesssary ==> (v.laid_out(
            area,
        ).1->Some_0.scrollbar is Some <==> v.containers.len() > v.laid_out(
            area,
        ).1->Some_0.list_area.height),
        v.have_scrollbar == HaveScrollbar::Always && (v.have_block || area.width >= 2) ==> v.laid_out(
            area,
        ).1->Some_0.scrollbar is Some,
        v.have_scrollbar == HaveScrollbar::Never ==> v.laid_out(area).1->Some_0.scrollbar is None,
{
}

} // verus!

