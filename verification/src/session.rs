//! The session: the line being typed, the latest catalog, and what each
//! event from the host does to them.

use crate::parser::{parse_spec, InputIterator};
use crate::resolver::{launch_views, launches_spec, resolve_all, LaunchView, ResolvedLaunch};
use crate::spelling::decimal;
use crate::text::{decimal_string, push_char};
use crate::worker::{label_spec, option_views, strings, TaskOption, TaskOptionView};
use vstd::prelude::*;
use vstd::string::{StrSliceExecFns, StringExecFns};

verus! {

/// The line being typed, with the place at which the next character goes.
/// The cursor counts characters and never lies beyond the end of the text.
#[derive(Debug)]
pub struct Input {
    text: String,
    cursor_position: usize,
}

/// What an `Input` holds.
pub ghost struct InputView {
    pub text: Seq<char>,
    pub cursor: nat,
}

impl View for Input {
    type V = InputView;

    closed spec fn view(&self) -> InputView {
        InputView { text: self.text@, cursor: self.cursor_position as nat }
    }
}

impl Default for Input {
    /// An empty line.
    fn default() -> (input: Self)
        ensures
            input@ == (InputView { text: Seq::empty(), cursor: 0 }),
    {
        Self { text: String::new(), cursor_position: 0 }
    }
}

impl Input {
    #[verifier::type_invariant]
    closed spec fn cursor_in_text(&self) -> bool {
        self.cursor_position <= self.text@.len()
    }

    /// Puts `c` in at the cursor and moves the cursor behind it.
    pub fn push(&mut self, c: char)
        ensures
            final(self)@.text == old(self)@.text.insert(old(self)@.cursor as int, c),
            final(self)@.cursor == old(self)@.cursor + 1,
    {
        proof {
            use_type_invariant(&*self);
        }
        let cursor = self.cursor_position;
        let len = self.text.as_str().unicode_len();
        let mut text = String::from_str(self.text.as_str().substring_char(0, cursor));
        push_char(&mut text, c);
        text.append(self.text.as_str().substring_char(cursor, len));
        assert(text@ =~= self.text@.insert(cursor as int, c));
        let grown = text.as_str().unicode_len();
        *self = Input { text, cursor_position: cursor + 1 };
    }

    /// Takes out the character before the cursor and gives it, moving the
    /// cursor back; at the start of the line nothing changes.
    pub fn pop(&mut self) -> (removed: Option<char>)
        ensures
            old(self)@.cursor > 0 ==> removed == Some(old(self)@.text[old(self)@.cursor - 1])
                && final(self)@.text == old(self)@.text.remove(old(self)@.cursor - 1)
                && final(self)@.cursor == old(self)@.cursor - 1,
            old(self)@.cursor == 0 ==> removed is None && final(self)@ == old(self)@,
    {
        proof {
            use_type_invariant(&*self);
        }
        let cursor = self.cursor_position;
        if cursor > 0 {
            let len = self.text.as_str().unicode_len();
            let removed = self.text.as_str().get_char(cursor - 1);
            let mut text = String::from_str(self.text.as_str().substring_char(0, cursor - 1));
            text.append(self.text.as_str().substring_char(cursor, len));
            assert(text@ =~= self.text@.remove(cursor - 1));
            *self = Input { text, cursor_position: cursor - 1 };
            Some(removed)
        } else {
            None
        }
    }

    /// Empties the line.
    pub fn clear(&mut self)
        ensures
            final(self)@ == (InputView { text: Seq::empty(), cursor: 0 }),
    {
        *self = Input { text: String::new(), cursor_position: 0 };
    }

    /// Moves the cursor by `delta` characters, unless that would take it out
    /// of the text; then nothing changes.
    pub fn move_cursor(&mut self, delta: isize)
        ensures
            final(self)@.text == old(self)@.text,
            final(self)@.cursor == if 0 <= old(self)@.cursor + delta <= old(self)@.text.len() {
                (old(self)@.cursor + delta) as nat
            } else {
                old(self)@.cursor
            },
    {
        proof {
            use_type_invariant(&*self);
        }
        let len = self.text.as_str().unicode_len();
        let target: i128 = self.cursor_position as i128 + delta as i128;
        if 0 <= target && target <= len as i128 {
            self.cursor_position = target as usize;
        }
    }

    /// A cursor over the requests of the line.
    pub fn iter(&self) -> (it: InputIterator<'_>)
        ensures
            it@ == self@.text,
    {
        InputIterator::new(self.text.as_str())
    }

    /// The text of the line.
    pub fn to_string(&self) -> (text: String)
        ensures
            text@ == self@.text,
    {
        self.text.clone()
    }

    /// The number of characters before the cursor, which is never more than
    /// the line holds.
    pub fn cursor_position(&self) -> (cursor: usize)
        ensures
            cursor == self@.cursor,
            cursor <= self@.text.len(),
    {
        proof {
            use_type_invariant(self);
        }
        self.cursor_position
    }
}

/// A key as the session tells keys apart.
#[derive(Debug, Clone, Copy, PartialEq, Eq)]
pub enum Key {
    Backspace,
    /// A character; the newline submits the line.
    Char(char),
    Esc,
    /// Any other key.
    Other,
}

/// What the host reports to the session.
#[derive(Debug)]
pub enum Event {
    Key(Key),
    /// A new catalog has arrived.
    CustomMessage(Vec<TaskOption>),
    /// Anything else.
    Other,
}

/// What an `Event` says.
pub ghost enum EventView {
    Key(Key),
    CustomMessage(Seq<TaskOptionView>),
    Other,
}

impl View for Event {
    type V = EventView;

    open spec fn view(&self) -> EventView {
        match *self {
            Event::Key(key) => EventView::Key(key),
            Event::CustomMessage(catalog) => EventView::CustomMessage(option_views(catalog@)),
            Event::Other => EventView::Other,
        }
    }
}

/// What the session asks of the host after an event.
#[derive(Debug, PartialEq, Eq)]
pub struct Update {
    /// Whether the pane is to be drawn again.
    pub render: bool,
    /// The commands to launch, in order.
    pub launches: Vec<ResolvedLaunch>,
    /// Whether the pane is to be hidden, once the commands are launched.
    pub hide: bool,
}

/// What an `Update` says.
pub ghost struct UpdateView {
    pub render: bool,
    pub launches: Seq<LaunchView>,
    pub hide: bool,
}

impl View for Update {
    type V = UpdateView;

    open spec fn view(&self) -> UpdateView {
        UpdateView { render: self.render, launches: launch_views(self.launches@), hide: self.hide }
    }
}

/// The session: the line being typed and the latest catalog.
#[derive(Debug)]
pub struct State {
    input: Input,
    options: Vec<TaskOption>,
}

/// What a `State` holds.
pub ghost struct StateView {
    pub input: InputView,
    pub options: Seq<TaskOptionView>,
}

impl View for State {
    type V = StateView;

    closed spec fn view(&self) -> StateView {
        StateView { input: self.input@, options: option_views(self.options@) }
    }
}

/// The line after a key, given the line before it.
pub open spec fn input_after(input: InputView, key: Key) -> InputView {
    match key {
        Key::Backspace => if input.cursor > 0 {
            InputView { text: input.text.remove(input.cursor - 1), cursor: (input.cursor - 1) as nat }
        } else {
            input
        },
        Key::Char(c) => if c == '\n' {
            InputView { text: Seq::empty(), cursor: 0 }
        } else {
            InputView { text: input.text.insert(input.cursor as int, c), cursor: input.cursor + 1 }
        },
        Key::Esc => InputView { text: Seq::empty(), cursor: 0 },
        Key::Other => input,
    }
}

/// The session after an event. A key changes the line only, a new catalog
/// takes the place of the old one whole, and anything else changes nothing.
pub open spec fn state_after(state: StateView, event: EventView) -> StateView {
    match event {
        EventView::Key(key) => StateView {
            input: input_after(state.input, key),
            options: state.options,
        },
        EventView::CustomMessage(catalog) => StateView { input: state.input, options: catalog },
        EventView::Other => state,
    }
}

/// What the host is asked to do after an event. The newline launches what
/// the line names, resolved against the catalog as it stands, and hides the
/// pane; escape hides the pane and launches nothing.
pub open spec fn update_spec(state: StateView, event: EventView) -> UpdateView {
    match event {
        EventView::Key(Key::Char(c)) => if c == '\n' {
            UpdateView {
                render: true,
                launches: launches_spec(parse_spec(state.input.text), state.options),
                hide: true,
            }
        } else {
            UpdateView { render: true, launches: Seq::empty(), hide: false }
        },
        EventView::Key(Key::Backspace) => UpdateView {
            render: true,
            launches: Seq::empty(),
            hide: false,
        },
        EventView::Key(Key::Esc) => UpdateView { render: true, launches: Seq::empty(), hide: true },
        EventView::Key(Key::Other) => UpdateView {
            render: false,
            launches: Seq::empty(),
            hide: false,
        },
        EventView::CustomMessage(_) => UpdateView {
            render: true,
            launches: Seq::empty(),
            hide: false,
        },
        EventView::Other => UpdateView { render: false, launches: Seq::empty(), hide: false },
    }
}

/// What the pane shows: one line for each catalog entry, with its number,
/// counted from one, before its label; then a heading and the line being
/// typed.
pub open spec fn render_spec(state: StateView) -> Seq<Seq<char>> {
    Seq::new(
        state.options.len(),
        |i: int| decimal((i + 1) as nat) + " - "@ + label_spec(state.options[i]),
    ) + seq!["Task:"@, state.input.text]
}

impl Default for State {
    /// An empty line and an empty catalog.
    fn default() -> (state: Self)
        ensures
            state@ == (StateView {
                input: InputView { text: Seq::empty(), cursor: 0 },
                options: Seq::empty(),
            }),
    {
        let state = Self { input: Input::default(), options: Vec::new() };
        assert(option_views(state.options@) =~= Seq::<TaskOptionView>::empty());
        state
    }
}

impl State {
    /// Takes an event in and says what the host is to do.
    pub fn update(&mut self, event: Event) -> (update: Update)
        ensures
            final(self)@ == state_after(old(self)@, event@),
            update@ == update_spec(old(self)@, event@),
    {
        let mut launches: Vec<ResolvedLaunch> = Vec::new();
        assert(launch_views(launches@) =~= Seq::<LaunchView>::empty());
        match event {
            Event::Key(key) => match key {
                Key::Backspace => {
                    self.input.pop();
                    Update { render: true, launches, hide: false }
                },
                Key::Char(c) => {
                    if c == '\n' {
                        let launches = self.launch_tasks();
                        self.input.clear();
                        Update { render: true, launches, hide: true }
                    } else {
                        self.input.push(c);
                        Update { render: true, launches, hide: false }
                    }
                },
                Key::Esc => {
                    self.input.clear();
                    Update { render: true, launches, hide: true }
                },
                Key::Other => Update { render: false, launches, hide: false },
            },
            Event::CustomMessage(catalog) => {
                self.options = catalog;
                Update { render: true, launches, hide: false }
            },
            Event::Other => Update { render: false, launches, hide: false },
        }
    }

    /// What the line launches: each of its requests resolved against the
    /// catalog, in order, without those that do not resolve.
    pub fn launch_tasks(&self) -> (launches: Vec<ResolvedLaunch>)
        ensures
            launch_views(launches@) == launches_spec(parse_spec(self@.input.text), self@.options),
    {
        let requests = self.input.iter().collect();
        resolve_all(&requests, &self.options)
    }

    /// The lines that the pane shows.
    pub fn render(&self) -> (lines: Vec<String>)
        ensures
            strings(lines@) == render_spec(self@),
    {
        let mut lines: Vec<String> = Vec::new();
        let mut i: usize = 0;
        let ghost entries = Seq::new(
            self@.options.len(),
            |i: int| decimal((i + 1) as nat) + " - "@ + label_spec(self@.options[i]),
        );
        assert(strings(lines@) =~= entries.take(0));
        while i < self.options.len()
            invariant
                i <= self.options.len(),
                entries.len() == self.options.len(),
                forall|j: int|
                    0 <= j < entries.len() ==> #[trigger] entries[j] == decimal((j + 1) as nat)
                        + " - "@ + label_spec(self.options@[j]@),
                strings(lines@) == entries.take(i as int),
            decreases self.options.len() - i,
        {
            let ghost shown = strings(lines@);
            let mut line = decimal_string(i + 1);
            line.append(" - ");
            line.append(self.options[i].to_string().as_str());
            lines.push(line);
            assert(strings(lines@) =~= shown.push(entries[i as int]));
            i = i + 1;
            assert(entries.take(i as int) =~= shown.push(entries[i - 1]));
        }
        assert(entries.take(i as int) =~= entries);
        lines.push(String::from_str("Task:"));
        lines.push(self.input.to_string());
        assert(strings(lines@) =~= render_spec(self@));
        lines
    }

    /// The line being typed.
    pub fn input(&self) -> (input: &Input)
        ensures
            input@ == self@.input,
    {
        &self.input
    }

    /// The latest catalog.
    pub fn options(&self) -> (options: &Vec<TaskOption>)
        ensures
            option_views(options@) == self@.options,
    {
        &self.options
    }
}

} // verus!
