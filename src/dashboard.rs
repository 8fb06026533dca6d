//! The application state and the dispatch of keys to table commands.
use vstd::prelude::*;
use crate::event::{input_step, InputMode, InputState, Key};
use crate::process::{clamp_index, clamp_move, filter_opt, filter_spec, sort_spec, Process, ProcessList, SortField};

verus! {

/// What a key asks of the table when the mode machine did not consume it.
#[derive(Debug, Clone, Copy, PartialEq, Eq, Structural)]
pub enum Command {
    Quit,
    Search,
    Move(i32),
    ToStart,
    ToEnd,
    Sort(SortField),
    Kill,
    Help,
    Nothing,
}

/// The command bound to a key.
pub open spec fn command_of(key: Key) -> Command {
    match key {
        Key::Char(c) => if c == 'q' || c == 'Q' {
            Command::Quit
        } else if c == 'j' {
            Command::Move(1i32)
        } else if c == 'k' {
            Command::Move(-1i32)
        } else if c == 'p' || c == 'P' {
            Command::Sort(SortField::Pid)
        } else if c == 'n' || c == 'N' {
            Command::Sort(SortField::Name)
        } else if c == 'c' || c == 'C' {
            Command::Sort(SortField::Cpu)
        } else if c == 'm' || c == 'M' {
            Command::Sort(SortField::Memory)
        } else {
            Command::Nothing
        },
        Key::Down => Command::Move(1i32),
        Key::Up => Command::Move(-1i32),
        Key::PageDown => Command::Move(10i32),
        Key::PageUp => Command::Move(-10i32),
        Key::Home => Command::ToStart,
        Key::End => Command::ToEnd,
        Key::F(n) => if n == 3 {
            Command::Search
        } else if n == 9 {
            Command::Kill
        } else if n == 1 {
            Command::Help
        } else {
            Command::Nothing
        },
        _ => Command::Nothing,
    }
}

/// Looks up the command bound to a key.
pub fn command_for(key: Key) -> (r: Command)
    ensures
        r == command_of(key),
{
    match key {
        Key::Char(c) => if c == 'q' || c == 'Q' {
            Command::Quit
        } else if c == 'j' {
            Command::Move(1i32)
        } else if c == 'k' {
            Command::Move(-1i32)
        } else if c == 'p' || c == 'P' {
            Command::Sort(SortField::Pid)
        } else if c == 'n' || c == 'N' {
            Command::Sort(SortField::Name)
        } else if c == 'c' || c == 'C' {
            Command::Sort(SortField::Cpu)
        } else if c == 'm' || c == 'M' {
            Command::Sort(SortField::Memory)
        } else {
            Command::Nothing
        },
        Key::Down => Command::Move(1i32),
        Key::Up => Command::Move(-1i32),
        Key::PageDown => Command::Move(10i32),
        Key::PageUp => Command::Move(-10i32),
        Key::Home => Command::ToStart,
        Key::End => Command::ToEnd,
        Key::F(n) => if n == 3 {
            Command::Search
        } else if n == 9 {
            Command::Kill
        } else if n == 1 {
            Command::Help
        } else {
            Command::Nothing
        },
        _ => Command::Nothing,
    }
}

/// The whole state that the application loop drives.
pub struct App {
    pub should_quit: bool,
    pub process_list: ProcessList,
    pub input_state: InputState,
}

impl App {
    /// A running application with an empty table in normal mode.
    pub fn new() -> (r: Self)
        ensures
            r.wf(),
            !r.should_quit,
            r.input_state.mode == InputMode::Normal,
            r.input_state.search_input@ == Seq::<char>::empty(),
            r.process_list.rows() == Seq::<Process>::empty(),
            r.process_list.key() == SortField::Cpu,
            r.process_list.query() == None::<Seq<char>>,
    {
        App { should_quit: false, process_list: ProcessList::new(), input_state: InputState::default() }
    }

    pub open spec fn wf(&self) -> bool {
        self.process_list.wf()
    }

    /// Refreshes the table from a new snapshot.
    pub fn update(&mut self, snapshot: Vec<Process>)
        requires
            old(self).wf(),
        ensures
            final(self).wf(),
            final(self).should_quit == old(self).should_quit,
            final(self).input_state.mode == old(self).input_state.mode,
            final(self).input_state.search_input@ == old(self).input_state.search_input@,
            final(self).process_list.rows() == filter_opt(
                sort_spec(snapshot@, old(self).process_list.key()),
                old(self).process_list.query(),
            ),
            final(self).process_list.base() == sort_spec(snapshot@, old(self).process_list.key()),
            final(self).process_list.sel() == clamp_index(
                old(self).process_list.sel(),
                final(self).process_list.rows().len() as int,
            ),
            final(self).process_list.key() == old(self).process_list.key(),
            final(self).process_list.query() == old(self).process_list.query(),
    {
        self.process_list.update(snapshot);
    }

    /// Handles one key. In search mode a key that the mode machine leaves
    /// alone does nothing. Returns the identifier of a process to terminate, if
    /// the key asks for the selected one to be killed.
    pub fn handle_input(&mut self, key: Key) -> (kill: Option<u32>)
        requires
            old(self).wf(),
        ensures
            final(self).wf(),
            ({
                let (mode, buf, consumed) = input_step(
                    old(self).input_state.mode,
                    old(self).input_state.search_input@,
                    key,
                );
                consumed ==> {
                    &&& kill.is_none()
                    &&& final(self).should_quit == old(self).should_quit
                    &&& final(self).input_state.mode == mode
                    &&& final(self).input_state.search_input@ == buf
                    &&& final(self).process_list.key() == old(self).process_list.key()
                    &&& if buf.len() > 0 {
                        &&& final(self).process_list.query() == Some(buf)
                        &&& final(self).process_list.rows() == filter_spec(old(self).process_list.base(), buf)
                        &&& final(self).process_list.sel() == clamp_index(
                            old(self).process_list.sel(),
                            final(self).process_list.rows().len() as int,
                        )
                    } else {
                        final(self).process_list == old(self).process_list
                    }
                }
            }),
            old(self).input_state.mode == InputMode::Search && !input_step(
                old(self).input_state.mode,
                old(self).input_state.search_input@,
                key,
            ).2 ==> {
                &&& kill.is_none()
                &&& final(self).should_quit == old(self).should_quit
                &&& final(self).input_state.mode == InputMode::Search
                &&& final(self).input_state.search_input@ == old(self).input_state.search_input@
                &&& final(self).process_list == old(self).process_list
            },
            old(self).input_state.mode == InputMode::Normal ==> {
                &&& command_of(key) != Command::Search ==> {
                    &&& final(self).input_state.mode == old(self).input_state.mode
                    &&& final(self).input_state.search_input@ == old(self).input_state.search_input@
                }
                &&& command_of(key) != Command::Quit ==> final(self).should_quit == old(self).should_quit
                &&& command_of(key) != Command::Kill ==> kill.is_none()
                &&& match command_of(key) {
                    Command::Quit => final(self).should_quit && final(self).process_list == old(self).process_list,
                    Command::Search => final(self).input_state.mode == InputMode::Search
                        && final(self).input_state.search_input@ == Seq::<char>::empty()
                        && final(self).process_list == old(self).process_list,
                    Command::Move(d) => final(self).process_list.rows() == old(self).process_list.rows()
                        && final(self).process_list.key() == old(self).process_list.key()
                        && final(self).process_list.query() == old(self).process_list.query()
                        && final(self).process_list.sel() == clamp_move(
                            old(self).process_list.sel(),
                            d as int,
                            old(self).process_list.rows().len() as int,
                        ),
                    Command::ToStart => final(self).process_list.rows() == old(self).process_list.rows()
                        && final(self).process_list.key() == old(self).process_list.key()
                        && final(self).process_list.query() == old(self).process_list.query()
                        && final(self).process_list.sel() == 0,
                    Command::ToEnd => final(self).process_list.rows() == old(self).process_list.rows()
                        && final(self).process_list.key() == old(self).process_list.key()
                        && final(self).process_list.query() == old(self).process_list.query()
                        && final(self).process_list.sel() == (if old(self).process_list.rows().len() == 0 {
                            0
                        } else {
                            old(self).process_list.rows().len() - 1
                        }),
                    Command::Sort(f) => final(self).process_list.key() == f
                        && final(self).process_list.query() == old(self).process_list.query()
                        && final(self).process_list.sel() == old(self).process_list.sel()
                        && final(self).process_list.rows() == sort_spec(old(self).process_list.rows(), f),
                    Command::Kill => final(self).process_list == old(self).process_list
                        && kill == (if old(self).process_list.rows().len() == 0 {
                            None
                        } else {
                            Some(old(self).process_list.rows()[old(self).process_list.sel()].pid)
                        }),
                    Command::Help | Command::Nothing => final(self).process_list == old(self).process_list,
                }
            },
    {
        if self.input_state.handle_input(key) {
            if !self.input_state.search_input.as_str().is_empty() {
                self.process_list.filter(self.input_state.search_input.as_str());
            }
            return None;
        }
        if self.input_state.mode == InputMode::Search {
            return None;
        }
        match command_for(key) {
            Command::Quit => {
                self.should_quit = true;
            },
            Command::Search => {
                self.input_state.enter_search_mode();
            },
            Command::Move(d) => {
                self.process_list.move_selection(d);
            },
            Command::ToStart => {
                self.process_list.move_to_start();
            },
            Command::ToEnd => {
                self.process_list.move_to_end();
            },
            Command::Sort(f) => {
                self.process_list.set_sort_field(f);
            },
            Command::Kill => {
                return self.process_list.selected_pid();
            },
            Command::Help | Command::Nothing => {},
        }
        None
    }
}

} // verus!
