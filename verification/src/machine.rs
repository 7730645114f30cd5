//! The run as a machine of two states. A reader hands over one event for each
//! attempt to read a line; the machine answers with the action to perform.

use crate::forbidden::ForbiddenSet;
use crate::report::{read_error_message, read_error_text, EXIT_READ_ERROR, EXIT_SUCCESS};
use vstd::prelude::*;

verus! {

/// The result of one attempt to read a line.
#[derive(Debug, PartialEq, Eq)]
pub enum Event {
    /// A line was read; it is given without its line ending.
    Line(String),
    /// The read failed; the failure is given by its description.
    ReadError(String),
    /// The input is exhausted.
    EndOfInput,
}

/// An [`Event`] as a mathematical value.
pub enum EventView {
    Line(Seq<char>),
    ReadError(Seq<char>),
    EndOfInput,
}

impl View for Event {
    type V = EventView;

    open spec fn view(&self) -> EventView {
        match self {
            Event::Line(line) => EventView::Line(line@),
            Event::ReadError(description) => EventView::ReadError(description@),
            Event::EndOfInput => EventView::EndOfInput,
        }
    }
}

/// Where a run stands.
#[derive(Clone, Copy, PartialEq, Eq, Structural, Debug)]
pub enum State {
    /// Lines are still being read.
    Running,
    /// The run is over, by the end of the input or by a failed read.
    Terminated,
}

/// What is to be done in answer to an event.
#[derive(Debug, PartialEq, Eq)]
pub enum Action {
    /// Write this line, followed by a newline, to the output.
    Emit(String),
    /// Drop the line that was read; write nothing.
    Discard,
    /// Write this diagnostic to the error stream and leave with the status of
    /// a read error.
    Abort(String),
    /// Leave with the status of success.
    Finish,
    /// Do nothing: the run was over before the event came.
    Nothing,
}

/// An [`Action`] as a mathematical value.
pub enum ActionView {
    Emit(Seq<char>),
    Discard,
    Abort(Seq<char>),
    Finish,
    Nothing,
}

impl View for Action {
    type V = ActionView;

    open spec fn view(&self) -> ActionView {
        match self {
            Action::Emit(line) => ActionView::Emit(line@),
            Action::Discard => ActionView::Discard,
            Action::Abort(message) => ActionView::Abort(message@),
            Action::Finish => ActionView::Finish,
            Action::Nothing => ActionView::Nothing,
        }
    }
}

/// The state after an event: a run goes on only from `Running` and only on a
/// line; whatever else happens ends it, and nothing starts it again.
pub open spec fn next_state(state: State, event: EventView) -> State {
    match (state, event) {
        (State::Running, EventView::Line(_)) => State::Running,
        _ => State::Terminated,
    }
}

/// The action that answers an event. While running, a line is emitted exactly
/// when it is not forbidden, a failed read aborts with its diagnostic, and the
/// end of the input finishes the run. Once terminated, nothing is done.
pub open spec fn action_for(forbidden: Set<Seq<char>>, state: State, event: EventView)
    -> ActionView {
    match state {
        State::Terminated => ActionView::Nothing,
        State::Running => match event {
            EventView::Line(line) => if forbidden.contains(line) {
                ActionView::Discard
            } else {
                ActionView::Emit(line)
            },
            EventView::ReadError(description) => ActionView::Abort(
                read_error_text(description),
            ),
            EventView::EndOfInput => ActionView::Finish,
        },
    }
}

/// The exit status that an action asks for, if it ends the run.
pub open spec fn exit_code_of(action: ActionView) -> Option<i32> {
    match action {
        ActionView::Abort(_) => Some(EXIT_READ_ERROR),
        ActionView::Finish => Some(EXIT_SUCCESS),
        _ => None,
    }
}

impl Action {
    /// The exit status to leave with, for the two actions that end the run.
    pub fn exit_code(&self) -> (code: Option<i32>)
        ensures
            code == exit_code_of(self@),
    {
        match self {
            Action::Abort(_) => Some(EXIT_READ_ERROR),
            Action::Finish => Some(EXIT_SUCCESS),
            _ => None,
        }
    }
}

/// Takes one event in the given state: returns the state that follows and the
/// action to perform.
pub fn step(forbidden: &ForbiddenSet, state: State, event: &Event) -> (next: (State, Action))
    ensures
        next.0 == next_state(state, event@),
        next.1@ == action_for(forbidden@, state, event@),
{
    match state {
        State::Terminated => (State::Terminated, Action::Nothing),
        State::Running => match event {
            Event::Line(line) => {
                if forbidden.contains(line.as_str()) {
                    (State::Running, Action::Discard)
                } else {
                    (State::Running, Action::Emit(line.clone()))
                }
            },
            Event::ReadError(description) => (
                State::Terminated,
                Action::Abort(read_error_message(description.as_str())),
            ),
            Event::EndOfInput => (State::Terminated, Action::Finish),
        },
    }
}

} // verus!
