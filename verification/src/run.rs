//! A whole run at once: from the events of a reader to what the run writes
//! and how it ends.

use crate::filter::{lemma_surviving_push, surviving};
use crate::forbidden::ForbiddenSet;
use crate::machine::{step, Action, Event, EventView, State};
use crate::report::{
    read_error_text, render_lines, rendered, terminated, EXIT_READ_ERROR, EXIT_SUCCESS,
};
use crate::text::texts;
use vstd::prelude::*;
use vstd::string::StringExecFns;

verus! {

/// What a run leaves behind.
#[derive(Debug, PartialEq, Eq)]
pub struct Outcome {
    /// The lines written to the output, in the order of writing.
    pub output: Vec<String>,
    /// The diagnostic of the failed read that ended the run, if one did.
    pub diagnostic: Option<String>,
}

/// An [`Outcome`] as a mathematical value.
pub struct OutcomeView {
    pub output: Seq<Seq<char>>,
    pub diagnostic: Option<Seq<char>>,
}

impl OutcomeView {
    /// The exit status: that of a read error if a read failed, else success.
    pub open spec fn exit_code(self) -> i32 {
        if self.diagnostic is Some {
            EXIT_READ_ERROR
        } else {
            EXIT_SUCCESS
        }
    }

    /// The text on the output: every line written, each with its newline.
    pub open spec fn stdout_text(self) -> Seq<char> {
        rendered(self.output)
    }

    /// The text on the error stream: the diagnostic as one line, or nothing.
    pub open spec fn stderr_text(self) -> Seq<char> {
        match self.diagnostic {
            Some(message) => terminated(message),
            None => Seq::empty(),
        }
    }
}

impl View for Outcome {
    type V = OutcomeView;

    open spec fn view(&self) -> OutcomeView {
        OutcomeView {
            output: texts(self.output@),
            diagnostic: match self.diagnostic {
                Some(message) => Some(message@),
                None => None,
            },
        }
    }
}

/// The views of a sequence of events, in the same order.
pub open spec fn event_views(events: Seq<Event>) -> Seq<EventView> {
    Seq::new(events.len(), |i: int| events[i]@)
}

/// Whether the reading of `events` stops at position `n`: everything before
/// it is a line, and it is the first event that is not one, or the end of the
/// sequence.
pub open spec fn stops_at(events: Seq<EventView>, n: int) -> bool {
    &&& 0 <= n <= events.len()
    &&& forall|i: int| 0 <= i < n ==> (#[trigger] events[i]) is Line
    &&& n < events.len() ==> !(events[n] is Line)
}

/// The position at which the reading of `events` stops.
pub open spec fn stop_index(events: Seq<EventView>) -> int
    decreases events.len(),
{
    if events.len() > 0 && events[0] is Line {
        1 + stop_index(events.drop_first())
    } else {
        0
    }
}

/// The first `n` events taken as lines.
pub open spec fn lines_before(events: Seq<EventView>, n: int) -> Seq<Seq<char>> {
    Seq::new(n as nat, |i: int| events[i]->Line_0)
}

/// The lines that a run reads from `events`: those before the reading stops.
pub open spec fn lines_read(events: Seq<EventView>) -> Seq<Seq<char>> {
    lines_before(events, stop_index(events))
}

/// A sequence of lines as the events of a reader that reads them all.
pub open spec fn line_events(lines: Seq<Seq<char>>) -> Seq<EventView> {
    Seq::new(lines.len(), |i: int| EventView::Line(lines[i]))
}

/// The outcome of a run over `events`. It writes the lines read that are not
/// forbidden, in their order. It carries a diagnostic exactly when the
/// reading stopped at a failed read. Events after the stop play no part.
pub open spec fn outcome_of(forbidden: Set<Seq<char>>, events: Seq<EventView>) -> OutcomeView {
    let n = stop_index(events);
    OutcomeView {
        output: surviving(lines_read(events), forbidden),
        diagnostic: if n < events.len() && events[n] is ReadError {
            Some(read_error_text(events[n]->ReadError_0))
        } else {
            None
        },
    }
}

/// The reading stops where `stop_index` says, and nowhere else.
pub proof fn lemma_stop_index(events: Seq<EventView>, n: int)
    ensures
        stops_at(events, stop_index(events)),
        stops_at(events, n) ==> n == stop_index(events),
    decreases events.len(),
{
    if events.len() > 0 && events[0] is Line {
        let rest = events.drop_first();
        lemma_stop_index(rest, n - 1);
        assert forall|i: int| 0 <= i < stop_index(rest) + 1 implies (#[trigger] events[i]) is Line by {
            if i > 0 {
                assert(rest[i - 1] is Line);
            }
        }
        if stops_at(events, n) {
            assert forall|i: int| 0 <= i < n - 1 implies (#[trigger] rest[i]) is Line by {
                assert(events[i + 1] is Line);
            }
        }
    }
}

/// A reader that reads all of `lines` and then comes to the end has read
/// exactly `lines`.
pub proof fn lemma_line_events_read(lines: Seq<Seq<char>>)
    ensures
        stop_index(line_events(lines)) == lines.len(),
        lines_read(line_events(lines)) == lines,
{
    let events = line_events(lines);
    lemma_stop_index(events, lines.len() as int);
}

impl Outcome {
    /// The exit status of the run.
    pub fn exit_code(&self) -> (code: i32)
        ensures
            code == self@.exit_code(),
    {
        if self.diagnostic.is_some() {
            EXIT_READ_ERROR
        } else {
            EXIT_SUCCESS
        }
    }

    /// The text that the run wrote to the output.
    pub fn stdout_text(&self) -> (text: String)
        ensures
            text@ == self@.stdout_text(),
    {
        render_lines(self.output.as_slice())
    }

    /// The text that the run wrote to the error stream.
    pub fn stderr_text(&self) -> (text: String)
        ensures
            text@ == self@.stderr_text(),
    {
        match &self.diagnostic {
            Some(message) => {
                proof {
                    reveal_strlit("\n");
                }
                message.clone().concat("\n")
            },
            None => String::new(),
        }
    }
}

/// Runs the filter over the events of a reader, from the first to the one at
/// which the reading stops. The end of `events` counts as the end of the input.
pub fn run(forbidden: &ForbiddenSet, events: &[Event]) -> (outcome: Outcome)
    ensures
        outcome@ == outcome_of(forbidden@, event_views(events@)),
{
    let ghost all = event_views(events@);
    let mut output: Vec<String> = Vec::new();
    let mut i: usize = 0;
    while i < events.len()
        invariant
            all == event_views(events@),
            i <= events.len(),
            forall|j: int| 0 <= j < i ==> (#[trigger] all[j]) is Line,
            texts(output@) == surviving(lines_before(all, i as int), forbidden@),
        decreases events.len() - i,
    {
        let (_, action) = step(forbidden, State::Running, &events[i]);
        match action {
            Action::Emit(line) => {
                output.push(line);
            },
            Action::Discard => {},
            Action::Abort(message) => {
                proof {
                    lemma_stop_index(all, i as int);
                }
                return Outcome { output, diagnostic: Some(message) };
            },
            Action::Finish => {
                proof {
                    lemma_stop_index(all, i as int);
                }
                return Outcome { output, diagnostic: None };
            },
            Action::Nothing => {},
        }
        proof {
            let line = all[i as int]->Line_0;
            assert(lines_before(all, i + 1) =~= lines_before(all, i as int).push(line));
            lemma_surviving_push(lines_before(all, i as int), line, forbidden@);
        }
        i += 1;
    }
    proof {
        lemma_stop_index(all, i as int);
    }
    Outcome { output, diagnostic: None }
}

} // verus!
