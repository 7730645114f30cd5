//! What holds of the filter whatever the arguments and the input are.

use crate::filter::{
    lemma_all_survive, lemma_surviving_empty, lemma_surviving_push, lemma_survivors_pass, passes,
    surviving,
};
use crate::forbidden::forbidden_of;
use crate::machine::{action_for, next_state, ActionView, EventView, State};
use crate::report::EXIT_SUCCESS;
use crate::run::{
    lemma_line_events_read, lemma_stop_index, line_events, lines_read, outcome_of, stop_index,
    stops_at, OutcomeView,
};
use vstd::prelude::*;

verus! {

/// Whether `picked` lists, in rising order, exactly the positions of `lines`
/// at which a line stands that is not forbidden.
pub open spec fn picks_survivors(
    picked: Seq<int>,
    lines: Seq<Seq<char>>,
    forbidden: Set<Seq<char>>,
) -> bool {
    &&& forall|k: int|
        0 <= k < picked.len() ==> 0 <= #[trigger] picked[k] < lines.len() && !forbidden.contains(
            lines[picked[k]],
        )
    &&& forall|j: int, k: int| 0 <= j < k < picked.len() ==> picked[j] < picked[k]
    &&& forall|i: int|
        0 <= i < lines.len() && !forbidden.contains(#[trigger] lines[i]) ==> exists|k: int|
            0 <= k < picked.len() && picked[k] == i
}

/// The outcome of a run in which nothing is written or reported.
pub open spec fn silent() -> OutcomeView {
    OutcomeView { output: Seq::empty(), diagnostic: None }
}

/// Argument lists that name the same strings stand for the same forbidden
/// set, in whatever order and however often they name them; every run then
/// has the same outcome under both.
pub proof fn law_same_arguments_same_run(
    a: Seq<Seq<char>>,
    b: Seq<Seq<char>>,
    events: Seq<EventView>,
)
    requires
        forall|text: Seq<char>| a.contains(text) <==> b.contains(text),
    ensures
        forbidden_of(a) == forbidden_of(b),
        outcome_of(forbidden_of(a), events) == outcome_of(forbidden_of(b), events),
{
    assert(forbidden_of(a) =~= forbidden_of(b));
}

/// An argument that is given a second time adds nothing: without the
/// repetition the forbidden set is the same, and so is the outcome of every
/// run.
pub proof fn law_duplicate_argument_collapses(
    args: Seq<Seq<char>>,
    first: int,
    again: int,
    events: Seq<EventView>,
)
    requires
        0 <= first < again < args.len(),
        args[first] == args[again],
    ensures
        forbidden_of(args.remove(again)) == forbidden_of(args),
        outcome_of(forbidden_of(args.remove(again)), events) == outcome_of(
            forbidden_of(args),
            events,
        ),
{
    let fewer = args.remove(again);
    assert forall|text: Seq<char>| fewer.contains(text) <==> args.contains(text) by {
        if fewer.contains(text) {
            let i = choose|i: int| 0 <= i < fewer.len() && fewer[i] == text;
            assert(args[if i < again { i } else { i + 1 }] == text);
        }
        if args.contains(text) {
            let i = choose|i: int| 0 <= i < args.len() && args[i] == text;
            if i < again {
                assert(fewer[i] == text);
            } else if i == again {
                assert(fewer[first] == text);
            } else {
                assert(fewer[i - 1] == text);
            }
        }
    }
}

/// The survivors are the lines that are not forbidden, each taken from its
/// place and kept in the order of the places. The positions returned witness
/// it: they rise, they are exactly the places of the lines that are not
/// forbidden, and the survivors are the lines at those places.
pub proof fn law_order_preserved(lines: Seq<Seq<char>>, forbidden: Set<Seq<char>>) -> (picked: Seq<
    int,
>)
    ensures
        picks_survivors(picked, lines, forbidden),
        surviving(lines, forbidden).len() == picked.len(),
        forall|k: int|
            0 <= k < picked.len() ==> #[trigger] surviving(lines, forbidden)[k] == lines[picked[k]],
    decreases lines.len(),
{
    if lines.len() == 0 {
        Seq::empty()
    } else {
        let front = lines.drop_last();
        let last = lines.last();
        let earlier = law_order_preserved(front, forbidden);
        assert(lines =~= front.push(last));
        lemma_surviving_push(front, last, forbidden);
        let picked = if forbidden.contains(last) {
            earlier
        } else {
            earlier.push(lines.len() - 1)
        };
        assert forall|i: int|
            0 <= i < lines.len() && !forbidden.contains(#[trigger] lines[i]) implies exists|k: int|
            0 <= k < picked.len() && picked[k] == i by {
            if i < front.len() {
                let k = choose|k: int| 0 <= k < earlier.len() && earlier[k] == i;
                assert(picked[k] == i);
            } else {
                assert(picked[picked.len() - 1] == i);
            }
        }
        assert forall|k: int| 0 <= k < picked.len() implies #[trigger] surviving(
            lines,
            forbidden,
        )[k] == lines[picked[k]] by {
            if k < earlier.len() {
                assert(surviving(front, forbidden)[k] == front[earlier[k]]);
            }
        }
        picked
    }
}

/// Over an input that is read without a failure, a run writes the survivors
/// of all its lines and ends with success, whether or not the reader reports
/// the end of the input as an event of its own.
pub proof fn law_valid_input_is_filtered(lines: Seq<Seq<char>>, forbidden: Set<Seq<char>>)
    ensures
        outcome_of(forbidden, line_events(lines)) == (OutcomeView {
            output: surviving(lines, forbidden),
            diagnostic: None,
        }),
        outcome_of(forbidden, line_events(lines).push(EventView::EndOfInput)) == outcome_of(
            forbidden,
            line_events(lines),
        ),
{
    lemma_line_events_read(lines);
    let ended = line_events(lines).push(EventView::EndOfInput);
    assert(stops_at(ended, lines.len() as int));
    lemma_stop_index(ended, lines.len() as int);
    assert(lines_read(ended) =~= lines);
}

/// A line is dropped only if it equals an argument character for character:
/// on its own it is removed if it is one of the arguments, and passes
/// unchanged if it differs from each of them.
pub proof fn law_exact_match_only(args: Seq<Seq<char>>, line: Seq<char>)
    ensures
        forbidden_of(args).contains(line) <==> exists|i: int|
            0 <= i < args.len() && args[i] == line,
        surviving(seq![line], forbidden_of(args)) == if args.contains(line) {
            Seq::<Seq<char>>::empty()
        } else {
            seq![line]
        },
{
    lemma_surviving_push(Seq::empty(), line, forbidden_of(args));
    assert(Seq::<Seq<char>>::empty().push(line) =~= seq![line]);
}

/// A forbidden string with anything put before or after it is another
/// string: where only `arg` is forbidden, such a line passes.
pub proof fn law_padded_variant_passes(arg: Seq<char>, before: Seq<char>, after: Seq<char>)
    requires
        before.len() + after.len() > 0,
    ensures
        surviving(seq![before + arg + after], forbidden_of(seq![arg])) == seq![
            before + arg + after,
        ],
{
    let line = before + arg + after;
    let args = seq![arg];
    assert(line.len() != arg.len());
    assert(!args.contains(line)) by {
        if args.contains(line) {
            let i = choose|i: int| 0 <= i < args.len() && args[i] == line;
            assert(args[i] == arg);
        }
    }
    law_exact_match_only(args, line);
}

/// Where nothing is forbidden, every line survives: the input is copied line
/// for line, and a run writes every line that it reads.
pub proof fn law_empty_set_keeps_all(lines: Seq<Seq<char>>, events: Seq<EventView>)
    ensures
        forbidden_of(Seq::<Seq<char>>::empty()) == Set::<Seq<char>>::empty(),
        surviving(lines, Set::<Seq<char>>::empty()) == lines,
        outcome_of(Set::<Seq<char>>::empty(), events).output == lines_read(events),
{
    lemma_all_survive(lines, Set::empty());
    lemma_all_survive(lines_read(events), Set::empty());
}

/// On an input that is at its end from the start, a run writes nothing,
/// reports nothing and ends with success, whatever is forbidden.
pub proof fn law_empty_input(forbidden: Set<Seq<char>>, events: Seq<EventView>)
    requires
        events.len() == 0 || events[0] is EndOfInput,
    ensures
        outcome_of(forbidden, events) == silent(),
        outcome_of(forbidden, events).exit_code() == EXIT_SUCCESS,
        outcome_of(forbidden, events).stdout_text() == Seq::<char>::empty(),
{
    lemma_surviving_empty(forbidden);
    assert(lines_read(events) =~= Seq::<Seq<char>>::empty());
}

/// Filtering is idempotent. No survivor is forbidden, so filtering the
/// survivors again removes nothing; and a run over the output of a run, under
/// the same forbidden set, writes that output again and ends with success.
pub proof fn law_filter_idempotent(
    lines: Seq<Seq<char>>,
    forbidden: Set<Seq<char>>,
    events: Seq<EventView>,
)
    ensures
        forall|i: int|
            0 <= i < surviving(lines, forbidden).len() ==> !forbidden.contains(
                #[trigger] surviving(lines, forbidden)[i],
            ),
        surviving(surviving(lines, forbidden), forbidden) == surviving(lines, forbidden),
        outcome_of(forbidden, line_events(outcome_of(forbidden, events).output)) == (OutcomeView {
            output: outcome_of(forbidden, events).output,
            diagnostic: None,
        }),
{
    lemma_survivors_pass(lines, forbidden);
    lemma_all_survive(surviving(lines, forbidden), forbidden);
    let written = outcome_of(forbidden, events).output;
    lemma_survivors_pass(lines_read(events), forbidden);
    lemma_all_survive(written, forbidden);
    lemma_line_events_read(written);
}

/// What taking `events` one by one from `state` brings about, when every
/// action is performed as it is given: the lines emitted, in order, and the
/// diagnostic of the abort, if there is one.
pub open spec fn performed(forbidden: Set<Seq<char>>, state: State, events: Seq<EventView>)
    -> OutcomeView
    decreases events.len(),
{
    if events.len() == 0 {
        silent()
    } else {
        let later = performed(forbidden, next_state(state, events[0]), events.drop_first());
        match action_for(forbidden, state, events[0]) {
            ActionView::Emit(line) => OutcomeView {
                output: seq![line] + later.output,
                diagnostic: later.diagnostic,
            },
            ActionView::Abort(message) => OutcomeView {
                output: later.output,
                diagnostic: Some(message),
            },
            _ => later,
        }
    }
}

/// A run that is over stays over: whatever events still come, nothing is
/// written and nothing is reported.
pub proof fn law_terminated_stays_silent(forbidden: Set<Seq<char>>, events: Seq<EventView>)
    ensures
        performed(forbidden, State::Terminated, events) == silent(),
    decreases events.len(),
{
    if events.len() > 0 {
        law_terminated_stays_silent(forbidden, events.drop_first());
    }
}

/// Taking the events one by one from the start and performing each action
/// brings about the outcome of the run over these events.
pub proof fn law_stepping_gives_the_outcome(forbidden: Set<Seq<char>>, events: Seq<EventView>)
    ensures
        performed(forbidden, State::Running, events) == outcome_of(forbidden, events),
    decreases events.len(),
{
    lemma_surviving_empty(forbidden);
    if events.len() == 0 {
        assert(lines_read(events) =~= Seq::<Seq<char>>::empty());
    } else {
        let rest = events.drop_first();
        match events[0] {
            EventView::Line(line) => {
                law_stepping_gives_the_outcome(forbidden, rest);
                let n = stop_index(rest);
                lemma_stop_index(rest, n);
                assert(lines_read(events) =~= seq![line] + lines_read(rest));
                lines_read(rest).lemma_filter_prepend(line, passes(forbidden));
                if forbidden.contains(line) {
                    assert(Seq::<Seq<char>>::empty() + surviving(lines_read(rest), forbidden)
                        =~= surviving(lines_read(rest), forbidden));
                }
                if n < rest.len() {
                    assert(rest[n] == events[n + 1]);
                }
            },
            EventView::ReadError(description) => {
                law_terminated_stays_silent(forbidden, rest);
                assert(lines_read(events) =~= Seq::<Seq<char>>::empty());
            },
            EventView::EndOfInput => {
                law_terminated_stays_silent(forbidden, rest);
                assert(lines_read(events) =~= Seq::<Seq<char>>::empty());
            },
        }
    }
}

} // verus!
