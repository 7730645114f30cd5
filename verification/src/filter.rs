//! The filter itself: which lines of a sequence survive a forbidden set.

use crate::forbidden::ForbiddenSet;
use crate::text::{lemma_texts_push, texts};
use vstd::prelude::*;

verus! {

/// The test that a line passes: it is not a member of the forbidden set.
pub open spec fn passes(forbidden: Set<Seq<char>>) -> spec_fn(Seq<char>) -> bool {
    |line: Seq<char>| !forbidden.contains(line)
}

/// The lines that survive: those of `lines` that are not forbidden, in the
/// order in which they stand in `lines`, each as often as it stands there.
pub open spec fn surviving(lines: Seq<Seq<char>>, forbidden: Set<Seq<char>>) -> Seq<Seq<char>> {
    lines.filter(passes(forbidden))
}

/// One more line at the end adds itself to the survivors if it is not
/// forbidden, and nothing otherwise.
pub proof fn lemma_surviving_push(
    lines: Seq<Seq<char>>,
    line: Seq<char>,
    forbidden: Set<Seq<char>>,
)
    ensures
        surviving(lines.push(line), forbidden) == if forbidden.contains(line) {
            surviving(lines, forbidden)
        } else {
            surviving(lines, forbidden).push(line)
        },
{
    lines.lemma_filter_push(line, passes(forbidden));
}

/// Nothing survives of no lines.
pub proof fn lemma_surviving_empty(forbidden: Set<Seq<char>>)
    ensures
        surviving(Seq::<Seq<char>>::empty(), forbidden) == Seq::<Seq<char>>::empty(),
{
    reveal(Seq::filter);
}

/// Lines of which none is forbidden survive as they are.
pub proof fn lemma_all_survive(lines: Seq<Seq<char>>, forbidden: Set<Seq<char>>)
    requires
        forall|i: int| 0 <= i < lines.len() ==> !forbidden.contains(#[trigger] lines[i]),
    ensures
        surviving(lines, forbidden) == lines,
    decreases lines.len(),
{
    if lines.len() > 0 {
        let front = lines.drop_last();
        lemma_all_survive(front, forbidden);
        assert(lines =~= front.push(lines.last()));
        lemma_surviving_push(front, lines.last(), forbidden);
    }
}

/// No survivor is forbidden.
pub proof fn lemma_survivors_pass(lines: Seq<Seq<char>>, forbidden: Set<Seq<char>>)
    ensures
        forall|i: int|
            0 <= i < surviving(lines, forbidden).len() ==> !forbidden.contains(
                #[trigger] surviving(lines, forbidden)[i],
            ),
{
    assert forall|i: int| 0 <= i < surviving(lines, forbidden).len() implies !forbidden.contains(
        #[trigger] surviving(lines, forbidden)[i],
    ) by {
        lines.lemma_filter_pred(passes(forbidden), i);
    }
}

/// Copies the lines that are not forbidden, in their order.
pub fn filter_lines(forbidden: &ForbiddenSet, lines: &[String]) -> (kept: Vec<String>)
    ensures
        texts(kept@) == surviving(texts(lines@), forbidden@),
{
    let mut kept: Vec<String> = Vec::new();
    let mut i: usize = 0;
    while i < lines.len()
        invariant
            i <= lines.len(),
            texts(kept@) == surviving(texts(lines@.take(i as int)), forbidden@),
        decreases lines.len() - i,
    {
        proof {
            let done = lines@.take(i as int);
            assert(lines@.take(i + 1) == done.push(lines[i as int]));
            lemma_texts_push(done, lines[i as int]);
            lemma_surviving_push(texts(done), lines[i as int]@, forbidden@);
        }
        if !forbidden.contains(lines[i].as_str()) {
            kept.push(lines[i].clone());
        }
        i += 1;
    }
    assert(lines@.take(i as int) == lines@);
    kept
}

} // verus!
