//! The set of forbidden strings.

use crate::text::{lemma_texts_push, texts};
use vstd::hash_set::StringHashSet;
use vstd::prelude::*;

verus! {

/// The forbidden set that a list of arguments stands for: a text belongs to it
/// exactly when it is one of the arguments. Order and repetition play no part.
pub open spec fn forbidden_of(args: Seq<Seq<char>>) -> Set<Seq<char>> {
    args.to_set()
}

/// A finite set of strings, held for membership tests only.
pub struct ForbiddenSet {
    members: StringHashSet,
}

impl View for ForbiddenSet {
    type V = Set<Seq<char>>;

    closed spec fn view(&self) -> Set<Seq<char>> {
        self.members@
    }
}

impl ForbiddenSet {
    #[verifier::type_invariant]
    spec fn finite_membership(&self) -> bool {
        self.members@.finite()
    }

    /// The empty set: nothing is forbidden.
    pub fn new() -> (set: Self)
        ensures
            set@ == Set::<Seq<char>>::empty(),
    {
        ForbiddenSet { members: StringHashSet::new() }
    }

    /// Forbids `arg`. Returns whether it was not forbidden before; forbidding a
    /// string a second time changes nothing.
    pub fn insert(&mut self, arg: String) -> (fresh: bool)
        ensures
            final(self)@ == old(self)@.insert(arg@),
            fresh == !old(self)@.contains(arg@),
    {
        proof {
            use_type_invariant(&*self);
        }
        let mut members = StringHashSet::new();
        core::mem::swap(&mut self.members, &mut members);
        let fresh = members.insert(arg);
        core::mem::swap(&mut self.members, &mut members);
        fresh
    }

    /// The set of the given arguments, each taken as it stands.
    pub fn from_args(args: &[String]) -> (set: Self)
        ensures
            set@ == forbidden_of(texts(args@)),
    {
        let mut set = ForbiddenSet::new();
        let mut i: usize = 0;
        while i < args.len()
            invariant
                i <= args.len(),
                set@ == forbidden_of(texts(args@.take(i as int))),
            decreases args.len() - i,
        {
            set.insert(args[i].clone());
            proof {
                let done = args@.take(i as int);
                assert(args@.take(i + 1) == done.push(args[i as int]));
                lemma_texts_push(done, args[i as int]);
                texts(done).lemma_push_to_set_commute(args[i as int]@);
            }
            i += 1;
        }
        assert(args@.take(i as int) == args@);
        set
    }

    /// Whether `line` is forbidden: whether it equals a member character for
    /// character.
    pub fn contains(&self, line: &str) -> (found: bool)
        ensures
            found == self@.contains(line@),
    {
        self.members.contains(line)
    }

    /// The number of distinct forbidden strings.
    pub fn len(&self) -> (n: usize)
        ensures
            self@.finite(),
            n == self@.len(),
    {
        proof {
            use_type_invariant(self);
        }
        self.members.len()
    }

    /// Whether nothing is forbidden.
    pub fn is_empty(&self) -> (empty: bool)
        ensures
            empty == (self@ == Set::<Seq<char>>::empty()),
    {
        proof {
            use_type_invariant(self);
        }
        let n = self.members.len();
        proof {
            if n == 0 {
                self.members@.lemma_len0_is_empty();
            }
        }
        n == 0
    }
}

} // verus!
