//! A pull-based producer of two-variant results.
//!
//! [`ResultIterator`] is the source abstraction the adapters of this crate
//! are built on.  Its `next` method is specified relationally: each
//! implementation names, through [`ResultIterator::advances`], exactly which
//! transitions a single pull may take and which item it hands out on each of
//! them.  The relational form is what lets an adapter whose output depends on
//! a caller-supplied closure state a complete contract: the closure's
//! possible results are a relation, not a function, so the adapter's single
//! step is one too.
//!
//! [`VecSource`] is the concrete source of this crate: it owns its items and
//! hands them out front to back, so every law about the adapters can be
//! instantiated with it.  Every standard iterator over `Result` items is
//! also accepted as a `ResultIterator` through the blanket implementation at
//! the bottom; nothing is known about an arbitrary foreign iterator, so its
//! transition relation is the trivial one, and reasoning that needs an exact
//! source model starts from `VecSource`.

use vstd::prelude::*;

verus! {

/// A pull-based source of `Result<T, E>` items.
pub trait ResultIterator<T, E>: Sized {
    /// Holds when `next` may be called; `next` keeps it, so a well-formed
    /// source stays well-formed however often it is pulled.
    spec fn wf(&self) -> bool;

    /// Holds when the source has nothing left to hand out.
    spec fn exhausted(&self) -> bool;

    /// The transition relation of one pull: `advances(pre, post, produced)`
    /// holds exactly when a single `next` call on a source in state `pre`
    /// may leave it in state `post` while handing out `produced`
    /// (`None` signalling exhaustion).
    spec fn advances(pre: Self, post: Self, produced: Option<Result<T, E>>) -> bool;

    /// Exhaustion is final: a pull of an exhausted source signals exhaustion
    /// and leaves the source exhausted.  Every implementation owes this law
    /// about its transition relation.
    proof fn advances_from_exhausted(pre: Self, post: Self, produced: Option<Result<T, E>>)
        requires
            Self::advances(pre, post, produced),
            pre.exhausted(),
        ensures
            produced is None,
            post.exhausted(),
    ;

    /// Pull the next item, or learn that the source is exhausted.
    fn next(&mut self) -> (produced: Option<Result<T, E>>)
        requires
            old(self).wf(),
        ensures
            Self::advances(*old(self), *final(self), produced),
            final(self).wf(),
    ;
}

/// A run of a source: `states` are the stops of one source pulled
/// `outs.len()` times in a row, and `outs` what the pulls handed out.
pub open spec fn run<S: ResultIterator<T, E>, T, E>(
    states: Seq<S>,
    outs: Seq<Option<Result<T, E>>>,
) -> bool {
    &&& states.len() == outs.len() + 1
    &&& forall|i: int| #![trigger outs[i]]
        0 <= i < outs.len() ==> S::advances(states[i], states[i + 1], outs[i])
}

/// Exhaustion does not revive: from an exhausted stop of a run, every later
/// pull signals exhaustion and leaves the source exhausted.
pub proof fn lemma_exhaustion_propagation<S: ResultIterator<T, E>, T, E>(
    states: Seq<S>,
    outs: Seq<Option<Result<T, E>>>,
    j: int,
    k: int,
)
    requires
        run(states, outs),
        0 <= j <= k < outs.len(),
        states[j].exhausted(),
    ensures
        outs[k] is None,
        states[k + 1].exhausted(),
    decreases k - j,
{
    if j == k {
        S::advances_from_exhausted(states[j], states[j + 1], outs[j]);
    } else {
        S::advances_from_exhausted(states[j], states[j + 1], outs[j]);
        lemma_exhaustion_propagation(states, outs, j + 1, k);
    }
}

/// What a run of a [`VecSource`] hands out: exactly the items it held at
/// the start, front to back, in order, and exhaustion from then on.
pub proof fn lemma_vec_source_run<T, E>(
    states: Seq<VecSource<T, E>>,
    outs: Seq<Option<Result<T, E>>>,
)
    requires
        run(states, outs),
    ensures
        forall|i: int|
            0 <= i < outs.len() ==> (#[trigger] outs[i]) == (if i < states[0].items().len() {
                Some(states[0].items()[i])
            } else {
                None::<Result<T, E>>
            }),
    decreases outs.len(),
{
    if outs.len() > 0 {
        let sub_states = states.drop_first();
        let sub_outs = outs.drop_first();
        assert forall|i: int| 0 <= i < sub_outs.len() implies VecSource::advances(
            sub_states[i],
            sub_states[i + 1],
            #[trigger] sub_outs[i],
        ) by {
            assert(VecSource::advances(states[i + 1], states[i + 2], outs[i + 1]));
        }
        lemma_vec_source_run(sub_states, sub_outs);
        assert(VecSource::advances(states[0], states[1], outs[0]));
        assert forall|i: int|
            0 <= i < outs.len() implies (#[trigger] outs[i]) == (if i < states[0].items().len() {
                Some(states[0].items()[i])
            } else {
                None::<Result<T, E>>
            }) by {
            if i > 0 {
                assert(outs[i] == sub_outs[i - 1]);
                assert(sub_outs[i - 1] == (if i - 1 < sub_states[0].items().len() {
                    Some(sub_states[0].items()[i - 1])
                } else {
                    None::<Result<T, E>>
                }));
                assert(sub_states[0] == states[1]);
                if states[0].items().len() > 0 {
                    assert(states[1].items() == states[0].items().drop_first());
                    if i < states[0].items().len() {
                        assert(states[0].items().drop_first()[i - 1] == states[0].items()[i]);
                    }
                } else {
                    assert(states[1].items() == states[0].items());
                }
            }
        }
    }
}

/// A source that owns its items and hands them out front to back.
pub struct VecSource<T, E> {
    items: Vec<Result<T, E>>,
}

impl<T, E> VecSource<T, E> {
    /// The items still to be handed out, in order.
    pub closed spec fn items(&self) -> Seq<Result<T, E>> {
        self.items@
    }

    /// A source that will hand out exactly `items`, front to back.
    pub fn new(items: Vec<Result<T, E>>) -> (source: Self)
        ensures
            source.items() == items@,
    {
        VecSource { items }
    }
}

impl<T, E> ResultIterator<T, E> for VecSource<T, E> {
    open spec fn wf(&self) -> bool {
        true
    }

    open spec fn exhausted(&self) -> bool {
        self.items().len() == 0
    }

    /// One pull hands out the front item and keeps the rest, or signals
    /// exhaustion and changes nothing.
    open spec fn advances(pre: Self, post: Self, produced: Option<Result<T, E>>) -> bool {
        if pre.items().len() > 0 {
            &&& post.items() == pre.items().drop_first()
            &&& produced == Some(pre.items()[0])
        } else {
            &&& post.items() == pre.items()
            &&& produced is None
        }
    }

    proof fn advances_from_exhausted(pre: Self, post: Self, produced: Option<Result<T, E>>) {
    }

    fn next(&mut self) -> (produced: Option<Result<T, E>>) {
        if self.items.len() > 0 {
            let item = self.items.remove(0);
            proof {
                assert(self.items() =~= old(self).items().drop_first());
            }
            Some(item)
        } else {
            None
        }
    }
}

impl<I, T, E> ResultIterator<T, E> for I where I: Iterator<Item = Result<T, E>> {
    /// A standard iterator may be pulled in any state.
    open spec fn wf(&self) -> bool {
        true
    }

    /// Nothing marks an arbitrary foreign iterator as spent.
    open spec fn exhausted(&self) -> bool {
        false
    }

    /// Nothing is known about what an arbitrary foreign iterator hands out.
    open spec fn advances(pre: Self, post: Self, produced: Option<Result<T, E>>) -> bool {
        true
    }

    proof fn advances_from_exhausted(pre: Self, post: Self, produced: Option<Result<T, E>>) {
    }

    fn next(&mut self) -> (produced: Option<Result<T, E>>) {
        Iterator::next(self)
    }
}

} // verus!
