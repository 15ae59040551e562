//! The boxing adapter.
//!
//! [`BoxOk::box_ok`] is the specialization of the result-mapping adapter
//! whose transform moves each success payload into freshly allocated,
//! exclusively owned heap storage.  It inherits the mapping adapter's
//! behaviour wholesale: lazy, one inner pull per pull, failure payloads
//! relayed untouched.  The transform cannot be a closure here, since an
//! associated type must name it, so the adapter is its own struct,
//! [`BoxOkIter`]; [`lemma_boxing_is_mapping`] ties its per-item relation to
//! the mapping adapter's with a boxing transform such as [`box_value`].

use crate::map_ok::maps_item;
use crate::source::lemma_vec_source_run;
use crate::source::run;
use crate::source::ResultIterator;
use crate::source::VecSource;
use std::marker::PhantomData;
use vstd::prelude::*;

verus! {

/// How one item of the inner source relates to the item handed out for it:
/// a success payload is moved into a box holding an equal value, and a
/// failure payload is handed out unchanged.
pub open spec fn boxes_item<T, E>(item: Result<T, E>, out: Result<Box<T>, E>) -> bool {
    match item {
        Ok(v) => out matches Ok(b) && *b == v,
        Err(e) => out == Err::<Box<T>, E>(e),
    }
}

/// `boxes_item` lifted to what a single pull hands out.
pub open spec fn boxes_output<T, E>(
    produced: Option<Result<T, E>>,
    out: Option<Result<Box<T>, E>>,
) -> bool {
    match produced {
        Some(item) => out matches Some(o) && boxes_item(item, o),
        None => out is None,
    }
}

/// The adapter returned by [`BoxOk::box_ok`]: wraps an inner source of
/// `Result<T, E>` items and boxes every success payload it hands out.
pub struct BoxOkIter<S, T, E> {
    iter: S,
    _phantom: PhantomData<(T, E)>,
}

impl<S, T, E> BoxOkIter<S, T, E> where S: ResultIterator<T, E> {
    /// The inner source, in its current state.
    pub closed spec fn inner(&self) -> S {
        self.iter
    }

    /// Boxing is total, so only the inner source must be well-formed.
    pub open spec fn wf(&self) -> bool {
        self.inner().wf()
    }

    /// The adapter is exhausted exactly when its inner source is.
    pub open spec fn exhausted(&self) -> bool {
        self.inner().exhausted()
    }

    /// One pull of the adapter is one pull of the inner source, whose
    /// outcome is handed out boxed.
    pub open spec fn advances(pre: Self, post: Self, produced: Option<Result<Box<T>, E>>) -> bool {
        exists|inner_produced: Option<Result<T, E>>|
            #![trigger S::advances(pre.inner(), post.inner(), inner_produced)]
            {
                &&& S::advances(pre.inner(), post.inner(), inner_produced)
                &&& boxes_output(inner_produced, produced)
            }
    }

    /// Attach the adapter: wrap `iter` so that every success payload is
    /// moved into a box and every failure payload is relayed unchanged.
    /// Attaching is lazy: the adapter holds the source, in the very state it
    /// had; nothing has been pulled.
    pub fn new(iter: S) -> (r: Self)
        ensures
            r.inner() == iter,
    {
        BoxOkIter { iter, _phantom: PhantomData }
    }

    /// Pull the next item, or learn that the adapter is exhausted: one pull
    /// of the inner source; a success payload is handed out moved into a box
    /// holding an equal value, a failure payload is handed out unchanged,
    /// and exhaustion is relayed as exhaustion.
    pub fn next(&mut self) -> (produced: Option<Result<Box<T>, E>>)
        requires
            old(self).wf(),
        ensures
            Self::advances(*old(self), *final(self), produced),
            final(self).wf(),
    {
        let inner_produced = self.iter.next();
        let ghost inner_snapshot = inner_produced;
        match inner_produced {
            Some(Ok(value)) => {
                let boxed = Box::new(value);
                proof {
                    assert(S::advances(old(self).inner(), self.inner(), inner_snapshot));
                    assert(boxes_output(inner_snapshot, Some(Ok::<Box<T>, E>(boxed))));
                }
                Some(Ok(boxed))
            },
            Some(Err(error)) => {
                let ghost failure = error;
                proof {
                    assert(S::advances(old(self).inner(), self.inner(), inner_snapshot));
                    assert(boxes_output(inner_snapshot, Some(Err::<Box<T>, E>(failure))));
                }
                Some(Err(error))
            },
            None => {
                proof {
                    assert(S::advances(old(self).inner(), self.inner(), inner_snapshot));
                    assert(boxes_output(inner_snapshot, None::<Result<Box<T>, E>>));
                }
                None
            },
        }
    }
}

/// The adapter is itself a source, so adapters chain; each specification
/// function forwards to the inherent one of the same name, which is the
/// primary statement and needs no trait import to use.
impl<S, T, E> ResultIterator<Box<T>, E> for BoxOkIter<S, T, E> where S: ResultIterator<T, E> {
    open spec fn wf(&self) -> bool {
        BoxOkIter::wf(self)
    }

    open spec fn exhausted(&self) -> bool {
        BoxOkIter::exhausted(self)
    }

    open spec fn advances(pre: Self, post: Self, produced: Option<Result<Box<T>, E>>) -> bool {
        BoxOkIter::advances(pre, post, produced)
    }

    proof fn advances_from_exhausted(pre: Self, post: Self, produced: Option<Result<Box<T>, E>>) {
        let inner_produced = choose|inner_produced: Option<Result<T, E>>|
            #![trigger S::advances(pre.inner(), post.inner(), inner_produced)]
            {
                &&& S::advances(pre.inner(), post.inner(), inner_produced)
                &&& boxes_output(inner_produced, produced)
            };
        S::advances_from_exhausted(pre.inner(), post.inner(), inner_produced);
    }

    fn next(&mut self) -> (produced: Option<Result<Box<T>, E>>) {
        BoxOkIter::next(self)
    }
}

/// Attaching the boxing adapter to a source of `Result` items.
pub trait BoxOk<T, E>: Sized {
    type Iter: ResultIterator<Box<T>, E>;

    /// What `box_ok` returns: stated by each implementation.
    spec fn box_ok_spec(self, r: Self::Iter) -> bool;

    /// Attach the adapter: wrap this source so that every success payload is
    /// moved into a box and every failure payload is relayed unchanged.
    fn box_ok(self) -> (r: Self::Iter)
        ensures
            self.box_ok_spec(r),
    ;
}

impl<S, T, E> BoxOk<T, E> for S where S: ResultIterator<T, E> {
    type Iter = BoxOkIter<S, T, E>;

    /// Attaching is lazy: the adapter holds this source, in the very state
    /// it had; nothing has been pulled.
    open spec fn box_ok_spec(self, r: Self::Iter) -> bool {
        r.inner() == self
    }

    fn box_ok(self) -> (r: Self::Iter) {
        BoxOkIter::new(self)
    }
}

/// The states of the inner source along a run of the adapter.
pub open spec fn inner_states<S, T, E>(states: Seq<BoxOkIter<S, T, E>>) -> Seq<S> where
    S: ResultIterator<T, E>,
 {
    states.map_values(|s: BoxOkIter<S, T, E>| s.inner())
}

/// The boxing adapter inherits the mapping adapter's ordering wholesale: a
/// run of it is, pull for pull, a run of its inner source, and the `i`-th
/// output is the `i`-th inner output boxed — same order, one inner pull per
/// pull, nothing reordered, dropped, merged or duplicated.
pub proof fn lemma_box_ok_run<S, T, E>(
    states: Seq<BoxOkIter<S, T, E>>,
    outs: Seq<Option<Result<Box<T>, E>>>,
) where S: ResultIterator<T, E>
    requires
        run(states, outs),
    ensures
        exists|inner_outs: Seq<Option<Result<T, E>>>|
            #![trigger run(inner_states(states), inner_outs)]
            {
                &&& inner_outs.len() == outs.len()
                &&& run(inner_states(states), inner_outs)
                &&& forall|i: int|
                    0 <= i < outs.len() ==> boxes_output(#[trigger] inner_outs[i], outs[i])
            },
    decreases outs.len(),
{
    let mapped = inner_states(states);
    if outs.len() == 0 {
        let inner_outs = Seq::<Option<Result<T, E>>>::empty();
        assert(run(mapped, inner_outs));
    } else {
        let n = outs.len() as int;
        let sub_states = states.drop_last();
        let sub_outs = outs.drop_last();
        assert forall|i: int| 0 <= i < sub_outs.len() implies BoxOkIter::advances(
            sub_states[i],
            sub_states[i + 1],
            #[trigger] sub_outs[i],
        ) by {
            assert(BoxOkIter::advances(states[i], states[i + 1], outs[i]));
        }
        lemma_box_ok_run(sub_states, sub_outs);
        assert(BoxOkIter::advances(states[n - 1], states[n], outs[n - 1]));
        let sub_mapped = inner_states(sub_states);
        let sub_inner_outs = choose|inner_outs: Seq<Option<Result<T, E>>>|
            #![trigger run(sub_mapped, inner_outs)]
            {
                &&& inner_outs.len() == sub_outs.len()
                &&& run(sub_mapped, inner_outs)
                &&& forall|i: int|
                    0 <= i < sub_outs.len() ==> boxes_output(#[trigger] inner_outs[i], sub_outs[i])
            };
        let last_inner = choose|inner_produced: Option<Result<T, E>>|
            #![trigger S::advances(states[n - 1].inner(), states[n].inner(), inner_produced)]
            {
                &&& S::advances(states[n - 1].inner(), states[n].inner(), inner_produced)
                &&& boxes_output(inner_produced, outs[n - 1])
            };
        let inner_outs = sub_inner_outs.push(last_inner);
        assert forall|i: int| 0 <= i < inner_outs.len() implies S::advances(
            mapped[i],
            mapped[i + 1],
            #[trigger] inner_outs[i],
        ) by {
            if i < n - 1 {
                assert(S::advances(sub_mapped[i], sub_mapped[i + 1], sub_inner_outs[i]));
                assert(sub_mapped[i] == mapped[i]);
                assert(sub_mapped[i + 1] == mapped[i + 1]);
            } else {
                assert(mapped[n - 1] == states[n - 1].inner());
                assert(mapped[n] == states[n].inner());
            }
        }
        assert(run(mapped, inner_outs));
        assert forall|i: int| 0 <= i < outs.len() implies boxes_output(
            #[trigger] inner_outs[i],
            outs[i],
        ) by {
            if i < n - 1 {
                assert(boxes_output(sub_inner_outs[i], sub_outs[i]));
                assert(sub_outs[i] == outs[i]);
            } else {
                assert(boxes_output(last_inner, outs[n - 1]));
            }
        }
    }
}

/// Boxing, end to end: run the boxing adapter attached to a source holding
/// items `[r0, r1, ...]`, and its `i`-th output is the `i`-th item boxed —
/// a box holding a value equal to `ri`'s success payload, `ri`'s failure
/// payload itself for a failure — and exhaustion from the end of the items
/// on.
pub proof fn lemma_box_ok_vec_source_run<T, E>(
    states: Seq<BoxOkIter<VecSource<T, E>, T, E>>,
    outs: Seq<Option<Result<Box<T>, E>>>,
)
    requires
        run(states, outs),
    ensures
        forall|i: int|
            0 <= i < outs.len() ==> boxes_output(
                if i < states[0].inner().items().len() {
                    Some(states[0].inner().items()[i])
                } else {
                    None::<Result<T, E>>
                },
                #[trigger] outs[i],
            ),
{
    lemma_box_ok_run(states, outs);
    let inner_outs = choose|inner_outs: Seq<Option<Result<T, E>>>|
        #![trigger run(inner_states(states), inner_outs)]
        {
            &&& inner_outs.len() == outs.len()
            &&& run(inner_states(states), inner_outs)
            &&& forall|i: int|
                0 <= i < outs.len() ==> boxes_output(#[trigger] inner_outs[i], outs[i])
        };
    lemma_vec_source_run(inner_states(states), inner_outs);
    assert(inner_states(states)[0] == states[0].inner());
    assert forall|i: int|
        0 <= i < outs.len() implies boxes_output(
        if i < states[0].inner().items().len() {
            Some(states[0].inner().items()[i])
        } else {
            None::<Result<T, E>>
        },
        #[trigger] outs[i],
    ) by {
        assert(boxes_output(inner_outs[i], outs[i]));
        assert(inner_outs[i] == (if i < inner_states(states)[0].items().len() {
            Some(inner_states(states)[0].items()[i])
        } else {
            None::<Result<T, E>>
        }));
    }
}

/// Boxing is mapping: whenever the transform of a mapping adapter provably
/// moves its argument into a box holding an equal value — as [`box_value`]
/// does — every item that adapter may hand out is one the boxing adapter may
/// hand out for the same inner item.
pub proof fn lemma_boxing_is_mapping<T, E, F: Fn(T) -> Box<T>>(
    f: F,
    item: Result<T, E>,
    out: Result<Box<T>, E>,
)
    requires
        forall|v: T, b: Box<T>| call_ensures(f, (v,), b) ==> *b == v,
    ensures
        maps_item(f, item, out) ==> boxes_item(item, out),
{
}

/// Move a value into freshly allocated, exclusively owned heap storage.
pub fn box_value<T>(value: T) -> (boxed: Box<T>)
    ensures
        *boxed == value,
{
    Box::new(value)
}

} // verus!
