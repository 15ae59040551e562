//! The result-mapping adapter.
//!
//! [`MapOk::map_ok`] attaches [`MapOkIter`] to any [`ResultIterator`]: a lazy
//! adapter that, on each pull, pulls exactly one item from its inner source,
//! applies the supplied transform to a success payload, and relays a failure
//! payload untouched.  Attaching pulls nothing; the transform is only ever
//! invoked on success payloads.

use crate::source::lemma_vec_source_run;
use crate::source::run;
use crate::source::ResultIterator;
use crate::source::VecSource;
use std::marker::PhantomData;
use vstd::prelude::*;

verus! {

/// How one item of the inner source relates to the item handed out for it:
/// a success payload `v` becomes a success payload the transform may return
/// for `v`, and a failure payload is handed out unchanged.
pub open spec fn maps_item<T, E, U, F: Fn(T) -> U>(
    f: F,
    item: Result<T, E>,
    out: Result<U, E>,
) -> bool {
    match item {
        Ok(v) => out matches Ok(u) && call_ensures(f, (v,), u),
        Err(e) => out == Err::<U, E>(e),
    }
}

/// `maps_item` lifted to what a single pull hands out: exhaustion is relayed
/// as exhaustion, an item as a mapped item.
pub open spec fn maps_output<T, E, U, F: Fn(T) -> U>(
    f: F,
    produced: Option<Result<T, E>>,
    out: Option<Result<U, E>>,
) -> bool {
    match produced {
        Some(item) => out matches Some(o) && maps_item(f, item, o),
        None => out is None,
    }
}

/// The adapter returned by [`MapOk::map_ok`]: wraps an inner source of
/// `Result<T, E>` items and a transform of the success payloads.
pub struct MapOkIter<S, T, E, U, F> {
    iter: S,
    f: F,
    _phantom: PhantomData<(T, E, U)>,
}

impl<S, T, E, U, F> MapOkIter<S, T, E, U, F> where
    S: ResultIterator<T, E>,
    F: Fn(T) -> U,
 {
    /// The inner source, in its current state.
    pub closed spec fn inner(&self) -> S {
        self.iter
    }

    /// The transform applied to success payloads.
    pub closed spec fn func(&self) -> F {
        self.f
    }

    /// Attach the adapter: wrap `iter` so that every success payload is
    /// transformed by `f` and every failure payload is relayed unchanged.
    /// Attaching is lazy: the adapter holds the source, in the very state it
    /// had, and the supplied transform; nothing has been pulled.
    pub fn new(iter: S, f: F) -> (r: Self)
        ensures
            r.inner() == iter,
            r.func() == f,
    {
        MapOkIter { iter, f, _phantom: PhantomData }
    }

    /// The inner source is well-formed and the transform is total, as a
    /// transform of success payloads must be.
    pub open spec fn wf(&self) -> bool {
        &&& self.inner().wf()
        &&& forall|v: T| #[trigger] call_requires(self.func(), (v,))
    }

    /// The adapter is exhausted exactly when its inner source is.
    pub open spec fn exhausted(&self) -> bool {
        self.inner().exhausted()
    }

    /// One pull of the adapter is one pull of the inner source, whose
    /// outcome is handed out mapped; the transform itself is kept.
    pub open spec fn advances(pre: Self, post: Self, produced: Option<Result<U, E>>) -> bool {
        &&& post.func() == pre.func()
        &&& exists|inner_produced: Option<Result<T, E>>|
            #![trigger S::advances(pre.inner(), post.inner(), inner_produced)]
            {
                &&& S::advances(pre.inner(), post.inner(), inner_produced)
                &&& maps_output(pre.func(), inner_produced, produced)
            }
    }

    /// Pull the next item, or learn that the adapter is exhausted: one pull
    /// of the inner source; a success payload `v` is handed out as a success
    /// payload the transform may return for `v`, a failure payload is handed
    /// out unchanged, and exhaustion is relayed as exhaustion.
    pub fn next(&mut self) -> (produced: Option<Result<U, E>>)
        requires
            old(self).wf(),
        ensures
            Self::advances(*old(self), *final(self), produced),
            final(self).wf(),
    {
        let inner_produced = self.iter.next();
        let ghost inner_snapshot = inner_produced;
        match inner_produced {
            Some(Ok(value)) => {
                let ghost payload = value;
                proof {
                    assert(call_requires(old(self).func(), (payload,)));
                }
                let mapped = (self.f)(value);
                proof {
                    assert(S::advances(old(self).inner(), self.inner(), inner_snapshot));
                    assert(maps_output(old(self).func(), inner_snapshot, Some(Ok::<U, E>(mapped))));
                }
                Some(Ok(mapped))
            },
            Some(Err(error)) => {
                let ghost failure = error;
                proof {
                    assert(S::advances(old(self).inner(), self.inner(), inner_snapshot));
                    assert(maps_output(
                        old(self).func(),
                        inner_snapshot,
                        Some(Err::<U, E>(failure)),
                    ));
                }
                Some(Err(error))
            },
            None => {
                proof {
                    assert(S::advances(old(self).inner(), self.inner(), inner_snapshot));
                    assert(maps_output(old(self).func(), inner_snapshot, None::<Result<U, E>>));
                }
                None
            },
        }
    }
}

/// The adapter is itself a source, so adapters chain; each specification
/// function forwards to the inherent one of the same name, which is the
/// primary statement and needs no trait import to use.
impl<S, T, E, U, F> ResultIterator<U, E> for MapOkIter<S, T, E, U, F> where
    S: ResultIterator<T, E>,
    F: Fn(T) -> U,
 {
    open spec fn wf(&self) -> bool {
        MapOkIter::wf(self)
    }

    open spec fn exhausted(&self) -> bool {
        MapOkIter::exhausted(self)
    }

    open spec fn advances(pre: Self, post: Self, produced: Option<Result<U, E>>) -> bool {
        MapOkIter::advances(pre, post, produced)
    }

    proof fn advances_from_exhausted(pre: Self, post: Self, produced: Option<Result<U, E>>) {
        let inner_produced = choose|inner_produced: Option<Result<T, E>>|
            #![trigger S::advances(pre.inner(), post.inner(), inner_produced)]
            {
                &&& S::advances(pre.inner(), post.inner(), inner_produced)
                &&& maps_output(pre.func(), inner_produced, produced)
            };
        S::advances_from_exhausted(pre.inner(), post.inner(), inner_produced);
    }

    fn next(&mut self) -> (produced: Option<Result<U, E>>) {
        MapOkIter::next(self)
    }
}

/// Attaching the result-mapping adapter to a source of `Result` items.
pub trait MapOk<T, E, F, U>: Sized where F: Fn(T) -> U {
    type Iter: ResultIterator<U, E>;

    /// What `map_ok` returns: stated by each implementation.
    spec fn map_ok_spec(self, f: F, r: Self::Iter) -> bool;

    /// Attach the adapter: wrap this source so that every success payload is
    /// transformed by `f` and every failure payload is relayed unchanged.
    fn map_ok(self, f: F) -> (r: Self::Iter)
        ensures
            self.map_ok_spec(f, r),
    ;
}

impl<S, T, E, U, F> MapOk<T, E, F, U> for S where S: ResultIterator<T, E>, F: Fn(T) -> U {
    type Iter = MapOkIter<S, T, E, U, F>;

    /// Attaching is lazy: the adapter holds this source, in the very state
    /// it had, and the supplied transform; nothing has been pulled.
    open spec fn map_ok_spec(self, f: F, r: Self::Iter) -> bool {
        &&& r.inner() == self
        &&& r.func() == f
    }

    fn map_ok(self, f: F) -> (r: Self::Iter) {
        MapOkIter::new(self, f)
    }
}

/// The states of the inner source along a run of the adapter.
pub open spec fn inner_states<S, T, E, U, F>(states: Seq<MapOkIter<S, T, E, U, F>>) -> Seq<S> where
    S: ResultIterator<T, E>,
    F: Fn(T) -> U,
 {
    states.map_values(|s: MapOkIter<S, T, E, U, F>| s.inner())
}

/// Order preservation over a whole run: a run of the adapter is, pull for
/// pull, a run of its inner source, and the `i`-th output of the adapter is
/// the `i`-th inner output mapped — same order, one inner pull per pull,
/// nothing reordered, dropped, merged or duplicated — under the transform
/// attached at the start, which every pull keeps.
pub proof fn lemma_map_ok_run<S, T, E, U, F>(
    states: Seq<MapOkIter<S, T, E, U, F>>,
    outs: Seq<Option<Result<U, E>>>,
) where S: ResultIterator<T, E>, F: Fn(T) -> U
    requires
        run(states, outs),
    ensures
        forall|i: int|
            0 <= i < states.len() ==> (#[trigger] states[i].func()) == states[0].func(),
        exists|inner_outs: Seq<Option<Result<T, E>>>|
            #![trigger run(inner_states(states), inner_outs)]
            {
                &&& inner_outs.len() == outs.len()
                &&& run(inner_states(states), inner_outs)
                &&& forall|i: int|
                    0 <= i < outs.len() ==> maps_output(
                        states[0].func(),
                        #[trigger] inner_outs[i],
                        outs[i],
                    )
            },
    decreases outs.len(),
{
    let mapped = inner_states(states);
    if outs.len() == 0 {
        let inner_outs = Seq::<Option<Result<T, E>>>::empty();
        assert(run(mapped, inner_outs));
    } else {
        let n = outs.len() as int;
        let sub_states = states.drop_last();
        let sub_outs = outs.drop_last();
        assert forall|i: int| 0 <= i < sub_outs.len() implies MapOkIter::advances(
            sub_states[i],
            sub_states[i + 1],
            #[trigger] sub_outs[i],
        ) by {
            assert(MapOkIter::advances(states[i], states[i + 1], outs[i]));
        }
        lemma_map_ok_run(sub_states, sub_outs);
        assert(MapOkIter::advances(states[n - 1], states[n], outs[n - 1]));
        assert forall|i: int|
            0 <= i < states.len() implies (#[trigger] states[i].func()) == states[0].func() by {
            assert(sub_states[0] == states[0]);
            if i < n {
                assert(sub_states[i] == states[i]);
                assert(sub_states[i].func() == sub_states[0].func());
            } else {
                assert(sub_states[n - 1] == states[n - 1]);
                assert(sub_states[n - 1].func() == sub_states[0].func());
                assert(MapOkIter::advances(states[n - 1], states[n], outs[n - 1]));
                assert(states[n].func() == states[n - 1].func());
            }
        }
        let sub_mapped = inner_states(sub_states);
        let sub_inner_outs = choose|inner_outs: Seq<Option<Result<T, E>>>|
            #![trigger run(sub_mapped, inner_outs)]
            {
                &&& inner_outs.len() == sub_outs.len()
                &&& run(sub_mapped, inner_outs)
                &&& forall|i: int|
                    0 <= i < sub_outs.len() ==> maps_output(
                        sub_states[0].func(),
                        #[trigger] inner_outs[i],
                        sub_outs[i],
                    )
            };
        let last_inner = choose|inner_produced: Option<Result<T, E>>|
            #![trigger S::advances(states[n - 1].inner(), states[n].inner(), inner_produced)]
            {
                &&& S::advances(states[n - 1].inner(), states[n].inner(), inner_produced)
                &&& maps_output(states[n - 1].func(), inner_produced, outs[n - 1])
            };
        let inner_outs = sub_inner_outs.push(last_inner);
        assert forall|i: int| 0 <= i < inner_outs.len() implies S::advances(
            mapped[i],
            mapped[i + 1],
            #[trigger] inner_outs[i],
        ) by {
            if i < n - 1 {
                assert(S::advances(sub_mapped[i], sub_mapped[i + 1], sub_inner_outs[i]));
                assert(sub_mapped[i] == mapped[i]);
                assert(sub_mapped[i + 1] == mapped[i + 1]);
            } else {
                assert(mapped[n - 1] == states[n - 1].inner());
                assert(mapped[n] == states[n].inner());
            }
        }
        assert(run(mapped, inner_outs));
        assert forall|i: int| 0 <= i < outs.len() implies maps_output(
            states[0].func(),
            #[trigger] inner_outs[i],
            outs[i],
        ) by {
            if i < n - 1 {
                assert(maps_output(sub_states[0].func(), sub_inner_outs[i], sub_outs[i]));
                assert(sub_outs[i] == outs[i]);
            } else {
                assert(maps_output(states[n - 1].func(), last_inner, outs[n - 1]));
                assert(states[n - 1].func() == states[0].func());
            }
        }
    }
}

/// Order preservation, end to end: run the mapping adapter attached to a
/// source holding items `[r0, r1, ...]`, and its `i`-th output is the
/// `i`-th item mapped — a success the transform may return for `ri`'s
/// success payload, `ri`'s failure payload itself for a failure — and
/// exhaustion from the end of the items on.
pub proof fn lemma_map_ok_vec_source_run<T, E, U, F>(
    states: Seq<MapOkIter<VecSource<T, E>, T, E, U, F>>,
    outs: Seq<Option<Result<U, E>>>,
) where F: Fn(T) -> U
    requires
        run(states, outs),
    ensures
        forall|i: int|
            0 <= i < outs.len() ==> maps_output(
                states[0].func(),
                if i < states[0].inner().items().len() {
                    Some(states[0].inner().items()[i])
                } else {
                    None::<Result<T, E>>
                },
                #[trigger] outs[i],
            ),
{
    lemma_map_ok_run(states, outs);
    let inner_outs = choose|inner_outs: Seq<Option<Result<T, E>>>|
        #![trigger run(inner_states(states), inner_outs)]
        {
            &&& inner_outs.len() == outs.len()
            &&& run(inner_states(states), inner_outs)
            &&& forall|i: int|
                0 <= i < outs.len() ==> maps_output(
                    states[0].func(),
                    #[trigger] inner_outs[i],
                    outs[i],
                )
        };
    lemma_vec_source_run(inner_states(states), inner_outs);
    assert(inner_states(states)[0] == states[0].inner());
    assert forall|i: int|
        0 <= i < outs.len() implies maps_output(
        states[0].func(),
        if i < states[0].inner().items().len() {
            Some(states[0].inner().items()[i])
        } else {
            None::<Result<T, E>>
        },
        #[trigger] outs[i],
    ) by {
        assert(maps_output(states[0].func(), inner_outs[i], outs[i]));
        assert(inner_outs[i] == (if i < inner_states(states)[0].items().len() {
            Some(inner_states(states)[0].items()[i])
        } else {
            None::<Result<T, E>>
        }));
    }
}

/// How one item relates to an output across two chained mapping adapters,
/// an inner one transforming with `f` and an outer one with `g`: exactly the
/// relation of a single mapping adapter whose transform is `g` after `f`.
pub open spec fn maps_item_composed<T, E, M, U, F: Fn(T) -> M, G: Fn(M) -> U>(
    f: F,
    g: G,
    item: Result<T, E>,
    out: Result<U, E>,
) -> bool {
    match item {
        Ok(v) => out matches Ok(u) && (exists|m: M|
            #![trigger call_ensures(f, (v,), m)]
            {
                &&& call_ensures(f, (v,), m)
                &&& call_ensures(g, (m,), u)
            }),
        Err(e) => out == Err::<U, E>(e),
    }
}

/// Composability: an item passes through a chain of two mapping adapters —
/// one applying `f`, then one applying `g` to its output — exactly when a
/// single mapping adapter with the composed transform could relate the item
/// to the final output.  Failure payloads are relayed by both sides alike.
pub proof fn lemma_map_ok_compose<T, E, M, U, F: Fn(T) -> M, G: Fn(M) -> U>(
    f: F,
    g: G,
    item: Result<T, E>,
    out: Result<U, E>,
)
    ensures
        (exists|mid: Result<M, E>|
            #![trigger maps_item(f, item, mid)]
            {
                &&& maps_item(f, item, mid)
                &&& maps_item(g, mid, out)
            }) <==> maps_item_composed(f, g, item, out),
{
    if exists|mid: Result<M, E>|
        #![trigger maps_item(f, item, mid)]
        {
            &&& maps_item(f, item, mid)
            &&& maps_item(g, mid, out)
        } {
        let mid = choose|mid: Result<M, E>|
            #![trigger maps_item(f, item, mid)]
            {
                &&& maps_item(f, item, mid)
                &&& maps_item(g, mid, out)
            };
        if item is Ok {
            assert(call_ensures(f, (item->Ok_0,), mid->Ok_0));
            assert(call_ensures(g, (mid->Ok_0,), out->Ok_0));
        }
        assert(maps_item_composed(f, g, item, out));
    }
    if maps_item_composed(f, g, item, out) {
        match item {
            Ok(v) => {
                let m = choose|m: M|
                    #![trigger call_ensures(f, (v,), m)]
                    {
                        &&& call_ensures(f, (v,), m)
                        &&& call_ensures(g, (m,), out->Ok_0)
                    };
                assert(maps_item(f, item, Ok::<M, E>(m)));
                assert(maps_item(g, Ok::<M, E>(m), out));
            },
            Err(e) => {
                assert(maps_item(f, item, Err::<M, E>(e)));
                assert(maps_item(g, Err::<M, E>(e), out));
            },
        }
    }
}

} // verus!
