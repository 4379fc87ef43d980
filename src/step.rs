use vstd::prelude::*;
use crate::invokes::InvokeOnce;
use crate::invokes::InvokeMut;
use vstd::std_specs::iter::IteratorSpec;
use vstd::seq_lib::lemma_flatten_concat;

verus! {

/// One step of the mapping adapter: pulls one source item and transforms it.
pub(crate) fn map_step<I, F>(source: &mut I, f: &mut F) -> (r: Option<F::Output>) where
    I: Iterator,
    F: InvokeMut<(I::Item,)>,

    requires
        (*old(source)).obeys_prophetic_iter_laws(),
        (*old(source)).decrease() is Some,
        forall|x: I::Item| #[trigger] (*old(f)).invoke_requires((x,)),
    ensures
        (*final(source)).obeys_prophetic_iter_laws(),
        (*final(source)).decrease() is Some,
        *final(f) == *old(f),
        (*old(source)).remaining().len() == 0 ==> {
            &&& r is None
            &&& (*final(source)).remaining().len() == 0
        },
        (*old(source)).remaining().len() > 0 ==> {
            &&& r is Some
            &&& (*old(f)).invoke_ensures(((*old(source)).remaining()[0],), r->0)
            &&& (*final(source)).remaining() == (*old(source)).remaining().drop_first()
            &&& (*final(source)).decrease()->0 < (*old(source)).decrease()->0
        },
{
    match source.next() {
        Some(x) => Some(f.invoke_mut((x,))),
        None => None,
    }
}

/// One step of the flattening state machine: drains the held inner cursor,
/// then pulls source items until one of them maps to a non-empty sequence.
pub(crate) fn flat_map_step<I, F>(
    source: &mut I,
    front: &mut Option<F::Output>,
    f: &mut F,
) -> (r: Option<<F::Output as Iterator>::Item>) where
    I: Iterator,
    F: InvokeMut<(I::Item,)>,
    F::Output: Iterator,

    requires
        (*old(source)).obeys_prophetic_iter_laws(),
        (*old(source)).decrease() is Some,
        forall|x: I::Item| #[trigger] (*old(f)).invoke_requires((x,)),
        forall|x: I::Item, it: F::Output|
            #[trigger] (*old(f)).invoke_ensures((x,), it) ==> it.obeys_prophetic_iter_laws() && it.decrease() is Some,
        (*old(front)) matches Some(o) ==> o.obeys_prophetic_iter_laws() && o.decrease() is Some,
    ensures
        (*final(source)).obeys_prophetic_iter_laws(),
        (*final(source)).decrease() is Some,
        *final(f) == *old(f),
        (*final(front)) matches Some(o) ==> o.obeys_prophetic_iter_laws() && o.decrease() is Some,
        (*old(front)) is Some && (*old(front))->0.remaining().len() > 0 ==> {
            &&& r == Some((*old(front))->0.remaining()[0])
            &&& (*final(source)) == (*old(source))
            &&& (*final(front)) is Some
            &&& (*final(front))->0.remaining() == (*old(front))->0.remaining().drop_first()
            &&& (*final(front))->0.decrease()->0 < (*old(front))->0.decrease()->0
        },
        (*old(front)) is None || (*old(front))->0.remaining().len() == 0 ==> exists|its: Seq<F::Output>| #![trigger its.len()] {
            &&& its.len() <= (*old(source)).remaining().len()
            &&& forall|j: int| 0 <= j < its.len() ==> (*old(f)).invoke_ensures(((*old(source)).remaining()[j],), #[trigger] its[j])
            &&& forall|j: int| 0 <= j < its.len() - 1 ==> (#[trigger] its[j]).remaining().len() == 0
            &&& match r {
                Some(y) => {
                    &&& its.len() > 0
                    &&& its.last().remaining().len() > 0
                    &&& y == its.last().remaining()[0]
                    &&& (*final(source)).remaining() == (*old(source)).remaining().skip(its.len() as int)
                    &&& (*final(front)) is Some
                    &&& (*final(front))->0.remaining() == its.last().remaining().drop_first()
                    &&& (*final(source)).decrease()->0 < (*old(source)).decrease()->0
                },
                None => {
                    &&& its.len() == (*old(source)).remaining().len()
                    &&& its.len() > 0 ==> its.last().remaining().len() == 0
                    &&& (*final(source)).remaining().len() == 0
                    &&& (*final(front)) is None
                },
            }
        },
{
    if let Some(mut held) = front.take() {
        let result = held.next();
        if result.is_some() {
            *front = Some(held);
            return result;
        }
    }
    let ghost src0 = (*source).remaining();
    let ghost its: Seq<F::Output> = Seq::empty();
    loop
        invariant
            (*source).obeys_prophetic_iter_laws(),
            (*source).decrease() is Some,
            *f == *old(f),
            forall|x: I::Item| #[trigger] f.invoke_requires((x,)),
            forall|x: I::Item, it: F::Output|
                #[trigger] f.invoke_ensures((x,), it) ==> it.obeys_prophetic_iter_laws() && it.decrease() is Some,
            (*source).decrease()->0 <= (*old(source)).decrease()->0,
            its.len() > 0 ==> (*source).decrease()->0 < (*old(source)).decrease()->0,
            (*old(front)) is None || (*old(front))->0.remaining().len() == 0,
            src0 == (*old(source)).remaining(),
            its.len() <= src0.len(),
            (*source).remaining() == src0.skip(its.len() as int),
            forall|j: int| 0 <= j < its.len() ==> f.invoke_ensures((src0[j],), #[trigger] its[j]),
            forall|j: int| 0 <= j < its.len() ==> (#[trigger] its[j]).remaining().len() == 0,
        decreases (*source).decrease()->0,
    {
        match source.next() {
            Some(item) => {
                let ghost n = its.len() as int;
                assert(src0.skip(n)[0] == src0[n]);
                let mut inner = f.invoke_mut((item,));
                let ghost it0 = inner;
                let result = inner.next();
                if result.is_some() {
                    *front = Some(inner);
                    proof {
                        let w = its.push(it0);
                        assert(src0.skip(n).drop_first() =~= src0.skip(n + 1));
                        assert(forall|j: int| 0 <= j < w.len() ==> (*old(f)).invoke_ensures(((*old(source)).remaining()[j],), #[trigger] w[j]));
                        assert(forall|j: int| 0 <= j < w.len() - 1 ==> (#[trigger] w[j]).remaining().len() == 0);
                        assert((*source).remaining() == (*old(source)).remaining().skip(w.len() as int));
                    }
                    return result;
                }
                proof {
                    its = its.push(it0);
                    assert(src0.skip(n).drop_first() =~= src0.skip(n + 1));
                }
            },
            None => {
                *front = None;
                return None;
            },
        }
    }
}

/// Drains the mapping adapter: every remaining source item, transformed, in
/// order.
pub(crate) fn map_collect<I, F>(source: &mut I, f: &mut F) -> (r: Vec<F::Output>) where
    I: Iterator,
    F: InvokeMut<(I::Item,)>,

    requires
        (*old(source)).obeys_prophetic_iter_laws(),
        (*old(source)).decrease() is Some,
        forall|x: I::Item| #[trigger] (*old(f)).invoke_requires((x,)),
    ensures
        (*final(source)).obeys_prophetic_iter_laws(),
        (*final(source)).decrease() is Some,
        (*final(source)).remaining().len() == 0,
        *final(f) == *old(f),
        r.len() == (*old(source)).remaining().len(),
        forall|i: int| 0 <= i < r.len() ==> (*old(f)).invoke_ensures(((*old(source)).remaining()[i],), #[trigger] r[i]),
{
    let ghost src0 = (*source).remaining();
    let mut r: Vec<F::Output> = Vec::new();
    loop
        invariant
            (*source).obeys_prophetic_iter_laws(),
            (*source).decrease() is Some,
            *f == *old(f),
            forall|x: I::Item| #[trigger] f.invoke_requires((x,)),
            src0 == (*old(source)).remaining(),
            r.len() <= src0.len(),
            (*source).remaining() == src0.skip(r.len() as int),
            forall|i: int| 0 <= i < r.len() ==> f.invoke_ensures((src0[i],), #[trigger] r[i]),
        decreases (*source).decrease()->0,
    {
        let ghost n = r.len() as int;
        match map_step(source, f) {
            Some(y) => {
                proof {
                    assert(src0.skip(n)[0] == src0[n]);
                    assert(src0.skip(n).drop_first() =~= src0.skip(n + 1));
                }
                r.push(y);
            },
            None => {
                return r;
            },
        }
    }
}

/// The flattening of sequences that are all empty is empty.
proof fn lemma_flatten_of_empties<T>(parts: Seq<Seq<T>>)
    requires
        forall|j: int| 0 <= j < parts.len() ==> (#[trigger] parts[j]).len() == 0,
    ensures
        parts.flatten() == Seq::<T>::empty(),
    decreases parts.len(),
{
    if parts.len() > 0 {
        lemma_flatten_of_empties(parts.drop_first());
        assert(parts.flatten() == parts.first() + parts.drop_first().flatten());
        assert(parts.flatten() =~= Seq::<T>::empty());
    }
}

/// Drains the flattening adapter: the rest of the held inner sequence, then
/// each remaining source item's sequence, in order.
pub(crate) fn flat_map_collect<I, F>(
    source: &mut I,
    front: &mut Option<F::Output>,
    f: &mut F,
) -> (r: Vec<<F::Output as Iterator>::Item>) where
    I: Iterator,
    F: InvokeMut<(I::Item,)>,
    F::Output: Iterator,

    requires
        (*old(source)).obeys_prophetic_iter_laws(),
        (*old(source)).decrease() is Some,
        forall|x: I::Item| #[trigger] (*old(f)).invoke_requires((x,)),
        forall|x: I::Item, it: F::Output|
            #[trigger] (*old(f)).invoke_ensures((x,), it) ==> it.obeys_prophetic_iter_laws() && it.decrease() is Some,
        (*old(front)) matches Some(o) ==> o.obeys_prophetic_iter_laws() && o.decrease() is Some,
    ensures
        (*final(source)).obeys_prophetic_iter_laws(),
        (*final(source)).decrease() is Some,
        (*final(source)).remaining().len() == 0,
        *final(f) == *old(f),
        (*final(front)) is None,
        exists|its: Seq<F::Output>, parts: Seq<Seq<<F::Output as Iterator>::Item>>| #![trigger its.len(), parts.len()] {
            &&& its.len() == (*old(source)).remaining().len()
            &&& parts.len() == its.len()
            &&& forall|j: int| 0 <= j < its.len() ==> (*old(f)).invoke_ensures(((*old(source)).remaining()[j],), #[trigger] its[j])
            &&& forall|j: int| 0 <= j < its.len() ==> (#[trigger] its[j]).remaining() == parts[j]
            &&& r@ == (match *old(front) { Some(o) => o.remaining(), None => Seq::empty() }) + parts.flatten()
        },
{
    let ghost src0 = (*source).remaining();
    let ghost front0 = if (*front) is Some { (*front)->0.remaining() } else { Seq::empty() };
    // these record what the transformation returned; their values are
    // known only as the sequences are drained
    let ghost its_all: Seq<F::Output> = src0.take(0).map_values(|x: I::Item| arbitrary());
    let ghost parts_all: Seq<Seq<<F::Output as Iterator>::Item>> = src0.take(0).map_values(|x: I::Item| Seq::empty());
    let mut r: Vec<<F::Output as Iterator>::Item> = Vec::new();
    loop
        invariant
            (*source).obeys_prophetic_iter_laws(),
            (*source).decrease() is Some,
            *f == *old(f),
            forall|x: I::Item| #[trigger] f.invoke_requires((x,)),
            forall|x: I::Item, it: F::Output|
                #[trigger] f.invoke_ensures((x,), it) ==> it.obeys_prophetic_iter_laws() && it.decrease() is Some,
            (*front) matches Some(o) ==> o.obeys_prophetic_iter_laws() && o.decrease() is Some,
            src0 == (*old(source)).remaining(),
            front0 == (match *old(front) { Some(o) => o.remaining(), None => Seq::empty() }),
            its_all.len() == parts_all.len(),
            its_all.len() <= src0.len(),
            (*source).remaining() == src0.skip(its_all.len() as int),
            forall|j: int| 0 <= j < its_all.len() ==> f.invoke_ensures((src0[j],), #[trigger] its_all[j]),
            forall|j: int| 0 <= j < its_all.len() ==> (#[trigger] its_all[j]).remaining() == parts_all[j],
            r@ + (match *front { Some(o) => o.remaining(), None => Seq::empty() }) == front0 + parts_all.flatten(),
        decreases
            (*source).decrease()->0,
            (match *front { Some(o) => o.decrease()->0, None => 0 }),
    {
        let ghost before = *front;
        let ghost src_before = (*source).remaining();
        let ghost k = its_all.len() as int;
        let ghost dec_before = (*source).decrease()->0;
        let ghost cur = if (*front) is Some { (*front)->0.remaining() } else { Seq::empty() };
        match flat_map_step(source, front, f) {
            Some(y) => {
                proof {
                    if (*source).decrease()->0 == dec_before {
                        assert(cur.len() > 0);
                        assert(r@.push(y) + cur.drop_first() =~= r@ + cur);
                    } else {
                        let its = choose|its: Seq<F::Output>| #![trigger its.len()] {
                            &&& its.len() <= src_before.len()
                            &&& forall|j: int| 0 <= j < its.len() ==> (*old(f)).invoke_ensures((src_before[j],), #[trigger] its[j])
                            &&& forall|j: int| 0 <= j < its.len() - 1 ==> (#[trigger] its[j]).remaining().len() == 0
                            &&& its.len() > 0
                            &&& its.last().remaining().len() > 0
                            &&& y == its.last().remaining()[0]
                            &&& (*source).remaining() == src_before.skip(its.len() as int)
                            &&& (*front) is Some
                            &&& (*front)->0.remaining() == its.last().remaining().drop_first()
                        };
                        let m = its.len() as int;
                        let parts = Seq::new(its.len(), |j: int| its[j].remaining());
                        assert(parts.drop_last().flatten() == Seq::<<F::Output as Iterator>::Item>::empty()) by {
                            lemma_flatten_of_empties(parts.drop_last());
                        }
                        assert(parts == parts.drop_last().push(parts.last()));
                        assert(parts.flatten() == its.last().remaining()) by {
                            parts.drop_last().lemma_flatten_push(parts.last());
                        }
                        lemma_flatten_concat(parts_all, parts);
                        assert forall|j: int| 0 <= j < m implies src_before[j] == src0[k + j] by {
                            assert(src_before == src0.skip(k));
                        }
                        assert(src0.skip(k).skip(m) =~= src0.skip(k + m));
                        let its_new = its_all + its;
                        let parts_new = parts_all + parts;
                        assert forall|j: int| 0 <= j < its_new.len() implies f.invoke_ensures((src0[j],), #[trigger] its_new[j]) by {
                            if j >= k {
                                assert(its_new[j] == its[j - k]);
                            }
                        }
                        assert forall|j: int| 0 <= j < its_new.len() implies (#[trigger] its_new[j]).remaining() == parts_new[j] by {
                            if j >= k {
                                assert(its_new[j] == its[j - k]);
                                assert(parts_new[j] == parts[j - k]);
                            }
                        }
                        assert(r@.push(y) + its.last().remaining().drop_first() =~= r@ + its.last().remaining());
                        assert(cur =~= Seq::<<F::Output as Iterator>::Item>::empty());
                        assert(r@ + cur =~= r@);
                        its_all = its_new;
                        parts_all = parts_new;
                    }
                }
                r.push(y);
            },
            None => {
                proof {
                    let its = choose|its: Seq<F::Output>| #![trigger its.len()] {
                        &&& its.len() <= src_before.len()
                        &&& forall|j: int| 0 <= j < its.len() ==> (*old(f)).invoke_ensures((src_before[j],), #[trigger] its[j])
                        &&& forall|j: int| 0 <= j < its.len() - 1 ==> (#[trigger] its[j]).remaining().len() == 0
                        &&& its.len() == src_before.len()
                        &&& its.len() > 0 ==> its.last().remaining().len() == 0
                        &&& (*source).remaining().len() == 0
                        &&& (*front) is None
                    };
                    let m = its.len() as int;
                    let parts = Seq::new(its.len(), |j: int| its[j].remaining());
                    assert forall|j: int| 0 <= j < parts.len() implies (#[trigger] parts[j]).len() == 0 by {
                        if j == m - 1 {
                            assert(its[j] == its.last());
                        }
                    }
                    lemma_flatten_of_empties(parts);
                    lemma_flatten_concat(parts_all, parts);
                    assert forall|j: int| 0 <= j < m implies src_before[j] == src0[k + j] by {
                        assert(src_before == src0.skip(k));
                    }
                    let its_new = its_all + its;
                    let parts_new = parts_all + parts;
                    assert forall|j: int| 0 <= j < its_new.len() implies f.invoke_ensures((src0[j],), #[trigger] its_new[j]) by {
                        if j >= k {
                            assert(its_new[j] == its[j - k]);
                        }
                    }
                    assert forall|j: int| 0 <= j < its_new.len() implies (#[trigger] its_new[j]).remaining() == parts_new[j] by {
                        if j >= k {
                            assert(its_new[j] == its[j - k]);
                            assert(parts_new[j] == parts[j - k]);
                        }
                    }
                    assert(parts_all.flatten() + parts.flatten() =~= parts_all.flatten());
                    assert(r@ + cur =~= r@);
                    assert(its_new.len() == src0.len());
                }
                return r;
            },
        }
    }
}

} // verus!
