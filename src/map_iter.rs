use vstd::prelude::*;
use crate::invokes::InvokeOnce;
use crate::invokes::InvokeMut;
use crate::invokes::Invoke;
use crate::step::map_step;
use crate::step::flat_map_step;
use crate::step::map_collect;
use crate::step::flat_map_collect;
use vstd::std_specs::iter::IteratorSpec;

verus! {

/// Copies a string slice into an owned `String`.
pub struct ToStringMapper;

impl<'a> InvokeOnce<(&'a str,)> for ToStringMapper {
    type Output = String;

    open spec fn invoke_requires(&self, args: (&'a str,)) -> bool {
        true
    }

    open spec fn invoke_ensures(&self, args: (&'a str,), output: String) -> bool {
        output@ == args.0@
    }

    fn invoke_once(self, args: (&'a str,)) -> (output: String) {
        args.0.to_owned()
    }
}

impl<'a> InvokeMut<(&'a str,)> for ToStringMapper {
    fn invoke_mut(&mut self, args: (&'a str,)) -> (output: String) {
        args.0.to_owned()
    }
}

impl<'a> Invoke<(&'a str,)> for ToStringMapper {
    fn invoke(&self, args: (&'a str,)) -> (output: String) {
        args.0.to_owned()
    }
}

/// Lazily transforms each item of a source sequence.
pub struct MapIter<I, F> {
    inner: I,
    map: F,
}

impl<I, F> MapIter<I, F> {
    /// The source sequence, positioned at the next item to transform.
    pub closed spec fn source(&self) -> I {
        self.inner
    }

    /// The transformation.
    pub closed spec fn transform(&self) -> F {
        self.map
    }

    pub fn new(inner: I, map: F) -> (r: Self)
        ensures
            r.source() == inner,
            r.transform() == map,
    {
        Self { inner, map }
    }
}

impl<I: Iterator, F: InvokeMut<(I::Item,)>> MapIter<I, F> {
    /// The source ends, and the transformation accepts every item.
    pub open spec fn wf(&self) -> bool {
        &&& self.source().obeys_prophetic_iter_laws()
        &&& self.source().decrease() is Some
        &&& forall|x: I::Item| #[trigger] self.transform().invoke_requires((x,))
    }

    /// Produces the transformation of the next source item, or `None` once
    /// the source is exhausted.
    pub fn next(&mut self) -> (r: Option<F::Output>)
        requires
            old(self).wf(),
        ensures
            final(self).wf(),
            final(self).transform() == old(self).transform(),
            old(self).source().remaining().len() == 0 ==> r is None,
            old(self).source().remaining().len() > 0 ==> {
                &&& r is Some
                &&& old(self).transform().invoke_ensures((old(self).source().remaining()[0],), r->0)
                &&& final(self).source().remaining() == old(self).source().remaining().drop_first()
            },
            r is None ==> final(self).source().remaining().len() == 0,
    {
        let r = map_step(&mut self.inner, &mut self.map);
        assert(self.transform() == old(self).transform());
        r
    }

    /// Drains the adapter: the transformation of every remaining source
    /// item, in source order.
    pub fn collect_vec(&mut self) -> (r: Vec<F::Output>)
        requires
            old(self).wf(),
        ensures
            final(self).wf(),
            final(self).transform() == old(self).transform(),
            final(self).source().remaining().len() == 0,
            r.len() == old(self).source().remaining().len(),
            forall|i: int| 0 <= i < r.len()
                ==> old(self).transform().invoke_ensures((old(self).source().remaining()[i],), #[trigger] r[i]),
    {
        let r = map_collect(&mut self.inner, &mut self.map);
        assert(self.transform() == old(self).transform());
        r
    }
}

/// Lazily transforms each item of a source sequence into a sequence, and
/// yields the items of those sequences, in order.
pub struct FlatMapIter<I, F> where
    I: Iterator,
    F: Invoke<(I::Item,)>,
    F::Output: Iterator,
 {
    inner: I,
    front: Option<F::Output>,
    f: F,
}

impl<I, F> FlatMapIter<I, F> where
    I: Iterator,
    F: Invoke<(I::Item,)>,
    F::Output: Iterator,
 {
    /// The source sequence, positioned at the next item to transform.
    pub closed spec fn source(&self) -> I {
        self.inner
    }

    /// The transformation.
    pub closed spec fn transform(&self) -> F {
        self.f
    }

    /// The inner sequence being drained, if any.
    pub closed spec fn front(&self) -> Option<F::Output> {
        self.front
    }

    pub fn new(inner: I, f: F) -> (r: Self)
        ensures
            r.source() == inner,
            r.transform() == f,
            r.front() is None,
    {
        Self { inner, f, front: None }
    }

    /// The source ends, the transformation accepts every item, and every
    /// inner sequence ends.
    pub open spec fn wf(&self) -> bool {
        &&& self.source().obeys_prophetic_iter_laws()
        &&& self.source().decrease() is Some
        &&& forall|x: I::Item| #[trigger] self.transform().invoke_requires((x,))
        &&& forall|x: I::Item, it: F::Output|
            #[trigger] self.transform().invoke_ensures((x,), it) ==> it.obeys_prophetic_iter_laws() && it.decrease() is Some
        &&& self.front() matches Some(o) ==> o.obeys_prophetic_iter_laws() && o.decrease() is Some
    }

    /// Produces the next item of the held inner sequence; once that is
    /// drained, pulls source items until one transforms into a non-empty
    /// sequence, and yields its first item. `None` only once the source is
    /// exhausted.
    pub fn next(&mut self) -> (r: Option<<F::Output as Iterator>::Item>)
        requires
            old(self).wf(),
        ensures
            final(self).wf(),
            final(self).transform() == old(self).transform(),
            old(self).front() is Some && old(self).front()->0.remaining().len() > 0 ==> {
                &&& r == Some(old(self).front()->0.remaining()[0])
                &&& final(self).source() == old(self).source()
                &&& final(self).front() is Some
                &&& final(self).front()->0.remaining() == old(self).front()->0.remaining().drop_first()
            },
            old(self).front() is None || old(self).front()->0.remaining().len() == 0 ==> exists|its: Seq<F::Output>| #![trigger its.len()] {
                &&& its.len() <= old(self).source().remaining().len()
                &&& forall|j: int| 0 <= j < its.len() ==> old(self).transform().invoke_ensures((old(self).source().remaining()[j],), #[trigger] its[j])
                &&& forall|j: int| 0 <= j < its.len() - 1 ==> (#[trigger] its[j]).remaining().len() == 0
                &&& match r {
                    Some(y) => {
                        &&& its.len() > 0
                        &&& its.last().remaining().len() > 0
                        &&& y == its.last().remaining()[0]
                        &&& final(self).source().remaining() == old(self).source().remaining().skip(its.len() as int)
                        &&& final(self).front() is Some
                        &&& final(self).front()->0.remaining() == its.last().remaining().drop_first()
                    },
                    None => {
                        &&& its.len() == old(self).source().remaining().len()
                        &&& its.len() > 0 ==> its.last().remaining().len() == 0
                        &&& final(self).source().remaining().len() == 0
                        &&& final(self).front() is None
                    },
                }
            },
            r is None ==> final(self).source().remaining().len() == 0 && final(self).front() is None,
            old(self).source().remaining().len() == 0 && old(self).front() is None ==> r is None,
    {
        let r = flat_map_step(&mut self.inner, &mut self.front, &mut self.f);
        assert(self.transform() == old(self).transform());
        r
    }

    /// Drains the adapter: the rest of the held inner sequence, then the
    /// sequence of every remaining source item, concatenated in order.
    pub fn collect_vec(&mut self) -> (r: Vec<<F::Output as Iterator>::Item>)
        requires
            old(self).wf(),
        ensures
            final(self).wf(),
            final(self).transform() == old(self).transform(),
            final(self).source().remaining().len() == 0,
            final(self).front() is None,
            exists|its: Seq<F::Output>, parts: Seq<Seq<<F::Output as Iterator>::Item>>| #![trigger its.len(), parts.len()] {
                &&& its.len() == old(self).source().remaining().len()
                &&& parts.len() == its.len()
                &&& forall|j: int| 0 <= j < its.len()
                    ==> old(self).transform().invoke_ensures((old(self).source().remaining()[j],), #[trigger] its[j])
                &&& forall|j: int| 0 <= j < its.len() ==> (#[trigger] its[j]).remaining() == parts[j]
                &&& r@ == (match old(self).front() { Some(o) => o.remaining(), None => Seq::empty() }) + parts.flatten()
            },
    {
        assert(self.transform() == self.f);
        let r = flat_map_collect(&mut self.inner, &mut self.front, &mut self.f);
        assert(self.transform() == old(self).transform());
        r
    }
}

} // verus!
