use vstd::prelude::*;
use crate::invokes::InvokeOnce;
use crate::invokes::InvokeMut;
use crate::invokes::Invoke;

verus! {

/// Wraps a callable that takes `&A` so that it can be called with `&&A`.
pub struct RefArg<T>(pub T);

impl<T> RefArg<T> {
    pub fn new(inner: T) -> (r: Self)
        ensures
            r.0 == inner,
    {
        RefArg(inner)
    }
}

impl<'a, 'b, A: 'a + ?Sized, T> InvokeOnce<(&'b &'a A,)> for RefArg<T> where T: InvokeOnce<(&'a A,)> {
    type Output = T::Output;

    open spec fn invoke_requires(&self, args: (&'b &'a A,)) -> bool {
        self.0.invoke_requires((*args.0,))
    }

    open spec fn invoke_ensures(&self, args: (&'b &'a A,), output: T::Output) -> bool {
        self.0.invoke_ensures((*args.0,), output)
    }

    fn invoke_once(self, args: (&'b &'a A,)) -> (output: T::Output) {
        self.0.invoke_once((*args.0,))
    }
}

impl<'a, 'b, A: 'a + ?Sized, T> InvokeMut<(&'b &'a A,)> for RefArg<T> where T: InvokeMut<(&'a A,)> {
    fn invoke_mut(&mut self, args: (&'b &'a A,)) -> (output: T::Output) {
        self.0.invoke_mut((*args.0,))
    }
}

impl<'a, 'b, A: 'a + ?Sized, T> Invoke<(&'b &'a A,)> for RefArg<T> where T: Invoke<(&'a A,)> {
    fn invoke(&self, args: (&'b &'a A,)) -> (output: T::Output) {
        self.0.invoke((*args.0,))
    }
}

/// Calling the adapter with a double reference is calling the wrapped
/// callable with that reference dereferenced once: it accepts the same
/// arguments and may return the same results.
pub proof fn ref_arg_forwards<'a, 'b, A: 'a + ?Sized, T: InvokeOnce<(&'a A,)>>(
    f: T,
    arg: &'b &'a A,
    output: T::Output,
)
    ensures
        RefArg(f).invoke_requires((arg,)) == f.invoke_requires((*arg,)),
        RefArg(f).invoke_ensures((arg,), output) == f.invoke_ensures((*arg,), output),
{
}

} // verus!
