use vstd::prelude::*;

verus! {

/// A value that can be called once with an argument tuple, consuming it.
pub trait InvokeOnce<Args>: Sized {
    type Output;

    /// The arguments on which a call is allowed.
    spec fn invoke_requires(&self, args: Args) -> bool;

    /// The results that a call on `args` may return.
    spec fn invoke_ensures(&self, args: Args, output: Self::Output) -> bool;

    fn invoke_once(self, args: Args) -> (output: Self::Output)
        requires
            self.invoke_requires(args),
        ensures
            self.invoke_ensures(args, output),
    ;
}

/// A value that can be called repeatedly through exclusive access. A call
/// leaves the callable as it was, so the same arguments allow the same
/// results on every call, and those of a call that consumes it.
pub trait InvokeMut<Args>: InvokeOnce<Args> {
    fn invoke_mut(&mut self, args: Args) -> (output: Self::Output)
        requires
            old(self).invoke_requires(args),
        ensures
            old(self).invoke_ensures(args, output),
            *final(self) == *old(self),
    ;
}

/// A value that can be called repeatedly through shared access, with the
/// same arguments and results as the other two tiers.
pub trait Invoke<Args>: InvokeMut<Args> {
    fn invoke(&self, args: Args) -> (output: Self::Output)
        requires
            self.invoke_requires(args),
        ensures
            self.invoke_ensures(args, output),
    ;
}

// Every native single-argument callable is invocable at the tier that its
// calling convention allows.
impl<F, Arg, R> InvokeOnce<(Arg,)> for F where F: FnOnce(Arg) -> R {
    type Output = F::Output;

    open spec fn invoke_requires(&self, args: (Arg,)) -> bool {
        call_requires(*self, args)
    }

    open spec fn invoke_ensures(&self, args: (Arg,), output: R) -> bool {
        call_ensures(*self, args, output)
    }

    fn invoke_once(self, args: (Arg,)) -> (output: R) {
        self(args.0)
    }
}

impl<F, Arg, R> InvokeMut<(Arg,)> for F where F: FnMut(Arg) -> R {
    fn invoke_mut(&mut self, args: (Arg,)) -> (output: R) {
        self(args.0)
    }
}

impl<F, Arg, R> Invoke<(Arg,)> for F where F: Fn(Arg) -> R {
    fn invoke(&self, args: (Arg,)) -> (output: R) {
        self(args.0)
    }
}

/// Wraps a native callable, making it invocable by an explicit wrapper
/// rather than by the blanket rules on callables.
pub struct InvokeFn<F>(pub F);

impl<F> InvokeFn<F> {
    pub fn new(f: F) -> (r: Self)
        ensures
            r.0 == f,
    {
        InvokeFn(f)
    }
}

impl<F, Arg, R> InvokeOnce<(Arg,)> for InvokeFn<F> where F: FnOnce(Arg) -> R {
    type Output = F::Output;

    open spec fn invoke_requires(&self, args: (Arg,)) -> bool {
        call_requires(self.0, args)
    }

    open spec fn invoke_ensures(&self, args: (Arg,), output: R) -> bool {
        call_ensures(self.0, args, output)
    }

    fn invoke_once(self, args: (Arg,)) -> (output: R) {
        (self.0)(args.0)
    }
}

impl<F, Arg, R> InvokeMut<(Arg,)> for InvokeFn<F> where F: FnMut(Arg) -> R {
    fn invoke_mut(&mut self, args: (Arg,)) -> (output: R) {
        (self.0)(args.0)
    }
}

impl<F, Arg, R> Invoke<(Arg,)> for InvokeFn<F> where F: Fn(Arg) -> R {
    fn invoke(&self, args: (Arg,)) -> (output: R) {
        (self.0)(args.0)
    }
}

} // verus!
