mod invokes;
mod iter;
mod iterators;
mod map_iter;
mod ref_arg;
mod step;

pub use invokes::Invoke;
pub use invokes::InvokeFn;
pub use invokes::InvokeMut;
pub use invokes::InvokeOnce;
pub use iter::FlatMapInvoke;
pub use iter::IteratorInvokeExt;
pub use iter::MapInvoke;
pub use iter::pure_map_is_seq_map;
pub use iterators::FlatMap;
pub use iterators::MapAdapter;
pub use iterators::NoClosure;
pub use iterators::NoClosureExt;
pub use map_iter::FlatMapIter;
pub use map_iter::MapIter;
pub use map_iter::ToStringMapper;
pub use ref_arg::ref_arg_forwards;
pub use ref_arg::RefArg;
