use invoke_iter::FlatMap;
use invoke_iter::FlatMapInvoke;
use invoke_iter::FlatMapIter;
use invoke_iter::InvokeFn;
use invoke_iter::IteratorInvokeExt;
use invoke_iter::MapAdapter;
use invoke_iter::MapInvoke;
use invoke_iter::MapIter;
use invoke_iter::NoClosureExt;
use invoke_iter::RefArg;
use invoke_iter::ToStringMapper;
use std::collections::HashMap;

struct WordFrequency {
    inner: HashMap<String, usize>,
}

impl WordFrequency {
    fn new() -> Self {
        Self {
            inner: HashMap::new(),
        }
    }

    fn add(&mut self, word: &str) {
        self.inner
            .entry(String::from(word))
            .and_modify(|v| *v += 1)
            .or_insert(1);
    }

    fn entries<'a>(
        &'a self,
    ) -> MapInvoke<
        std::collections::hash_map::Iter<'a, String, usize>,
        fn((&'a String, &'a usize)) -> (&'a str, usize),
    > {
        let f: fn((&'a String, &'a usize)) -> (&'a str, usize) = |(s, c)| (s.as_str(), *c);
        self.inner.iter().map_invoke(f)
    }
}

#[test]
fn should_implement_hashmap_wrapper_with_iterators() {
    let mut sut = WordFrequency::new();
    sut.add("red");
    sut.add("green");
    sut.add("red");

    let mut got = sut.entries().collect_vec();
    got.sort();

    assert_eq!(vec![("green", 1), ("red", 2)], got);
}

#[test]
fn map_iter_should_be_iterable() {
    let src = ["red", "green", "blue"];
    let mut iter: MapInvoke<std::slice::Iter<&str>, RefArg<fn(&'static str) -> String>> =
        src.iter().map_invoke(RefArg::new(String::from));

    assert_eq!(
        src.into_iter().map(String::from).collect::<Vec<_>>(),
        iter.collect_vec()
    );
}

#[test]
fn flat_map_iter_should_be_iterable() {
    let src: [&'static str; 3] = ["red", "green", "blue"];
    let mut iter: FlatMapInvoke<std::slice::Iter<&str>, RefArg<fn(&str) -> std::str::Chars>> =
        src.iter().flat_map_invoke(RefArg::new(str::chars));

    let expected = String::from("redgreenblue");
    let v = iter.collect_vec().into_iter().collect::<String>();
    assert_eq!(expected, v);
}

#[test]
fn lib_map_iter_should_be_iterable() {
    let src = vec!["red", "green", "blue"];
    let mut iter: MapIter<std::slice::Iter<&str>, RefArg<ToStringMapper>> =
        MapIter::new(src.iter(), RefArg(ToStringMapper));

    assert_eq!(
        src.iter().map(|s| String::from(*s)).collect::<Vec<_>>(),
        iter.collect_vec()
    );
}

#[test]
fn lib_flat_map_iter_should_be_iterable() {
    let src: [&'static str; 3] = ["red", "green", "blue"];
    let mut iter: FlatMapIter<std::slice::Iter<&str>, RefArg<InvokeFn<fn(&str) -> std::str::Chars>>> =
        FlatMapIter::new(src.iter(), RefArg(InvokeFn(str::chars)));

    let expected = String::from("redgreenblue");
    let v = iter.collect_vec().into_iter().collect::<String>();
    assert_eq!(expected, v);
}

#[test]
fn flat_map_skips_empty_inner_sequences() {
    let src: Vec<usize> = vec![1, 0, 2];
    let mut iter = src.into_iter().flat_map_invoke(|n: usize| std::iter::repeat('x').take(n));
    assert_eq!(iter.next(), Some('x'));
    assert_eq!(iter.next(), Some('x'));
    assert_eq!(iter.next(), Some('x'));
    assert_eq!(iter.next(), None);
}

#[test]
fn flat_map_with_only_empty_inner_sequences_is_empty() {
    let src: Vec<usize> = vec![0, 0, 0];
    let mut iter = FlatMapInvoke::new(src.into_iter(), |n: usize| std::iter::repeat(7u8).take(n));
    assert_eq!(iter.next(), None);
    assert_eq!(iter.next(), None);
}

#[test]
fn map_adapter_transforms_in_order() {
    let src: Vec<u32> = vec![3, 1, 2];
    let mut iter = src.into_iter().map_invoke(|x: u32| x * 10);
    assert_eq!(iter.next(), Some(30));
    assert_eq!(iter.next(), Some(10));
    assert_eq!(iter.next(), Some(20));
    assert_eq!(iter.next(), None);
}

#[test]
fn exhausted_adapters_stay_exhausted() {
    let empty: Vec<u32> = Vec::new();
    let mut m = MapInvoke::new(empty.iter(), |x: &u32| *x + 1);
    assert_eq!(m.next(), None);
    assert_eq!(m.next(), None);

    let src = [1u32];
    let mut f = src.iter().flat_map_invoke(|x: &u32| vec![*x, *x].into_iter());
    assert_eq!(f.next(), Some(1));
    assert_eq!(f.next(), Some(1));
    assert_eq!(f.next(), None);
    assert_eq!(f.next(), None);
    assert_eq!(f.next(), None);
}

#[test]
fn map_over_empty_source_yields_nothing() {
    let empty: [&str; 0] = [];
    let got = MapIter::new(empty.iter(), RefArg(ToStringMapper)).collect_vec();
    assert!(got.is_empty());
}

#[test]
fn no_closure_map_and_flat_map() {
    let src = ["ab", "", "c"];
    let mut lens: MapAdapter<_, RefArg<fn(&str) -> usize>> = src.iter().no_closure().map(RefArg::new(str::len));
    assert_eq!(lens.collect_vec(), vec![2, 0, 1]);

    let mut chars: FlatMap<_, RefArg<fn(&str) -> std::str::Chars>> =
        src.iter().no_closure().flat_map(RefArg::new(str::chars));
    assert_eq!(chars.collect_vec(), vec!['a', 'b', 'c']);
}

#[test]
fn flat_map_iter_drains_inner_before_pulling_source() {
    let src = ["xy", "z"];
    let mut iter = FlatMapIter::new(src.iter(), RefArg(InvokeFn(str::chars)));
    assert_eq!(iter.next(), Some('x'));
    assert_eq!(iter.next(), Some('y'));
    assert_eq!(iter.next(), Some('z'));
    assert_eq!(iter.next(), None);
}

#[test]
fn map_adapter_next_steps_one_item() {
    let src = [5u8, 6];
    let mut m = MapAdapter::new(src.iter(), |x: &u8| u32::from(*x) * 2);
    assert_eq!(m.next(), Some(10));
    assert_eq!(m.next(), Some(12));
    assert_eq!(m.next(), None);
}

#[test]
fn collect_vec_leaves_the_adapter_exhausted() {
    let src = ["ab", "c"];
    let mut iter = src.iter().flat_map_invoke(RefArg::new(str::chars as fn(&str) -> std::str::Chars));
    assert_eq!(iter.next(), Some('a'));
    assert_eq!(iter.collect_vec(), vec!['b', 'c']);
    assert_eq!(iter.next(), None);
    assert!(iter.collect_vec().is_empty());

    let mut m = src.iter().map_invoke(RefArg::new(str::len as fn(&str) -> usize));
    assert_eq!(m.next(), Some(2));
    assert_eq!(m.collect_vec(), vec![1]);
    assert_eq!(m.next(), None);
}

#[test]
fn flat_map_chars_yields_twelve_characters() {
    let src = ["red", "green", "blue"];
    let mut iter = src.iter().flat_map_invoke(RefArg::new(str::chars as fn(&str) -> std::str::Chars));
    let got = iter.collect_vec();
    assert_eq!(got.len(), 12);
    assert_eq!(got, "redgreenblue".chars().collect::<Vec<_>>());
}
