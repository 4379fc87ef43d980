use invoke_iter::Invoke;
use invoke_iter::InvokeFn;
use invoke_iter::InvokeMut;
use invoke_iter::InvokeOnce;
use invoke_iter::RefArg;
use invoke_iter::ToStringMapper;

#[test]
fn fn_should_be_invokable() {
    let maplen: fn(&str) -> usize = str::len;
    let len = maplen.invoke(("foobar",));
    assert_eq!(6, len);
}

#[test]
fn test() {
    let maplen: InvokeFn<fn(&str) -> usize> = InvokeFn(str::len);
    let len = maplen.invoke(("foobar",));
    assert_eq!(6, len);
}

#[test]
fn tiers_agree_on_a_closure() {
    let double = |x: u32| x * 2;
    let mut m = double;
    assert_eq!(double.invoke((21,)), 42);
    assert_eq!(m.invoke_mut((21,)), 42);
    assert_eq!(double.invoke_once((21,)), 42);
}

#[test]
fn invoke_fn_new_wraps_the_callable() {
    let mut f = InvokeFn::new(|s: &str| s.len() + 1);
    assert_eq!(f.invoke(("abc",)), 4);
    assert_eq!(f.invoke_mut(("",)), 1);
    assert_eq!(f.invoke_once(("ab",)), 3);
}

#[test]
fn to_string_mapper_copies_the_slice() {
    let mut m = ToStringMapper;
    assert_eq!(m.invoke(("red",)), String::from("red"));
    assert_eq!(m.invoke_mut(("",)), String::new());
    assert_eq!(ToStringMapper.invoke_once(("blue",)), String::from("blue"));
}

#[test]
fn ref_arg_dereferences_once() {
    let word: &str = "green";
    let direct = str::len(word);
    let f: fn(&str) -> usize = str::len;
    let mut adapted = RefArg::new(f);
    assert_eq!(adapted.invoke((&word,)), direct);
    assert_eq!(adapted.invoke_mut((&word,)), 5);
    assert_eq!(RefArg::new(f).invoke_once((&word,)), 5);
}

#[test]
fn ref_arg_matches_manual_dereference_on_every_item() {
    let src = ["red", "", "blue"];
    let f = |s: &str| String::from(s);
    let adapted = RefArg(ToStringMapper);
    for s in src.iter() {
        assert_eq!(adapted.invoke((s,)), f(*s));
    }
}
