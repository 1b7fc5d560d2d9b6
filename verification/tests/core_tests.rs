use vtable::builder::{init_size, Builder, Entry};
use vtable::folds::{instantiate, GetSizeFold, ImplFold, InitFold, PathMapper};
use vtable::hlist::into_reverse;
use vtable::path::Path;
use vtable::primitives::Const;
use vtable::traits::{append, as_child, filter_by, foldl, foldr};

fn seg(s: &str) -> String {
    s.to_string()
}

fn path(names: &[&str]) -> Path {
    Path::new(names.iter().map(|s| s.to_string()).collect())
}

fn names(p: &Path) -> Vec<String> {
    p.segments()
}

#[derive(Debug, Clone, Copy, PartialEq)]
enum Value {
    F32(f32),
    I32(i32),
    U64(u64),
    F64(f64),
}

#[test]
fn test() {
    let (p1, p2, p3, p4, p5) = (seg("P1"), seg("P2"), seg("P3"), seg("P4"), seg("P5"));
    let builder = Builder::new(|builder: Builder<Value>| {
        let builder = builder.push(&p1, Value::F32(0.0)).push(&p2, Value::F32(1.0));
        let other = Builder::new(|builder: Builder<Value>| builder.push(&p3, Value::I32(7)));
        let builder = builder.add(other);
        builder
            .with(&path(&["P5"]), |builder: Builder<Value>| builder.push(&p4, Value::U64(23)))
            .push(&p4, Value::F64(20.0))
    });
    let _ = &p5;
    let data = builder.borrow_data();
    let got: Vec<(String, Value)> = data.iter().map(|(p, v)| (p.debug_text(), *v)).collect();
    // The constructor's entries are [P4, P2, P1, P3, P5/P4]; `new` makes them a child of the
    // root, which keeps the even positions in order and then the odd ones reversed.
    assert_eq!(
        got,
        vec![
            ("/P4/-".to_string(), Value::F64(20.0)),
            ("/P1/-".to_string(), Value::F32(0.0)),
            ("/P5/P4/-".to_string(), Value::U64(23)),
            ("/P3/-".to_string(), Value::I32(7)),
            ("/P2/-".to_string(), Value::F32(1.0)),
        ]
    );
    assert_eq!(builder.get_path().debug_text(), "/-");
}

#[test]
fn add_child() {
    let list = vec![(path(&["P2"]), 2f32), (path(&["P4"]), 4f32)];
    let list = as_child(&path(&["P1"]), list);
    let list = as_child(&path(&["P2"]), list);
    let list = as_child(&path(&["P3"]), list);
    let got: Vec<(String, f32)> = list.iter().map(|(p, v)| (p.debug_text(), *v)).collect();
    assert_eq!(
        got,
        vec![("/P3/P2/P1/P2/-".to_string(), 2f32), ("/P3/P2/P1/P4/-".to_string(), 4f32)]
    );
}

#[test]
fn it_works() {
    assert_eq!(2 + 2, 4);
}

#[test]
fn concat_and_reverse() {
    assert_eq!(vtable::hlist::concat(vec![1, 2], vec![3]), vec![1, 2, 3]);
    assert_eq!(vtable::hlist::concat(Vec::<u8>::new(), Vec::new()), Vec::<u8>::new());
    assert_eq!(into_reverse(vec![1, 2, 3]), vec![3, 2, 1]);
    assert_eq!(into_reverse(into_reverse(vec![4, 5, 6, 7])), vec![4, 5, 6, 7]);
    assert_eq!(into_reverse(Vec::<u8>::new()), Vec::<u8>::new());
}

#[test]
fn append_reverses_concatenation() {
    assert_eq!(append(vec![1, 2], vec![3, 4]), vec![4, 3, 2, 1]);
    assert_eq!(append(vec![1], Vec::new()), vec![1]);
}

#[test]
fn foldl_is_left_fold() {
    let r = foldl(vec![1, 2, 3], |acc: Vec<i32>, e: i32| {
        let mut acc = acc;
        acc.push(e);
        acc
    }, vec![0]);
    assert_eq!(r, vec![0, 1, 2, 3]);
    assert_eq!(foldl(vec![10u64, 20, 30], |a: u64, e: u64| a * 2 + e, 1), 1 * 8 + 10 * 4 + 20 * 2 + 30);
    assert_eq!(foldl(Vec::<u64>::new(), |a: u64, e: u64| a + e, 5), 5);
}

#[test]
fn foldl_over_concatenation() {
    let f = |a: u64, e: u64| a * 3 + e;
    let whole = foldl(vec![1u64, 2, 3, 4], f, 7);
    let mid = foldl(vec![1u64, 2], f, 7);
    assert_eq!(whole, foldl(vec![3u64, 4], f, mid));
}

#[test]
fn foldr_is_right_fold() {
    let r = foldr(vec![1, 2, 3], |e: i32, acc: Vec<i32>| {
        let mut acc = acc;
        acc.push(e);
        acc
    }, vec![0]);
    assert_eq!(r, vec![0, 3, 2, 1]);
    assert_eq!(foldr(Vec::<u64>::new(), |e: u64, a: u64| a + e, 9), 9);
}

#[test]
fn foldr_over_concatenation() {
    let f = |e: u64, a: u64| a * 5 + e;
    let whole = foldr(vec![1u64, 2, 3, 4], f, 2);
    let mid = foldr(vec![3u64, 4], f, 2);
    assert_eq!(whole, foldr(vec![1u64, 2], f, mid));
}

#[test]
fn map_puts_the_head_image_last() {
    let r = vtable::traits::map(vec![1, 2, 3], |e: i32| vec![e, e * 10]);
    assert_eq!(r, vec![3, 30, 2, 20, 1, 10]);
    assert_eq!(vtable::traits::map(Vec::<i32>::new(), |e: i32| vec![e]), Vec::<i32>::new());
}

#[test]
fn as_child_order_and_prefix() {
    let list: Vec<(Path, u8)> = (0..5u8).map(|i| (path(&[&format!("E{}", i)]), i)).collect();
    let out = as_child(&path(&["C", "D"]), list);
    let got: Vec<(Vec<String>, u8)> = out.iter().map(|(p, v)| (names(p), *v)).collect();
    let p = |e: &str| vec!["C".to_string(), "D".to_string(), e.to_string()];
    assert_eq!(
        got,
        vec![(p("E0"), 0), (p("E2"), 2), (p("E4"), 4), (p("E3"), 3), (p("E1"), 1)]
    );
    assert!(as_child(&path(&["C"]), Vec::<(Path, u8)>::new()).is_empty());
}

#[test]
fn path_texts() {
    let p = path(&["P1", "P2"]);
    assert_eq!(p.get_name(), "P1P2:");
    assert_eq!(p.fmt_path(), "P1/P2/-");
    assert_eq!(p.debug_text(), "/P1/P2/-");
    assert_eq!(p.serialized(), "/P1P2:");
    let root = Path::root();
    assert_eq!(root.get_name(), ":");
    assert_eq!(root.fmt_path(), "-");
    assert_eq!(root.serialized(), "/:");
    assert_eq!(root.len(), 0);
}

#[test]
fn path_name_of_joined_paths() {
    let a = path(&["A", "B"]);
    let b = path(&["C"]);
    let j = a.join(&b);
    assert_eq!(j.get_name(), "ABC:");
    assert_eq!(j.fmt_path(), "A/B/C/-");
    assert_eq!(a.child(&seg("X")).debug_text(), "/A/B/X/-");
}

#[test]
fn path_child_of() {
    let root = Path::root();
    let a = path(&["A"]);
    let ab = path(&["A", "B"]);
    assert!(a.child_of(&root));
    assert!(ab.child_of(&root));
    assert!(!root.child_of(&root));
    assert!(!ab.child_of(&a));
}

#[test]
fn builder_push_and_add() {
    let b: Builder<u8> = Builder::empty(path(&["R"]));
    let b = b.push(&seg("X"), 1).push(&seg("Y"), 2);
    let got: Vec<(String, u8)> = b.borrow_data().iter().map(|(p, v)| (p.debug_text(), *v)).collect();
    assert_eq!(got, vec![("/R/Y/-".to_string(), 2), ("/R/X/-".to_string(), 1)]);
    let c: Builder<u8> = Builder::empty(Path::root()).push(&seg("Z"), 3);
    let s = b.add(c);
    assert_eq!(s.get_path().debug_text(), "/R/-");
    let (p, data) = s.get_data();
    assert_eq!(p.debug_text(), "/R/-");
    let got: Vec<u8> = data.iter().map(|(_, v)| *v).collect();
    assert_eq!(got, vec![2, 1, 3]);
}

#[test]
fn builder_identity_constructor_adds_nothing() {
    let b: Builder<u8> = Builder::new(|b: Builder<u8>| b);
    assert!(b.borrow_data().is_empty());
    let b: Builder<u8> = Builder::empty(Path::root()).push(&seg("A"), 1);
    let w = b.with(&path(&["C"]), |b: Builder<u8>| b);
    assert_eq!(w.borrow_data().len(), 1);
}

#[test]
fn builder_with_prefixes_child_entries() {
    let b: Builder<u8> = Builder::empty(path(&["R"]));
    let w = b.with(&path(&["C"]), |b: Builder<u8>| b.push(&seg("X"), 5));
    let got: Vec<(String, u8)> = w.borrow_data().iter().map(|(p, v)| (p.debug_text(), *v)).collect();
    assert_eq!(got, vec![("/C/R/X/-".to_string(), 5)]);
    let b: Builder<u8> = Builder::empty(Path::root());
    let data = b.init(&path(&["Q"]), |b: Builder<u8>| b.push(&seg("A"), 1).push(&seg("B"), 2));
    let got: Vec<String> = data.iter().map(|(p, _)| p.debug_text()).collect();
    assert_eq!(got, vec!["/Q/B/-".to_string(), "/Q/A/-".to_string()]);
}

#[test]
fn const_entry() {
    let c = Const::new(path(&["K"]), || 42u32);
    assert_eq!(c.get_path().debug_text(), "/K/-");
    assert_eq!((c.borrow_data())(), 42);
    assert_eq!(c.produce(), 42);
    let (p, f) = c.get_data();
    assert_eq!(p.debug_text(), "/K/-");
    assert_eq!(f(), 42);
}

#[test]
fn instantiate_lays_values_out() {
    let list: Vec<Const<u32, fn() -> u32>> = vec![
        Const::new(path(&["A"]), || 1u32),
        Const::new(path(&["B"]), || 2u32),
        Const::new(path(&["C"]), || 3u32),
    ];
    let inst = instantiate(&list);
    assert_eq!(inst.capacity, 12);
    assert_eq!(inst.slots, vec![(8, 3), (4, 2), (0, 1)]);
    assert_eq!(init_size(&list), 12);
    let empty: Vec<Const<u64, fn() -> u64>> = Vec::new();
    let inst = instantiate(&empty);
    assert_eq!(inst.capacity, 0);
    assert!(inst.slots.is_empty());
    assert_eq!(init_size(&empty), 0);
}

#[test]
fn fold_steps() {
    let c = Const::new(path(&["A"]), || 7u16);
    assert_eq!(GetSizeFold.call_once(10, &c), 12);
    let mut region = vec![(100usize, 1u16)];
    let off = InitFold.call_once(&c, 6, &mut region);
    assert_eq!(off, 4);
    assert_eq!(region, vec![(100, 1), (4, 7)]);
    let acc = PathMapper.call_once(&(path(&["X", "Y"]), 1u8), vec![Path::root()]);
    let got: Vec<String> = acc.iter().map(|p| p.debug_text()).collect();
    assert_eq!(got, vec!["/-".to_string(), "/X/Y/-".to_string()]);
    let keep_even = ImplFold::new(|e: &u8| *e % 2 == 0);
    assert_eq!(keep_even.call_once(4, vec![1, 2]), vec![4, 1, 2]);
    assert_eq!(keep_even.call_once(3, vec![1, 2]), vec![1, 2]);
}

#[test]
fn path_parent_drops_first_segment() {
    assert!(Path::root().parent().is_none());
    let p = path(&["A", "B", "C"]).parent().unwrap();
    assert_eq!(p.debug_text(), "/B/C/-");
    assert_eq!(path(&["A"]).parent().unwrap().len(), 0);
}

#[test]
fn map_over_concatenation() {
    let f = |e: i32| vec![e, -e];
    let whole = vtable::traits::map(vec![1, 2, 3], f);
    let first = vtable::traits::map(vec![1], f);
    let second = vtable::traits::map(vec![2, 3], f);
    assert_eq!(whole, vtable::hlist::concat(second, first));
}

#[test]
fn instantiate_mixed_sizes() {
    // Values of several types behind one enum, each constant with the size of its own type.
    let list: Vec<Const<Value, fn() -> Value>> = vec![
        Const::with_size(path(&["A"]), 4, || Value::F32(1.5)),
        Const::with_size(path(&["B"]), 8, || Value::U64(9)),
        Const::with_size(path(&["C"]), 2, || Value::I32(3)),
    ];
    assert_eq!(list[1].size(), 8);
    let inst = instantiate(&list);
    assert_eq!(inst.capacity, 14);
    assert_eq!(inst.slots, vec![(12, Value::I32(3)), (4, Value::U64(9)), (0, Value::F32(1.5))]);
    assert_eq!(init_size(&list), 14);
    assert_eq!(GetSizeFold.call_once(1, &list[1]), 9);
}

#[test]
fn filter_by_keeps_accepted_entries() {
    // [1, 2, 3, 4] keeping the even ones: 4 -> [4]; 3 left out; 2 -> reverse([2, 4]) = [4, 2].
    assert_eq!(filter_by(vec![1u8, 2, 3, 4], |e: &u8| *e % 2 == 0), vec![4, 2]);
    // all kept: 3 -> [3]; 2 -> [3, 2]; 1 -> reverse([1, 3, 2]) = [2, 3, 1]
    assert_eq!(filter_by(vec![1u8, 2, 3], |_e: &u8| true), vec![2, 3, 1]);
    assert_eq!(filter_by(vec![1u8, 2, 3], |_e: &u8| false), Vec::<u8>::new());
    assert_eq!(filter_by(Vec::<u8>::new(), |_e: &u8| true), Vec::<u8>::new());
}
