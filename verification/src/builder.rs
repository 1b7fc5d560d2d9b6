use vstd::prelude::*;

use crate::hlist::concat;
use crate::path::Path;
use crate::folds::{const_sizes, lemma_size_sum_monotonic, lemma_size_sum_step, size_sum};
use crate::primitives::Const;
use crate::traits::{
    as_child, entries_view, lemma_as_child_permutes, lemma_prefixed_root, spec_as_child,
};

verus! {

/// A builder of entries: the path it stands at and the entries built so far, each a value
/// tagged with its path. Newly pushed entries come first.
pub struct Builder<T> {
    path: Path,
    data: Vec<(Path, T)>,
}

/// The view of a builder: its path and its entries, paths by their segment names.
pub struct BuilderView<T> {
    pub path: Seq<Seq<char>>,
    pub data: Seq<(Seq<Seq<char>>, T)>,
}

impl<T> View for Builder<T> {
    type V = BuilderView<T>;

    closed spec fn view(&self) -> BuilderView<T> {
        BuilderView { path: self.path@, data: entries_view(self.data@) }
    }
}

/// An entry: something that stands at a path and holds data.
pub trait Entry: Sized {
    type Data;

    /// The path of the entry, by segment names.
    spec fn entry_path(&self) -> Seq<Seq<char>>;

    /// The data of the entry.
    spec fn entry_data(&self) -> Self::Data;

    /// A copy of the entry's path.
    fn get_path(&self) -> (res: Path)
        ensures
            res@ == self.entry_path(),
    ;

    /// The entry's path and data.
    fn get_data(self) -> (res: (Path, Self::Data))
        ensures
            res.0@ == self.entry_path(),
            res.1 == self.entry_data(),
    ;

    /// The entry's data.
    fn borrow_data(&self) -> (res: &Self::Data)
        ensures
            *res == self.entry_data(),
    ;
}

impl<T> Entry for Builder<T> {
    type Data = Vec<(Path, T)>;

    closed spec fn entry_path(&self) -> Seq<Seq<char>> {
        self.path@
    }

    closed spec fn entry_data(&self) -> Vec<(Path, T)> {
        self.data
    }

    /// A copy of this builder's path.
    fn get_path(&self) -> (res: Path) {
        self.path.clone()
    }

    /// The builder's path and entries.
    fn get_data(self) -> (res: (Path, Vec<(Path, T)>)) {
        (self.path, self.data)
    }

    /// The builder's entries.
    fn borrow_data(&self) -> (res: &Vec<(Path, T)>) {
        &self.data
    }
}

/// The entry view of a builder is its view: its path, and its entries by their views.
pub proof fn lemma_builder_entry<T>(b: Builder<T>)
    ensures
        b.entry_path() == b@.path,
        entries_view(b.entry_data()@) == b@.data,
{
}

/// `r` is the data that `Init::init` gives for a builder at `path` holding `data`, when
/// `func` is run on a builder at `path` with no entries and the entries it returns are
/// made a child of `child`.
pub open spec fn spec_init_result<T, F: FnOnce(Builder<T>) -> Builder<T>>(
    func: F,
    path: Seq<Seq<char>>,
    data: Seq<(Seq<Seq<char>>, T)>,
    child: Seq<Seq<char>>,
    r: Seq<(Seq<Seq<char>>, T)>,
) -> bool {
    exists|arg: Builder<T>, out: Builder<T>|
        #![trigger call_ensures(func, (arg,), out)]
        arg@.path == path && arg@.data.len() == 0 && call_ensures(func, (arg,), out) && r == data
            + spec_as_child(child, out@.data)
}

impl<T> Builder<T> {
    /// A builder at `path` with no entries.
    pub fn empty(path: Path) -> (res: Builder<T>)
        ensures
            res@.path == path@,
            res@.data == Seq::<(Seq<Seq<char>>, T)>::empty(),
    {
        let res = Builder { path, data: Vec::new() };
        assert(res@.data =~= Seq::<(Seq<Seq<char>>, T)>::empty());
        res
    }

    /// A builder at the root that holds what `constructor` builds from an empty builder at the
    /// root, made a child of the root (`Builder::new`).
    pub fn new<F: FnOnce(Builder<T>) -> Builder<T>>(constructor: F) -> (res: Builder<T>)
        requires
            forall|b: Builder<T>| call_requires(constructor, (b,)),
        ensures
            res@.path == Seq::<Seq<char>>::empty(),
            spec_init_result(constructor, Seq::empty(), Seq::empty(), Seq::empty(), res@.data),
    {
        let inner: Builder<T> = Builder::empty(Path::root());
        let data = inner.init(&Path::root(), constructor);
        Builder { path: Path::root(), data }
    }

    /// `Init::init`: runs `func` on an empty builder at this builder's path, makes the entries
    /// it returns a child of `child`, and gives this builder's entries followed by those.
    pub fn init<F: FnOnce(Builder<T>) -> Builder<T>>(self, child: &Path, func: F) -> (res: Vec<
        (Path, T),
    >)
        requires
            forall|b: Builder<T>| call_requires(func, (b,)),
        ensures
            spec_init_result(func, self@.path, self@.data, child@, entries_view(res@)),
    {
        let Builder { path, data } = self;
        let arg: Builder<T> = Builder::empty(path);
        let ghost a = arg;
        let out = func(arg);
        let ghost o = out;
        let new_data = as_child(child, out.data);
        let res = concat(data, new_data);
        assert(entries_view(res@) =~= entries_view(data@) + entries_view(new_data@));
        assert(call_ensures(func, (a,), o));
        res
    }

    /// `push::<C, _>`: a new entry holding `value` at this builder's path followed by `segment`,
    /// in front of the entries already there.
    pub fn push(self, segment: &String, value: T) -> (res: Builder<T>)
        ensures
            res@.path == self@.path,
            res@.data == seq![(self@.path.push(segment@), value)] + self@.data,
    {
        let Builder { path, data } = self;
        let entry_path = path.child(segment);
        let mut head: Vec<(Path, T)> = Vec::new();
        head.push((entry_path, value));
        let new_data = concat(head, data);
        assert(entries_view(new_data@) =~= seq![(path@.push(segment@), value)] + entries_view(data@));
        Builder { path, data: new_data }
    }

    /// `with::<P, _, _>`: the entries that `constructor` builds from an empty builder at this
    /// path, made a child of `child`, appended after this builder's entries.
    pub fn with<F: FnOnce(Builder<T>) -> Builder<T>>(self, child: &Path, constructor: F) -> (res:
        Builder<T>)
        requires
            forall|b: Builder<T>| call_requires(constructor, (b,)),
        ensures
            res@.path == self@.path,
            spec_init_result(constructor, self@.path, self@.data, child@, res@.data),
    {
        let inner: Builder<T> = Builder::empty(self.path.clone());
        let built = inner.init(child, constructor);
        let other = Builder { path: Path::root(), data: built };
        let res = self.add(other);
        assert(res@.data =~= self@.data + entries_view(built@));
        res
    }

    /// `Add`: the entries of `self` followed by those of `rhs`, at the path of `self`.
    pub fn add(self, rhs: Builder<T>) -> (res: Builder<T>)
        ensures
            res@.path == self@.path,
            res@.data == self@.data + rhs@.data,
    {
        let Builder { path, data } = self;
        let res = Builder { path, data: concat(data, rhs.data) };
        assert(res@.data =~= self@.data + rhs@.data);
        res
    }

    /// A builder at `path` holding `data` (the builder's two fields).
    pub fn from_parts(path: Path, data: Vec<(Path, T)>) -> (res: Builder<T>)
        ensures
            res@.path == path@,
            res@.data == entries_view(data@),
    {
        Builder { path, data }
    }
}

/// `InitSize::SIZE` of a list of constants: the size of the value of the head added to that of
/// the tail, and 0 for the empty list.
pub fn init_size<T, F: Fn() -> T>(list: &Vec<Const<T, F>>) -> (res: usize)
    requires
        size_sum(const_sizes(list@)) <= usize::MAX,
    ensures
        res == size_sum(const_sizes(list@)),
{
    let n = list.len();
    let ghost sizes = const_sizes(list@);
    assert(sizes.take(n as int) =~= sizes);
    let mut size: usize = 0;
    let mut k: usize = n;
    while k > 0
        invariant
            n == list@.len(),
            k <= n,
            sizes == const_sizes(list@),
            sizes.take(n as int) == sizes,
            size_sum(sizes) <= usize::MAX,
            size == size_sum(sizes) - size_sum(sizes.take(k as int)),
        decreases k,
    {
        proof {
            lemma_size_sum_step(sizes, k - 1);
            lemma_size_sum_monotonic(sizes, k - 1, n as int);
            lemma_size_sum_monotonic(sizes, 0, k - 1);
            assert(sizes.take(0) =~= Seq::<usize>::empty());
        }
        assert(sizes[k - 1] == list@[k - 1]@.size);
        k = k - 1;
        size = list[k].size() + size;
    }
    assert(sizes.take(0) =~= Seq::<usize>::empty());
    size
}

/// `Builder::new` keeps what its constructor built: its entries are those of the builder that
/// the constructor returned, each as often, only reordered.
pub proof fn lemma_new_keeps_entries<T, F: FnOnce(Builder<T>) -> Builder<T>>(
    constructor: F,
    r: Seq<(Seq<Seq<char>>, T)>,
)
    requires
        spec_init_result(constructor, Seq::empty(), Seq::empty(), Seq::empty(), r),
    ensures
        exists|arg: Builder<T>, out: Builder<T>|
            #![trigger call_ensures(constructor, (arg,), out)]
            call_ensures(constructor, (arg,), out) && arg@.data.len() == 0 && r.to_multiset()
                == out@.data.to_multiset(),
{
    let (arg, out) = choose|arg: Builder<T>, out: Builder<T>|
        #![trigger call_ensures(constructor, (arg,), out)]
        arg@.path == Seq::<Seq<char>>::empty() && arg@.data.len() == 0 && call_ensures(
            constructor,
            (arg,),
            out,
        ) && r == Seq::<(Seq<Seq<char>>, T)>::empty() + spec_as_child(Seq::empty(), out@.data);
    lemma_as_child_permutes(Seq::empty(), out@.data);
    lemma_prefixed_root(out@.data);
    assert(r =~= spec_as_child(Seq::empty(), out@.data));
}

/// A constructor that hands back the builder it is given adds no entries: the builder that
/// `Builder::new` makes from it holds none, and `with` leaves the entries as they were.
pub proof fn lemma_identity_constructor_adds_nothing<T, F: FnOnce(Builder<T>) -> Builder<T>>(
    func: F,
    path: Seq<Seq<char>>,
    data: Seq<(Seq<Seq<char>>, T)>,
    child: Seq<Seq<char>>,
    r: Seq<(Seq<Seq<char>>, T)>,
)
    requires
        forall|b: Builder<T>, o: Builder<T>| call_ensures(func, (b,), o) ==> o@ == b@,
        spec_init_result(func, path, data, child, r),
    ensures
        r == data,
{
    let (arg, out) = choose|arg: Builder<T>, out: Builder<T>|
        #![trigger call_ensures(func, (arg,), out)]
        arg@.path == path && arg@.data.len() == 0 && call_ensures(func, (arg,), out) && r == data
            + spec_as_child(child, out@.data);
    assert(out@.data.len() == 0);
    assert(spec_as_child(child, out@.data) =~= Seq::<(Seq<Seq<char>>, T)>::empty());
    assert(r =~= data);
}

/// Adding builders is associative in the entries it gives, and keeps the leftmost path.
pub proof fn lemma_add_associative<T>(a: BuilderView<T>, b: BuilderView<T>, c: BuilderView<T>)
    ensures
        (a.data + b.data) + c.data == a.data + (b.data + c.data),
{
    assert((a.data + b.data) + c.data =~= a.data + (b.data + c.data));
}

} // verus!
