use vstd::prelude::*;

use crate::builder::Entry;
use crate::path::Path;

verus! {

/// A constant entry: a path, the function that produces its value, and the size in bytes of
/// the value's type.
#[verifier::reject_recursive_types(T)]
pub struct Const<T, F: Fn() -> T> {
    path: Path,
    init: F,
    size: usize,
}

/// The view of a constant entry: its path by segment names, its init function, and the size
/// of its value's type.
pub struct ConstView<F> {
    pub path: Seq<Seq<char>>,
    pub init: F,
    pub size: usize,
}

impl<T, F: Fn() -> T> View for Const<T, F> {
    type V = ConstView<F>;

    closed spec fn view(&self) -> ConstView<F> {
        ConstView { path: self.path@, init: self.init, size: self.size }
    }
}

impl<T, F: Fn() -> T> Const<T, F> {
    /// A constant at `path` whose value `init` produces; its size is that of `T`.
    pub fn new(path: Path, init: F) -> (res: Const<T, F>)
        ensures
            res@.path == path@,
            res@.init == init,
            res@.size == vstd::layout::size_of::<T>(),
    {
        Const { path, init, size: core::mem::size_of::<T>() }
    }

    /// A constant at `path` whose value `init` produces, standing for a value of a type of
    /// `size` bytes. This lets one list hold constants of several value types, with `T` a type
    /// that covers them all.
    pub fn with_size(path: Path, size: usize, init: F) -> (res: Const<T, F>)
        ensures
            res@.path == path@,
            res@.init == init,
            res@.size == size,
    {
        Const { path, init, size }
    }

    /// The size in bytes of the constant's value type.
    pub fn size(&self) -> (res: usize)
        ensures
            res == self@.size,
    {
        self.size
    }

    /// Runs the init function and gives the value it produces.
    pub fn produce(&self) -> (res: T)
        requires
            call_requires(self@.init, ()),
        ensures
            call_ensures(self@.init, (), res),
    {
        (self.init)()
    }
}

impl<T, F: Fn() -> T> Entry for Const<T, F> {
    type Data = F;

    closed spec fn entry_path(&self) -> Seq<Seq<char>> {
        self.path@
    }

    closed spec fn entry_data(&self) -> F {
        self.init
    }

    /// A copy of the constant's path.
    fn get_path(&self) -> (res: Path) {
        self.path.clone()
    }

    /// The constant's path and init function.
    fn get_data(self) -> (res: (Path, F)) {
        let Const { path, init, size: _ } = self;
        (path, init)
    }

    /// The constant's init function.
    fn borrow_data(&self) -> (res: &F) {
        &self.init
    }
}

/// The entry view of a constant is its view: its path and its init function.
pub proof fn lemma_const_entry<T, F: Fn() -> T>(c: Const<T, F>)
    ensures
        c.entry_path() == c@.path,
        c.entry_data() == c@.init,
{
}

/// What can be read from a constant depends only on its path, init function and size: two
/// constants built from equal paths (one path type), the same function and the same size give
/// the same path and the same data.
pub proof fn lemma_const_observations<T, F: Fn() -> T>(c1: Const<T, F>, c2: Const<T, F>)
    requires
        c1@.path == c2@.path,
        c1@.init == c2@.init,
        c1@.size == c2@.size,
    ensures
        c1@ == c2@,
        c1.entry_path() == c2.entry_path(),
        c1.entry_data() == c2.entry_data(),
{
}

} // verus!
