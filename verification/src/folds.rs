use vstd::prelude::*;

use crate::path::Path;
use crate::primitives::Const;

verus! {

/// The fold step that adds up the sizes of the constants' values.
#[derive(Clone, Copy)]
pub struct GetSizeFold;

impl GetSizeFold {
    /// Adds the size of the value of `var` to `size`.
    pub fn call_once<T, F: Fn() -> T>(self, size: usize, var: &Const<T, F>) -> (res: usize)
        requires
            size + var@.size <= usize::MAX,
        ensures
            res == size + var@.size,
    {
        size + var.size()
    }
}

/// The fold step that places the value of each constant just below the current offset.
#[derive(Clone, Copy)]
pub struct InitFold;

impl InitFold {
    /// Steps `offset` down by the size of the value of `var`, runs its init function, and
    /// records the value at the new offset in `region`; gives the new offset.
    pub fn call_once<T, F: Fn() -> T>(self, var: &Const<T, F>, offset: usize, region: &mut Vec<
        (usize, T),
    >) -> (res: usize)
        requires
            offset >= var@.size,
            call_requires(var@.init, ()),
        ensures
            res == offset - var@.size,
            final(region)@.len() == old(region)@.len() + 1,
            final(region)@.subrange(0, old(region)@.len() as int) == old(region)@,
            final(region)@.last().0 == res,
            call_ensures(var@.init, (), final(region)@.last().1),
    {
        let dest = offset - var.size();
        let value = var.produce();
        region.push((dest, value));
        assert(region@.subrange(0, old(region)@.len() as int) =~= old(region)@);
        dest
    }
}

/// The fold step that collects the paths of entries.
#[derive(Clone, Copy)]
pub struct PathMapper;

impl PathMapper {
    /// Adds the path of `entry` after the paths collected in `acc`.
    pub fn call_once<T>(self, entry: &(Path, T), acc: Vec<Path>) -> (res: Vec<Path>)
        ensures
            res@.len() == acc@.len() + 1,
            res@.subrange(0, acc@.len() as int) == acc@,
            res@.last()@ == entry.0@,
    {
        let ghost before = acc@;
        let mut acc = acc;
        acc.push(entry.0.clone());
        assert(acc@.subrange(0, before.len() as int) =~= before);
        acc
    }
}

/// The fold step that keeps the entries that a selector accepts, putting each kept entry in
/// front of the accumulated ones.
pub struct ImplFold<P> {
    keep: P,
}

impl<P> ImplFold<P> {
    /// A fold step that keeps what `keep` accepts.
    pub fn new(keep: P) -> (res: ImplFold<P>)
        ensures
            res.selector() == keep,
    {
        ImplFold { keep }
    }

    /// The selector of entries to keep.
    pub closed spec fn selector(&self) -> P {
        self.keep
    }

    /// Puts `entry` in front of `acc` when the selector accepts it; otherwise gives `acc`.
    pub fn call_once<E>(&self, entry: E, acc: Vec<E>) -> (res: Vec<E>)
        where
            P: Fn(&E) -> bool,
        requires
            call_requires(self.selector(), (&entry,)),
        ensures
            exists|kept: bool|
                #![trigger call_ensures(self.selector(), (&entry,), kept)]
                call_ensures(self.selector(), (&entry,), kept) && res@ == if kept {
                    seq![entry] + acc@
                } else {
                    acc@
                },
    {
        let kept = (self.keep)(&entry);
        if kept {
            let mut out: Vec<E> = Vec::new();
            out.push(entry);
            crate::hlist::concat(out, acc)
        } else {
            acc
        }
    }
}

/// The values of a list of constants, laid out one after another in a region of `capacity`
/// bytes: each slot gives the byte offset of a value and the value, in the order the values
/// were placed (the last constant first).
pub struct Instance<T> {
    pub capacity: usize,
    pub slots: Vec<(usize, T)>,
}

/// The sizes of the constants' value types, in order.
pub open spec fn const_sizes<T, F: Fn() -> T>(list: Seq<Const<T, F>>) -> Seq<usize> {
    list.map_values(|c: Const<T, F>| c@.size)
}

/// The sum of the sizes.
pub open spec fn size_sum(s: Seq<usize>) -> int
    decreases s.len(),
{
    if s.len() == 0 {
        0
    } else {
        size_sum(s.drop_last()) + s.last()
    }
}

/// The byte offset of the value at index `i`: the sum of the sizes before it.
pub open spec fn spec_value_offset(sizes: Seq<usize>, i: int) -> int {
    size_sum(sizes.take(i))
}

pub(crate) proof fn lemma_size_sum_step(s: Seq<usize>, i: int)
    requires
        0 <= i < s.len(),
    ensures
        size_sum(s.take(i + 1)) == size_sum(s.take(i)) + s[i],
{
    assert(s.take(i + 1).drop_last() =~= s.take(i));
}

/// Sums of longer prefixes are no smaller.
pub proof fn lemma_size_sum_monotonic(s: Seq<usize>, i: int, j: int)
    requires
        0 <= i <= j <= s.len(),
    ensures
        size_sum(s.take(i)) <= size_sum(s.take(j)),
    decreases j - i,
{
    if i < j {
        lemma_size_sum_step(s, j - 1);
        lemma_size_sum_monotonic(s, i, j - 1);
    }
}

/// The values that `instantiate` places do not overlap and lie inside the region: the value at
/// index `i` ends where or before the value at a later index `j` begins, and the last one ends
/// within the sum of all sizes.
pub proof fn lemma_values_disjoint(sizes: Seq<usize>, i: int, j: int)
    requires
        0 <= i < j <= sizes.len(),
    ensures
        spec_value_offset(sizes, i) + sizes[i] <= spec_value_offset(sizes, j),
        spec_value_offset(sizes, j) <= size_sum(sizes),
        0 <= spec_value_offset(sizes, i),
{
    lemma_size_sum_step(sizes, i);
    lemma_size_sum_monotonic(sizes, i + 1, j);
    lemma_size_sum_monotonic(sizes, j, sizes.len() as int);
    lemma_size_sum_monotonic(sizes, 0, i);
    assert(sizes.take(sizes.len() as int) =~= sizes);
    assert(sizes.take(0) =~= Seq::<usize>::empty());
}

/// Lays out the values of `list` one after another (`instantiate`): the capacity is the sum of
/// the sizes (a left fold of `GetSizeFold`), and the values are placed from the end of the
/// region down (a right fold of `InitFold`), so that the constant at index `i` sits at the sum
/// of the sizes before it. Slot `k` holds the value of the constant at index `n - 1 - k`.
pub fn instantiate<T, F: Fn() -> T>(list: &Vec<Const<T, F>>) -> (res: Instance<T>)
    requires
        size_sum(const_sizes(list@)) <= isize::MAX,
        forall|i: int| 0 <= i < list@.len() ==> call_requires(#[trigger] list@[i]@.init, ()),
    ensures
        res.capacity == size_sum(const_sizes(list@)),
        res.slots@.len() == list@.len(),
        forall|k: int|
            0 <= k < list@.len() ==> #[trigger] res.slots@[k].0 == spec_value_offset(
                const_sizes(list@),
                list@.len() - 1 - k,
            ),
        forall|k: int|
            0 <= k < list@.len() ==> call_ensures(
                list@[list@.len() - 1 - k]@.init,
                (),
                #[trigger] res.slots@[k].1,
            ),
        forall|k: int|
            0 <= k < list@.len() ==> #[trigger] res.slots@[k].0 + list@[list@.len() - 1 - k]@.size
                <= res.capacity,
{
    let n = list.len();
    let ghost sizes = const_sizes(list@);
    assert(sizes.take(n as int) =~= sizes);
    assert(sizes.take(0) =~= Seq::<usize>::empty());
    let get_size = GetSizeFold;
    let mut capacity: usize = 0;
    for i in 0..n
        invariant
            n == list@.len(),
            sizes == const_sizes(list@),
            sizes.take(n as int) == sizes,
            size_sum(sizes) <= isize::MAX,
            capacity == size_sum(sizes.take(i as int)),
    {
        proof {
            lemma_size_sum_step(sizes, i as int);
            lemma_size_sum_monotonic(sizes, i + 1, n as int);
        }
        assert(sizes[i as int] == list@[i as int]@.size);
        capacity = get_size.call_once(capacity, &list[i]);
    }
    let init = InitFold;
    let mut slots: Vec<(usize, T)> = Vec::new();
    let mut offset: usize = capacity;
    let mut k: usize = n;
    while k > 0
        invariant
            n == list@.len(),
            k <= n,
            sizes == const_sizes(list@),
            offset == size_sum(sizes.take(k as int)),
            slots@.len() == n - k,
            forall|i: int| 0 <= i < list@.len() ==> call_requires(#[trigger] list@[i]@.init, ()),
            forall|j: int|
                0 <= j < n - k ==> #[trigger] slots@[j].0 == spec_value_offset(sizes, n - 1 - j),
            forall|j: int| 0 <= j < n - k ==> call_ensures(list@[n - 1 - j]@.init, (), #[trigger] slots@[j].1),
        decreases k,
    {
        proof {
            lemma_size_sum_step(sizes, k - 1);
            lemma_size_sum_monotonic(sizes, 0, k - 1);
            assert(sizes.take(0) =~= Seq::<usize>::empty());
        }
        assert(sizes[k - 1] == list@[k - 1]@.size);
        k = k - 1;
        let ghost before = slots@;
        offset = init.call_once(&list[k], offset, &mut slots);
        assert forall|j: int| 0 <= j < n - k implies #[trigger] slots@[j].0 == spec_value_offset(sizes, n - 1 - j) by {
            if j < n - k - 1 {
                assert(slots@[j] == slots@.subrange(0, before.len() as int)[j]);
            }
        }
        assert forall|j: int| 0 <= j < n - k implies call_ensures(
            list@[n - 1 - j]@.init,
            (),
            #[trigger] slots@[j].1,
        ) by {
            if j < n - k - 1 {
                assert(slots@[j] == slots@.subrange(0, before.len() as int)[j]);
            } else {
                assert(slots@[j] == slots@.last());
            }
        }
    }
    assert forall|k: int| 0 <= k < n implies #[trigger] slots@[k].0 + list@[n - 1 - k]@.size <= capacity by {
        let i = n - 1 - k;
        lemma_size_sum_step(sizes, i);
        lemma_size_sum_monotonic(sizes, i + 1, n as int);
        assert(sizes[i] == list@[i]@.size);
    }
    Instance { capacity, slots }
}

} // verus!
