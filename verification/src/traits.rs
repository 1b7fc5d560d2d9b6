use vstd::prelude::*;

use crate::hlist::{concat, into_reverse};
use crate::path::Path;

verus! {

/// `Append`: the concatenation, reversed.
pub open spec fn spec_append<E>(a: Seq<E>, b: Seq<E>) -> Seq<E> {
    (a + b).reverse()
}

/// Appends `other` to `list` and reverses the result.
pub fn append<E>(list: Vec<E>, other: Vec<E>) -> (res: Vec<E>)
    ensures
        res@ == spec_append(list@, other@),
{
    into_reverse(concat(list, other))
}

/// `r` is a result of folding `s` from the left with `f`, starting from `acc`:
/// `f(... f(f(acc, s[0]), s[1]) ..., s[n-1])`.
pub open spec fn folds_left<E, A, F: Fn(A, E) -> A>(f: F, acc: A, s: Seq<E>, r: A) -> bool
    decreases s.len(),
{
    if s.len() == 0 {
        r == acc
    } else {
        exists|mid: A| #[trigger] call_ensures(f, (acc, s[0]), mid) && folds_left(f, mid, s.drop_first(), r)
    }
}

/// `r` is a result of folding `s` from the right with `f`, starting from `init`:
/// `f(s[0], f(s[1], ... f(s[n-1], init)))`.
pub open spec fn folds_right<E, A, F: Fn(E, A) -> A>(f: F, init: A, s: Seq<E>, r: A) -> bool
    decreases s.len(),
{
    if s.len() == 0 {
        r == init
    } else {
        exists|mid: A| folds_right(f, init, s.drop_first(), mid) && #[trigger] call_ensures(f, (s[0], mid), r)
    }
}

/// `r` is a result of mapping `s` with `f` the way `Map` does: the image of the tail,
/// followed by the image of the head, so `f(s[n-1]) ++ ... ++ f(s[0])`.
pub open spec fn maps_to<E, U, F: Fn(E) -> Vec<U>>(f: F, s: Seq<E>, r: Seq<U>) -> bool
    decreases s.len(),
{
    if s.len() == 0 {
        r == Seq::<U>::empty()
    } else {
        exists|mid: Seq<U>, out: Vec<U>|
            maps_to(f, s.drop_first(), mid) && #[trigger] map_step(f, s[0], mid, out, r)
    }
}

/// One step of `Map`: `out` is an image of `e` under `f`, placed after `mid` to give `r`.
pub open spec fn map_step<E, U, F: Fn(E) -> Vec<U>>(f: F, e: E, mid: Seq<U>, out: Vec<U>, r: Seq<U>) -> bool {
    call_ensures(f, (e,), out) && r == mid + out@
}

/// Folds the list from the left (`FoldL`): the head is combined with the accumulator first.
pub fn foldl<E, A, F: Fn(A, E) -> A>(list: Vec<E>, folder: F, acc: A) -> (res: A)
    requires
        forall|a: A, e: E| call_requires(folder, (a, e)),
    ensures
        folds_left(folder, acc, list@, res),
    decreases list@.len(),
{
    let mut list = list;
    if list.len() == 0 {
        acc
    } else {
        let ghost s = list@;
        let head = list.remove(0);
        let mid = folder(acc, head);
        let res = foldl(list, folder, mid);
        assert(s.drop_first() == list@);
        assert(call_ensures(folder, (acc, s[0]), mid));
        res
    }
}

/// Folds the list from the right (`FoldR`): the tail is folded first, then the head is combined
/// with its result.
pub fn foldr<E, A, F: Fn(E, A) -> A>(list: Vec<E>, folder: F, init: A) -> (res: A)
    requires
        forall|e: E, a: A| call_requires(folder, (e, a)),
    ensures
        folds_right(folder, init, list@, res),
{
    foldr_by_ref(list, &folder, init)
}

fn foldr_by_ref<E, A, F: Fn(E, A) -> A>(list: Vec<E>, folder: &F, init: A) -> (res: A)
    requires
        forall|e: E, a: A| call_requires(*folder, (e, a)),
    ensures
        folds_right(*folder, init, list@, res),
    decreases list@.len(),
{
    let mut list = list;
    if list.len() == 0 {
        init
    } else {
        let ghost s = list@;
        let head = list.remove(0);
        assert(s.drop_first() == list@);
        let folded_tail = foldr_by_ref(list, folder, init);
        let res = folder(head, folded_tail);
        assert(call_ensures(*folder, (s[0], folded_tail), res));
        res
    }
}

/// Maps the list (`Map`): the mapped tail followed by the image of the head.
pub fn map<E, U, F: Fn(E) -> Vec<U>>(list: Vec<E>, f: F) -> (res: Vec<U>)
    requires
        forall|e: E| call_requires(f, (e,)),
    ensures
        maps_to(f, list@, res@),
{
    map_by_ref(list, &f)
}

fn map_by_ref<E, U, F: Fn(E) -> Vec<U>>(list: Vec<E>, f: &F) -> (res: Vec<U>)
    requires
        forall|e: E| call_requires(*f, (e,)),
    ensures
        maps_to(*f, list@, res@),
    decreases list@.len(),
{
    let mut list = list;
    if list.len() == 0 {
        let e: Vec<U> = Vec::new();
        assert(maps_to(*f, list@, e@));
        e
    } else {
        let ghost s = list@;
        let head = list.remove(0);
        assert(s.drop_first() == list@);
        let mapped_tail = map_by_ref(list, f);
        let image = f(head);
        let ghost mt = mapped_tail@;
        let ghost img = image;
        let res = concat(mapped_tail, image);
        assert(map_step(*f, s[0], mt, img, res@));
        res
    }
}

/// `Append` keeps every element of both lists, each as often as before.
pub proof fn lemma_append_permutes<E>(a: Seq<E>, b: Seq<E>)
    ensures
        spec_append(a, b).to_multiset() == (a + b).to_multiset(),
        spec_append(a, b).len() == a.len() + b.len(),
{
    (a + b).lemma_reverse_to_multiset();
}

/// A left fold over a concatenation is the fold over the second list, started from a result
/// of the fold over the first.
pub proof fn lemma_folds_left_concat<E, A, F: Fn(A, E) -> A>(f: F, acc: A, a: Seq<E>, b: Seq<E>, r: A)
    ensures
        folds_left(f, acc, a + b, r) <==> exists|mid: A|
            #![trigger folds_left(f, acc, a, mid)]
            folds_left(f, acc, a, mid) && folds_left(f, mid, b, r),
    decreases a.len(),
{
    if a.len() == 0 {
        assert(a + b =~= b);
        if folds_left(f, acc, a + b, r) {
            assert(folds_left(f, acc, a, acc));
        }
    } else {
        assert((a + b).drop_first() =~= a.drop_first() + b);
        assert((a + b)[0] == a[0]);
        if folds_left(f, acc, a + b, r) {
            let m1 = choose|m1: A| #[trigger] call_ensures(f, (acc, a[0]), m1) && folds_left(f, m1, a.drop_first() + b, r);
            lemma_folds_left_concat(f, m1, a.drop_first(), b, r);
            let mid = choose|mid: A| #[trigger] folds_left(f, m1, a.drop_first(), mid) && folds_left(f, mid, b, r);
            assert(folds_left(f, acc, a, mid));
        }
        if exists|mid: A| #![trigger folds_left(f, acc, a, mid)] folds_left(f, acc, a, mid) && folds_left(f, mid, b, r) {
            let mid = choose|mid: A| #![trigger folds_left(f, acc, a, mid)] folds_left(f, acc, a, mid) && folds_left(f, mid, b, r);
            let m1 = choose|m1: A| #[trigger] call_ensures(f, (acc, a[0]), m1) && folds_left(f, m1, a.drop_first(), mid);
            lemma_folds_left_concat(f, m1, a.drop_first(), b, r);
            assert(folds_left(f, m1, a.drop_first() + b, r));
        }
    }
}

/// A right fold over a concatenation is the fold over the first list, started from a result
/// of the fold over the second.
pub proof fn lemma_folds_right_concat<E, A, F: Fn(E, A) -> A>(f: F, init: A, a: Seq<E>, b: Seq<E>, r: A)
    ensures
        folds_right(f, init, a + b, r) <==> exists|mid: A|
            #![trigger folds_right(f, init, b, mid)]
            folds_right(f, init, b, mid) && folds_right(f, mid, a, r),
    decreases a.len(),
{
    if a.len() == 0 {
        assert(a + b =~= b);
        if folds_right(f, init, a + b, r) {
            assert(folds_right(f, r, a, r));
        }
    } else {
        assert((a + b).drop_first() =~= a.drop_first() + b);
        assert((a + b)[0] == a[0]);
        if folds_right(f, init, a + b, r) {
            let m1 = choose|m1: A| folds_right(f, init, a.drop_first() + b, m1) && #[trigger] call_ensures(f, (a[0], m1), r);
            lemma_folds_right_concat(f, init, a.drop_first(), b, m1);
            let mid = choose|mid: A| #[trigger] folds_right(f, init, b, mid) && folds_right(f, mid, a.drop_first(), m1);
            assert(folds_right(f, mid, a, r));
        }
        if exists|mid: A| #![trigger folds_right(f, init, b, mid)] folds_right(f, init, b, mid) && folds_right(f, mid, a, r) {
            let mid = choose|mid: A| #![trigger folds_right(f, init, b, mid)] folds_right(f, init, b, mid) && folds_right(f, mid, a, r);
            let m1 = choose|m1: A| folds_right(f, mid, a.drop_first(), m1) && #[trigger] call_ensures(f, (a[0], m1), r);
            lemma_folds_right_concat(f, init, a.drop_first(), b, m1);
            assert(folds_right(f, init, a.drop_first() + b, m1));
        }
    }
}

/// `Map` over a concatenation: the image of the second list, then that of the first.
pub proof fn lemma_maps_to_concat<E, U, F: Fn(E) -> Vec<U>>(f: F, a: Seq<E>, b: Seq<E>, r: Seq<U>)
    ensures
        maps_to(f, a + b, r) <==> exists|ra: Seq<U>, rb: Seq<U>|
            #![trigger maps_to(f, a, ra), maps_to(f, b, rb)]
            maps_to(f, a, ra) && maps_to(f, b, rb) && r == rb + ra,
    decreases a.len(),
{
    if a.len() == 0 {
        assert(a + b =~= b);
        if maps_to(f, a + b, r) {
            assert(maps_to(f, a, Seq::<U>::empty()));
            assert(r =~= r + Seq::<U>::empty());
        }
        if exists|ra: Seq<U>, rb: Seq<U>|
            #![trigger maps_to(f, a, ra), maps_to(f, b, rb)]
            maps_to(f, a, ra) && maps_to(f, b, rb) && r == rb + ra {
            let (ra, rb) = choose|ra: Seq<U>, rb: Seq<U>|
                #![trigger maps_to(f, a, ra), maps_to(f, b, rb)]
                maps_to(f, a, ra) && maps_to(f, b, rb) && r == rb + ra;
            assert(r =~= rb);
        }
    } else {
        assert((a + b).drop_first() =~= a.drop_first() + b);
        assert((a + b)[0] == a[0]);
        if maps_to(f, a + b, r) {
            let (mid, out) = choose|mid: Seq<U>, out: Vec<U>|
                maps_to(f, (a + b).drop_first(), mid) && #[trigger] map_step(f, (a + b)[0], mid, out, r);
            lemma_maps_to_concat(f, a.drop_first(), b, mid);
            let (ra1, rb) = choose|ra1: Seq<U>, rb: Seq<U>|
                #![trigger maps_to(f, a.drop_first(), ra1), maps_to(f, b, rb)]
                maps_to(f, a.drop_first(), ra1) && maps_to(f, b, rb) && mid == rb + ra1;
            assert(map_step(f, a[0], ra1, out, ra1 + out@));
            assert(maps_to(f, a, ra1 + out@));
            assert(r =~= rb + (ra1 + out@));
        }
        if exists|ra: Seq<U>, rb: Seq<U>|
            #![trigger maps_to(f, a, ra), maps_to(f, b, rb)]
            maps_to(f, a, ra) && maps_to(f, b, rb) && r == rb + ra {
            let (ra, rb) = choose|ra: Seq<U>, rb: Seq<U>|
                #![trigger maps_to(f, a, ra), maps_to(f, b, rb)]
                maps_to(f, a, ra) && maps_to(f, b, rb) && r == rb + ra;
            let (ra1, out) = choose|ra1: Seq<U>, out: Vec<U>|
                maps_to(f, a.drop_first(), ra1) && #[trigger] map_step(f, a[0], ra1, out, ra);
            lemma_maps_to_concat(f, a.drop_first(), b, rb + ra1);
            assert(maps_to(f, a.drop_first() + b, rb + ra1));
            assert(map_step(f, (a + b)[0], rb + ra1, out, r)) by {
                assert(r =~= (rb + ra1) + out@);
            }
        }
    }
}

/// The view of a list of path-tagged entries: each path by its segment names.
pub open spec fn entries_view<T>(s: Seq<(Path, T)>) -> Seq<(Seq<Seq<char>>, T)> {
    s.map_values(|e: (Path, T)| (e.0@, e.1))
}

/// The entries with `c` put in front of each path (`C + P` for an entry at `P`).
pub open spec fn spec_prefixed<T>(c: Seq<Seq<char>>, s: Seq<(Seq<Seq<char>>, T)>) -> Seq<
    (Seq<Seq<char>>, T),
> {
    s.map_values(|e: (Seq<Seq<char>>, T)| (c + e.0, e.1))
}

/// `AsChild<C>` step by step, as its impls compute it: the tail is made a child of `c`, the head (with `c`
/// in front of its path) is appended after it, and the whole is reversed.
pub open spec fn spec_as_child_steps<T>(c: Seq<Seq<char>>, s: Seq<(Seq<Seq<char>>, T)>) -> Seq<
    (Seq<Seq<char>>, T),
>
    decreases s.len(),
{
    if s.len() == 0 {
        Seq::empty()
    } else {
        spec_as_child_steps(c, s.drop_first()).push((c + s[0].0, s[0].1)).reverse()
    }
}

proof fn lemma_entries_view_reverse<T>(v: Seq<(Path, T)>)
    ensures
        entries_view(v.reverse()) == entries_view(v).reverse(),
{
    assert(entries_view(v.reverse()) =~= entries_view(v).reverse());
}

fn as_child_steps<T>(prefix: &Path, list: Vec<(Path, T)>) -> (res: Vec<(Path, T)>)
    ensures
        entries_view(res@) == spec_as_child_steps(prefix@, entries_view(list@)),
    decreases list@.len(),
{
    let mut list = list;
    if list.len() == 0 {
        let e: Vec<(Path, T)> = Vec::new();
        assert(entries_view(e@) =~= Seq::<(Seq<Seq<char>>, T)>::empty());
        e
    } else {
        let ghost s = list@;
        let (p, v) = list.remove(0);
        assert(entries_view(list@) =~= entries_view(s).drop_first());
        let mut rest = as_child_steps(prefix, list);
        let ghost rv = rest@;
        let np = prefix.join(&p);
        rest.push((np, v));
        assert(entries_view(rest@) =~= entries_view(rv).push((prefix@ + p@, v)));
        let ghost pushed = rest@;
        let res = into_reverse(rest);
        proof {
            lemma_entries_view_reverse(pushed);
        }
        res
    }
}

proof fn lemma_as_child_steps_len<T>(c: Seq<Seq<char>>, s: Seq<(Seq<Seq<char>>, T)>)
    ensures
        spec_as_child_steps(c, s).len() == s.len(),
    decreases s.len(),
{
    if s.len() > 0 {
        lemma_as_child_steps_len(c, s.drop_first());
    }
}

/// Two steps of `AsChild`: the first entry comes first, the second comes last, and the rest
/// is made a child in between.
proof fn lemma_as_child_two_steps<T>(c: Seq<Seq<char>>, s: Seq<(Seq<Seq<char>>, T)>)
    requires
        s.len() >= 2,
    ensures
        spec_as_child_steps(c, s) == seq![(c + s[0].0, s[0].1)] + spec_as_child_steps(c, s.skip(2)) + seq![
            (c + s[1].0, s[1].1),
        ],
{
    let t = s.drop_first();
    assert(t.drop_first() =~= s.skip(2));
    let inner = spec_as_child_steps(c, s.skip(2));
    let at = spec_as_child_steps(c, t);
    assert(at == inner.push((c + t[0].0, t[0].1)).reverse());
    assert(at.reverse() =~= inner.push((c + s[1].0, s[1].1)));
    assert(spec_as_child_steps(c, s) =~= seq![(c + s[0].0, s[0].1)] + spec_as_child_steps(c, s.skip(2)) + seq![
        (c + s[1].0, s[1].1),
    ]);
}

/// The entries at even positions (0, 2, 4, ...), in order.
pub open spec fn spec_even_positions<A>(s: Seq<A>) -> Seq<A> {
    Seq::new(((s.len() + 1) / 2) as nat, |i: int| s[2 * i])
}

/// The entries at odd positions (1, 3, 5, ...), in order.
pub open spec fn spec_odd_positions<A>(s: Seq<A>) -> Seq<A> {
    Seq::new((s.len() / 2) as nat, |i: int| s[2 * i + 1])
}

/// `AsChild` as a whole: the entries with `c` put in front of each path, those at even
/// positions in order, then those at odd positions in reverse order.
pub open spec fn spec_as_child<T>(c: Seq<Seq<char>>, s: Seq<(Seq<Seq<char>>, T)>) -> Seq<
    (Seq<Seq<char>>, T),
> {
    spec_even_positions(spec_prefixed(c, s)) + spec_odd_positions(spec_prefixed(c, s)).reverse()
}

/// The step-by-step computation of `AsChild` gives exactly that order.
#[verifier::spinoff_prover]
#[verifier::rlimit(40)]
pub proof fn lemma_as_child_order<T>(c: Seq<Seq<char>>, s: Seq<(Seq<Seq<char>>, T)>)
    ensures
        spec_as_child_steps(c, s) == spec_as_child(c, s),
    decreases s.len(),
{
    let ps = spec_prefixed(c, s);
    if s.len() == 0 {
        assert(spec_even_positions(ps) + spec_odd_positions(ps).reverse() =~= Seq::<
            (Seq<Seq<char>>, T),
        >::empty());
    } else if s.len() == 1 {
        assert(s.drop_first() =~= Seq::<(Seq<Seq<char>>, T)>::empty());
        let e = (c + s[0].0, s[0].1);
        assert(spec_as_child_steps(c, s.drop_first()) == Seq::<(Seq<Seq<char>>, T)>::empty());
        assert(Seq::<(Seq<Seq<char>>, T)>::empty().push(e) =~= seq![e]);
        assert(seq![e].reverse() =~= seq![e]);
        assert(spec_as_child_steps(c, s) =~= seq![e]);
        assert(spec_even_positions(ps) + spec_odd_positions(ps).reverse() =~= seq![
            (c + s[0].0, s[0].1),
        ]);
    } else {
        let r = s.skip(2);
        lemma_as_child_two_steps(c, s);
        lemma_as_child_order(c, r);
        let pr = spec_prefixed(c, r);
        assert(pr =~= ps.skip(2));
        assert(spec_even_positions(ps) =~= seq![ps[0]] + spec_even_positions(pr));
        assert(spec_odd_positions(ps).reverse() =~= spec_odd_positions(pr).reverse() + seq![ps[1]]);
        assert(spec_as_child_steps(c, s) =~= spec_even_positions(ps) + spec_odd_positions(ps).reverse());
    }
}

/// With the root as prefix, the prefixed entries are the entries themselves.
pub proof fn lemma_prefixed_root<T>(s: Seq<(Seq<Seq<char>>, T)>)
    ensures
        spec_prefixed(Seq::empty(), s) == s,
{
    assert forall|i: int| 0 <= i < s.len() implies #[trigger] spec_prefixed(Seq::empty(), s)[i] == s[i] by {
        assert(Seq::<Seq<char>>::empty() + s[i].0 =~= s[i].0);
    }
    assert(spec_prefixed(Seq::empty(), s) =~= s);
}

proof fn lemma_as_child_steps_permute<T>(c: Seq<Seq<char>>, s: Seq<(Seq<Seq<char>>, T)>)
    ensures
        spec_as_child_steps(c, s).to_multiset() == spec_prefixed(c, s).to_multiset(),
    decreases s.len(),
{
    broadcast use vstd::seq_lib::group_to_multiset_ensures;

    if s.len() > 0 {
        lemma_as_child_steps_permute(c, s.drop_first());
        let inner = spec_as_child_steps(c, s.drop_first());
        let e = (c + s[0].0, s[0].1);
        inner.push(e).lemma_reverse_to_multiset();
        let ps = spec_prefixed(c, s);
        assert(spec_prefixed(c, s.drop_first()) =~= ps.drop_first());
        assert(ps =~= seq![e] + ps.drop_first());
        vstd::seq_lib::lemma_multiset_commutative(seq![e], ps.drop_first());
        vstd::seq_lib::lemma_multiset_commutative(ps.drop_first(), seq![e]);
        assert(ps.drop_first() + seq![e] =~= ps.drop_first().push(e));
    }
}

/// Makes every entry a child of `prefix` (`AsChild`): `prefix` is put in front of each path,
/// and the entries at even positions come first, in order, then those at odd positions, in
/// reverse order.
pub fn as_child<T>(prefix: &Path, list: Vec<(Path, T)>) -> (res: Vec<(Path, T)>)
    ensures
        entries_view(res@) == spec_as_child(prefix@, entries_view(list@)),
{
    proof {
        lemma_as_child_order(prefix@, entries_view(list@));
    }
    as_child_steps(prefix, list)
}

/// `AsChild` keeps the number of entries.
pub proof fn lemma_as_child_len<T>(c: Seq<Seq<char>>, s: Seq<(Seq<Seq<char>>, T)>)
    ensures
        spec_as_child(c, s).len() == s.len(),
{
    lemma_as_child_order(c, s);
    lemma_as_child_steps_len(c, s);
}

/// `AsChild` only reorders: the result holds the prefixed entries, each as often as before.
pub proof fn lemma_as_child_permutes<T>(c: Seq<Seq<char>>, s: Seq<(Seq<Seq<char>>, T)>)
    ensures
        spec_as_child(c, s).to_multiset() == spec_prefixed(c, s).to_multiset(),
{
    lemma_as_child_order(c, s);
    lemma_as_child_steps_permute(c, s);
}

/// One step of `FilterBy`: `kept` is the selector's answer for `e`; an accepted `e` is put
/// before the filtered rest `mid` and the two are reversed together (`append`), a refused one is
/// left out.
pub open spec fn filter_step<E, P: Fn(&E) -> bool>(keep: P, e: E, kept: bool, mid: Seq<E>, r: Seq<E>) -> bool {
    call_ensures(keep, (&e,), kept) && r == if kept {
        (seq![e] + mid).reverse()
    } else {
        mid
    }
}

/// `r` is a result of filtering `s` with the selector `keep` the way `FilterBy` does, from the
/// last entry back to the first.
pub open spec fn filters_to<E, P: Fn(&E) -> bool>(keep: P, s: Seq<E>, r: Seq<E>) -> bool
    decreases s.len(),
{
    if s.len() == 0 {
        r == Seq::<E>::empty()
    } else {
        exists|kept: bool, mid: Seq<E>|
            filters_to(keep, s.drop_first(), mid) && #[trigger] filter_step(keep, s[0], kept, mid, r)
    }
}

/// Filters the entries with a selector (`FilterBy`): an accepted head is put before the filtered
/// tail and the two are reversed together (`append`), as the trait's impl for an accepted head
/// does. The trait leaves the rest open (it has no impl for the end of a list, and its impl for
/// any other head calls itself); here a refused head is left out and the empty list gives the
/// empty list.
pub fn filter_by<E, P: Fn(&E) -> bool>(list: Vec<E>, keep: P) -> (res: Vec<E>)
    requires
        forall|e: E| call_requires(keep, (&e,)),
    ensures
        filters_to(keep, list@, res@),
{
    filter_by_ref(list, &keep)
}

/// Each step of `filter_by` is an `append`: the result for a non-empty list is, for the
/// selector's answer on the head and the filtered tail, `append([head], tail)` (the filtered
/// tail reversed, then the head) where the head is accepted, and the filtered tail where it
/// is refused.
pub proof fn lemma_filter_by_appends<E, P: Fn(&E) -> bool>(keep: P, s: Seq<E>, r: Seq<E>)
    requires
        filters_to(keep, s, r),
        s.len() > 0,
    ensures
        exists|kept: bool, mid: Seq<E>|
            #![trigger filters_to(keep, s.drop_first(), mid), call_ensures(keep, (&s[0],), kept)]
            filters_to(keep, s.drop_first(), mid) && call_ensures(keep, (&s[0],), kept) && if kept {
                r == spec_append(seq![s[0]], mid) && r == mid.reverse().push(s[0])
            } else {
                r == mid
            },
{
    let (kept, mid) = choose|kept: bool, mid: Seq<E>|
        filters_to(keep, s.drop_first(), mid) && #[trigger] filter_step(keep, s[0], kept, mid, r);
    if kept {
        assert((seq![s[0]] + mid).reverse() =~= mid.reverse().push(s[0]));
    }
    assert(call_ensures(keep, (&s[0],), kept));
}

/// A list with no entry filters to the empty list.
pub proof fn lemma_filter_by_empty<E, P: Fn(&E) -> bool>(keep: P, r: Seq<E>)
    requires
        filters_to(keep, Seq::<E>::empty(), r),
    ensures
        r == Seq::<E>::empty(),
{
}

fn filter_by_ref<E, P: Fn(&E) -> bool>(list: Vec<E>, keep: &P) -> (res: Vec<E>)
    requires
        forall|e: E| call_requires(*keep, (&e,)),
    ensures
        filters_to(*keep, list@, res@),
    decreases list@.len(),
{
    let mut list = list;
    if list.len() == 0 {
        let e: Vec<E> = Vec::new();
        assert(filters_to(*keep, list@, e@));
        e
    } else {
        let ghost s = list@;
        let head = list.remove(0);
        assert(s.drop_first() == list@);
        let kept = keep(&head);
        let rest = filter_by_ref(list, keep);
        let ghost mid = rest@;
        let ghost h = head;
        let res = if kept {
            let mut single: Vec<E> = Vec::new();
            single.push(head);
            append(single, rest)
        } else {
            rest
        };
        assert(filter_step(*keep, s[0], kept, mid, res@)) by {
            if kept {
                assert(seq![h] + mid =~= seq![h] + mid);
            }
        }
        res
    }
}

} // verus!
