use vstd::prelude::*;

verus! {

/// Concatenation of two lists (`HList + HList`): the elements of `a`, then those of `b`.
pub open spec fn spec_concat<E>(a: Seq<E>, b: Seq<E>) -> Seq<E> {
    a + b
}

/// Concatenates two lists: every element of `a`, then every element of `b`.
pub fn concat<E>(a: Vec<E>, b: Vec<E>) -> (res: Vec<E>)
    ensures
        res@ == spec_concat(a@, b@),
{
    let mut a = a;
    let mut b = b;
    a.append(&mut b);
    a
}

/// Reverses a list (`IntoReverse`).
pub fn into_reverse<E>(list: Vec<E>) -> (res: Vec<E>)
    ensures
        res@ == list@.reverse(),
{
    let mut src = list;
    let mut out: Vec<E> = Vec::new();
    let ghost orig = src@;
    while src.len() > 0
        invariant
            src@ == orig.subrange(0, src@.len() as int),
            out@.len() + src@.len() == orig.len(),
            forall|i: int| 0 <= i < out@.len() ==> #[trigger] out@[i] == orig[orig.len() - 1 - i],
        decreases src@.len(),
    {
        let x = src.pop().unwrap();
        out.push(x);
    }
    assert(out@ =~= orig.reverse());
    out
}

/// Reversing twice gives the list back.
pub proof fn lemma_reverse_involutive<E>(s: Seq<E>)
    ensures
        s.reverse().reverse() == s,
{
    assert(s.reverse().reverse() =~= s);
}

/// Reversing a concatenation concatenates the reversed lists the other way round.
pub proof fn lemma_reverse_concat<E>(a: Seq<E>, b: Seq<E>)
    ensures
        spec_concat(a, b).reverse() == spec_concat(b.reverse(), a.reverse()),
{
    assert(spec_concat(a, b).reverse() =~= spec_concat(b.reverse(), a.reverse()));
}

/// Concatenation is associative.
pub proof fn lemma_concat_associative<E>(a: Seq<E>, b: Seq<E>, c: Seq<E>)
    ensures
        spec_concat(spec_concat(a, b), c) == spec_concat(a, spec_concat(b, c)),
{
    assert(spec_concat(spec_concat(a, b), c) =~= spec_concat(a, spec_concat(b, c)));
}

} // verus!
