//! Generic Cartesian-product composition: all ways of picking one
//! element from each of several input lists, built as a left fold.

use vstd::prelude::*;

verus! {

/// The views of a list of vectors.
pub open spec fn seqs_view<T>(v: Seq<Vec<T>>) -> Seq<Seq<T>> {
    v.map_values(|x: Vec<T>| x@)
}

/// The tuple `x` extended by each element of `b` in turn.
pub open spec fn append_each<T>(x: Seq<T>, b: Seq<T>) -> Seq<Seq<T>> {
    b.map_values(|y: T| x.push(y))
}

/// One single-element tuple per element of `b`.
pub open spec fn singleton_tuples<T>(b: Seq<T>) -> Seq<Seq<T>> {
    b.map_values(|y: T| seq![y])
}

/// The partial product `a` extended by the list `b`: every tuple of `a`,
/// in order, extended by every element of `b`, in order.
pub open spec fn partial_cartesian_spec<T>(a: Seq<Seq<T>>, b: Seq<T>) -> Seq<Seq<T>>
    decreases a.len(),
{
    if a.len() == 0 {
        Seq::empty()
    } else {
        partial_cartesian_spec(a.drop_last(), b) + append_each(a.last(), b)
    }
}

/// The product of the lists, folded from the left: one tuple per way of
/// picking one element from each list. No input lists give no tuples,
/// and any empty input list collapses the whole product to empty.
pub open spec fn cartesian_product_spec<T>(lists: Seq<Seq<T>>) -> Seq<Seq<T>>
    decreases lists.len(),
{
    if lists.len() == 0 {
        Seq::empty()
    } else if lists.len() == 1 {
        singleton_tuples(lists[0])
    } else {
        partial_cartesian_spec(cartesian_product_spec(lists.drop_last()), lists.last())
    }
}

/// The product of the lists' lengths; the size the product must have.
pub open spec fn sizes_product<T>(lists: Seq<Seq<T>>) -> nat
    decreases lists.len(),
{
    if lists.len() == 0 {
        1
    } else {
        sizes_product(lists.drop_last()) * lists.last().len()
    }
}

/// A partial product has one tuple per pair of an `a` tuple and a `b`
/// element.
pub proof fn lemma_partial_cartesian_len<T>(a: Seq<Seq<T>>, b: Seq<T>)
    ensures
        partial_cartesian_spec(a, b).len() == a.len() * b.len(),
    decreases a.len(),
{
    if a.len() > 0 {
        lemma_partial_cartesian_len(a.drop_last(), b);
        assert((a.len() - 1) * b.len() + b.len() == a.len() * b.len()) by (nonlinear_arith);
    }
}

/// The size of the whole product is the product of the input sizes.
pub proof fn lemma_cartesian_product_len<T>(lists: Seq<Seq<T>>)
    requires
        lists.len() > 0,
    ensures
        cartesian_product_spec(lists).len() == sizes_product(lists),
    decreases lists.len(),
{
    if lists.len() == 1 {
        assert(lists.drop_last().len() == 0);
        assert(lists.last() == lists[0]);
        assert(sizes_product(lists.drop_last()) == 1);
        assert(cartesian_product_spec(lists).len() == lists[0].len());
        assert(sizes_product(lists) == 1 * lists[0].len());
    } else {
        lemma_cartesian_product_len(lists.drop_last());
        lemma_partial_cartesian_len(cartesian_product_spec(lists.drop_last()), lists.last());
        assert(cartesian_product_spec(lists) == partial_cartesian_spec(
            cartesian_product_spec(lists.drop_last()),
            lists.last(),
        ));
        assert(cartesian_product_spec(lists).len() == sizes_product(lists.drop_last())
            * lists.last().len());
    }
}

/// Every tuple of a partial product is an `a` tuple extended by a `b`
/// element.
pub proof fn lemma_partial_cartesian_element<T>(a: Seq<Seq<T>>, b: Seq<T>, k: int)
    requires
        0 <= k < partial_cartesian_spec(a, b).len(),
    ensures
        exists|i: int, j: int|
            0 <= i < a.len() && 0 <= j < b.len() && partial_cartesian_spec(a, b)[k] == a[i].push(
                b[j],
            ),
    decreases a.len(),
{
    let p = partial_cartesian_spec(a.drop_last(), b);
    if k < p.len() {
        lemma_partial_cartesian_element(a.drop_last(), b, k);
        let (i0, j0) = choose|i0: int, j0: int|
            0 <= i0 < a.drop_last().len() && 0 <= j0 < b.len() && p[k] == a.drop_last()[i0].push(
                b[j0],
            );
        assert(a.drop_last()[i0] == a[i0]);
        assert(partial_cartesian_spec(a, b)[k] == a[i0].push(b[j0]));
    } else {
        let j0 = k - p.len();
        assert(partial_cartesian_spec(a, b)[k] == append_each(a.last(), b)[j0]);
        assert(append_each(a.last(), b)[j0] == a.last().push(b[j0]));
        assert(a.last() == a[a.len() - 1]);
    }
}

/// Every tuple of the product picks one element from each input list:
/// it is as long as the list of lists, and whatever holds of every
/// element of the `i`-th list holds of its `i`-th entry.
pub proof fn lemma_cartesian_product_element<T>(
    lists: Seq<Seq<T>>,
    p: spec_fn(int, T) -> bool,
    k: int,
)
    requires
        forall|i: int, x: T| 0 <= i < lists.len() && #[trigger] lists[i].contains(x) ==> p(i, x),
        0 <= k < cartesian_product_spec(lists).len(),
    ensures
        cartesian_product_spec(lists)[k].len() == lists.len(),
        forall|i: int| 0 <= i < lists.len() ==> p(i, #[trigger] cartesian_product_spec(lists)[k][i]),
    decreases lists.len(),
{
    if lists.len() == 0 {
        // the product is empty; nothing to show
    } else if lists.len() == 1 {
        assert(cartesian_product_spec(lists)[k] == seq![lists[0][k]]);
        assert(lists[0].contains(lists[0][k]));
    } else {
        let sub = cartesian_product_spec(lists.drop_last());
        let b = lists.last();
        lemma_partial_cartesian_element(sub, b, k);
        let (i0, j0) = choose|i0: int, j0: int|
            0 <= i0 < sub.len() && 0 <= j0 < b.len() && cartesian_product_spec(lists)[k]
                == sub[i0].push(b[j0]);
        assert forall|i: int, x: T|
            0 <= i < lists.drop_last().len() && #[trigger] lists.drop_last()[i].contains(
                x,
            ) implies p(i, x) by {
            assert(lists.drop_last()[i] == lists[i]);
            assert(lists[i].contains(x));
        }
        lemma_cartesian_product_element(lists.drop_last(), p, i0);
        let e = cartesian_product_spec(lists)[k];
        assert(e.len() == lists.len());
        assert(b.contains(b[j0]));
        assert forall|i: int| 0 <= i < lists.len() implies p(i, #[trigger] e[i]) by {
            if i < lists.len() - 1 {
                assert(e[i] == sub[i0][i]);
                assert(p(i, sub[i0][i]));
            } else {
                assert(e[i] == b[j0]);
            }
        }
    }
}

/// A fresh vector with the same elements.
pub(crate) fn copy_items<T: Copy>(v: &Vec<T>) -> (r: Vec<T>)
    ensures
        r@ == v@,
{
    let mut r: Vec<T> = Vec::new();
    let mut i: usize = 0;
    while i < v.len()
        invariant
            0 <= i <= v@.len(),
            r@ == v@.subrange(0, i as int),
        decreases v@.len() - i,
    {
        r.push(v[i]);
        proof {
            assert(r@ =~= v@.subrange(0, i + 1 as int));
        }
        i = i + 1;
    }
    proof {
        assert(r@ =~= v@);
    }
    r
}

/// Given a vector holding a partial Cartesian product and a list of
/// items, extend every tuple of the partial product by every item.
pub fn partial_cartesian<T: Copy>(a: Vec<Vec<T>>, b: &[T]) -> (r: Vec<Vec<T>>)
    ensures
        seqs_view(r@) == partial_cartesian_spec(seqs_view(a@), b@),
{
    let mut r: Vec<Vec<T>> = Vec::new();
    let mut i: usize = 0;
    while i < a.len()
        invariant
            0 <= i <= a@.len(),
            seqs_view(r@) == partial_cartesian_spec(seqs_view(a@).subrange(0, i as int), b@),
        decreases a@.len() - i,
    {
        let mut j: usize = 0;
        while j < b.len()
            invariant
                0 <= i < a@.len(),
                0 <= j <= b@.len(),
                seqs_view(r@) == partial_cartesian_spec(seqs_view(a@).subrange(0, i as int), b@)
                    + append_each(a@[i as int]@, b@.subrange(0, j as int)),
            decreases b@.len() - j,
        {
            let mut t = copy_items(&a[i]);
            t.push(b[j]);
            let ghost prev = r@;
            r.push(t);
            proof {
                assert(t@ == a@[i as int]@.push(b@[j as int]));
                assert(append_each(a@[i as int]@, b@.subrange(0, j + 1 as int)) =~= append_each(
                    a@[i as int]@,
                    b@.subrange(0, j as int),
                ).push(a@[i as int]@.push(b@[j as int])));
                assert(seqs_view(r@) =~= seqs_view(prev).push(t@));
                assert(seqs_view(r@) =~= partial_cartesian_spec(
                    seqs_view(a@).subrange(0, i as int),
                    b@,
                ) + append_each(a@[i as int]@, b@.subrange(0, j + 1 as int)));
            }
            j = j + 1;
        }
        proof {
            assert(b@.subrange(0, b@.len() as int) =~= b@);
            assert(seqs_view(a@).subrange(0, i + 1 as int).drop_last() =~= seqs_view(a@).subrange(
                0,
                i as int,
            ));
            assert(seqs_view(a@).subrange(0, i + 1 as int).last() == a@[i as int]@);
            assert(seqs_view(r@) =~= partial_cartesian_spec(
                seqs_view(a@).subrange(0, i + 1 as int),
                b@,
            ));
        }
        i = i + 1;
    }
    proof {
        assert(seqs_view(a@).subrange(0, a@.len() as int) =~= seqs_view(a@));
    }
    r
}

/// Computes the Cartesian product of the lists: one tuple per way of
/// picking an element from each list in turn. Callers should rely on
/// which tuples come out, not on their order, which is a fold artifact.
pub fn cartesian_product<T: Copy>(lists: Vec<Vec<T>>) -> (r: Vec<Vec<T>>)
    ensures
        seqs_view(r@) == cartesian_product_spec(seqs_view(lists@)),
{
    if lists.len() == 0 {
        let r: Vec<Vec<T>> = Vec::new();
        proof {
            assert(seqs_view(r@) =~= cartesian_product_spec(seqs_view(lists@)));
        }
        return r;
    }
    let mut acc: Vec<Vec<T>> = Vec::new();
    let first = &lists[0];
    let mut j: usize = 0;
    while j < first.len()
        invariant
            lists@.len() > 0,
            first == &lists[0],
            0 <= j <= first@.len(),
            seqs_view(acc@) == singleton_tuples(lists@[0]@.subrange(0, j as int)),
        decreases first@.len() - j,
    {
        let mut t: Vec<T> = Vec::new();
        t.push(first[j]);
        let ghost prev = acc@;
        acc.push(t);
        proof {
            assert(t@ =~= seq![lists@[0]@[j as int]]);
            assert(lists@[0]@.subrange(0, j + 1 as int) =~= lists@[0]@.subrange(0, j as int).push(
                lists@[0]@[j as int],
            ));
            assert(singleton_tuples(lists@[0]@.subrange(0, j + 1 as int)) =~= singleton_tuples(
                lists@[0]@.subrange(0, j as int),
            ).push(seq![lists@[0]@[j as int]]));
            assert(seqs_view(acc@) =~= seqs_view(prev).push(t@));
        }
        j = j + 1;
    }
    proof {
        assert(lists@[0]@.subrange(0, lists@[0]@.len() as int) =~= lists@[0]@);
        assert(seqs_view(lists@).subrange(0, 1) =~= seq![lists@[0]@]);
        assert(seqs_view(lists@).subrange(0, 1)[0] == lists@[0]@);
        assert(seqs_view(acc@) =~= cartesian_product_spec(seqs_view(lists@).subrange(0, 1)));
    }
    let mut i: usize = 1;
    while i < lists.len()
        invariant
            1 <= i <= lists@.len(),
            seqs_view(acc@) == cartesian_product_spec(seqs_view(lists@).subrange(0, i as int)),
        decreases lists@.len() - i,
    {
        acc = partial_cartesian(acc, lists[i].as_slice());
        proof {
            assert(seqs_view(lists@).subrange(0, i + 1 as int).drop_last() =~= seqs_view(
                lists@,
            ).subrange(0, i as int));
            assert(seqs_view(lists@).subrange(0, i + 1 as int).last() == lists@[i as int]@);
            assert(seqs_view(acc@) =~= cartesian_product_spec(
                seqs_view(lists@).subrange(0, i + 1 as int),
            ));
        }
        i = i + 1;
    }
    proof {
        assert(seqs_view(lists@).subrange(0, lists@.len() as int) =~= seqs_view(lists@));
    }
    acc
}

} // verus!
