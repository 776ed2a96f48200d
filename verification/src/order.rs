//! Stable ordering of sequences by an integer key.

use vstd::prelude::*;

verus! {

/// The keys do not decrease along `s`.
pub open spec fn sorted_by_key<A>(s: Seq<A>, key: spec_fn(A) -> int) -> bool {
    forall|i: int, j: int| 0 <= i < j < s.len() ==> key(s[i]) <= key(s[j])
}

/// Whether an element's key is `k`.
pub open spec fn key_is<A>(key: spec_fn(A) -> int, k: int) -> spec_fn(A) -> bool {
    |x: A| key(x) == k
}

/// The elements of `s` whose key is `k`, in their order in `s`.
pub open spec fn run_of<A>(s: Seq<A>, key: spec_fn(A) -> int, k: int) -> Seq<A> {
    s.filter(key_is(key, k))
}

/// `b` holds the elements of `a`, and for every key those with that key stand
/// in `b` in the order they stand in `a`.
pub open spec fn same_runs<A>(a: Seq<A>, b: Seq<A>, key: spec_fn(A) -> int) -> bool {
    forall|k: int| #[trigger] run_of(b, key, k) == run_of(a, key, k)
}

/// `b` is `a` sorted by key, stably: sorted, and every key's elements in their
/// order in `a`.
pub open spec fn stably_sorted<A>(a: Seq<A>, b: Seq<A>, key: spec_fn(A) -> int) -> bool {
    sorted_by_key(b, key) && same_runs(a, b, key)
}

/// Inserting `x` before the first element whose key is not below its own keeps
/// the sequence sorted and puts `x` at the front of its key's run.
pub proof fn lemma_insert_in_order<A>(s: Seq<A>, p: int, x: A, key: spec_fn(A) -> int)
    requires
        sorted_by_key(s, key),
        0 <= p <= s.len(),
        forall|i: int| 0 <= i < p ==> key(#[trigger] s[i]) < key(x),
        forall|i: int| p <= i < s.len() ==> key(x) <= key(#[trigger] s[i]),
    ensures
        sorted_by_key(s.insert(p, x), key),
        forall|k: int|
            #[trigger] run_of(s.insert(p, x), key, k) == if key(x) == k {
                seq![x] + run_of(s, key, k)
            } else {
                run_of(s, key, k)
            },
{
    s.insert_ensures(p, x);
    let t = s.insert(p, x);
    assert forall|i: int, j: int| 0 <= i < j < t.len() implies key(t[i]) <= key(t[j]) by {
        if j < p {
        } else if j == p {
        } else if i < p {
            assert(t[j] == s[j - 1]);
        } else if i == p {
            assert(t[j] == s[j - 1]);
        } else {
            assert(t[i] == s[i - 1]);
            assert(t[j] == s[j - 1]);
        }
    }
    assert forall|k: int|
        #[trigger] run_of(t, key, k) == if key(x) == k {
            seq![x] + run_of(s, key, k)
        } else {
            run_of(s, key, k)
        } by {
        let pred = key_is(key, k);
        let front = s.subrange(0, p);
        let back = s.subrange(p, s.len() as int);
        assert(t == front.push(x) + back);
        assert(s == front + back);
        Seq::filter_distributes_over_add(front.push(x), back, pred);
        Seq::filter_distributes_over_add(front, back, pred);
        front.lemma_filter_push(x, pred);
        if key(x) == k {
            assert forall|i: int| 0 <= i < front.len() implies !pred(#[trigger] front[i]) by {
                assert(front[i] == s[i]);
            }
            front.lemma_all_neg_filter_empty(pred);
            assert(front.filter(pred).push(x) =~= seq![x]);
        }
    }
}

/// Taking one element off the back of the unsorted part adds it to the front
/// of its key's run in the processed part.
pub proof fn lemma_run_of_prepend<A>(s: Seq<A>, x: A, key: spec_fn(A) -> int, k: int)
    ensures
        run_of(seq![x] + s, key, k) == if key(x) == k {
            seq![x] + run_of(s, key, k)
        } else {
            run_of(s, key, k)
        },
{
    s.lemma_filter_prepend(x, key_is(key, k));
}

/// Elements ordered by an integer key that can be compared where the elements
/// are comparable.
pub trait SortKey: Sized {
    /// The key by which the element is ordered.
    spec fn sort_key(&self) -> int;

    /// The element can be compared.
    spec fn comparable(&self) -> bool;

    /// Whether this element's key is below the other's.
    fn key_below(&self, other: &Self) -> (r: bool)
        requires
            self.comparable(),
            other.comparable(),
        ensures
            r == (self.sort_key() < other.sort_key()),
    ;
}

/// The key of the elements of a `SortKey` type.
pub open spec fn key_of<T: SortKey>() -> spec_fn(T) -> int {
    |x: T| x.sort_key()
}

/// Orders the elements by key, keeping those of equal key in their order.
pub fn stable_sort<T: SortKey>(v: &mut Vec<T>)
    requires
        forall|i: int| 0 <= i < old(v)@.len() ==> (#[trigger] old(v)@[i]).comparable(),
    ensures
        stably_sorted(old(v)@, final(v)@, key_of::<T>()),
        final(v)@.len() == old(v)@.len(),
        forall|i: int| 0 <= i < final(v)@.len() ==> (#[trigger] final(v)@[i]).comparable(),
{
    let ghost orig = v@;
    let ghost key = key_of::<T>();
    let mut input: Vec<T> = Vec::new();
    std::mem::swap(&mut input, v);
    assert(orig.skip(orig.len() as int) =~= Seq::<T>::empty());
    assert forall|k: int| #[trigger] run_of(v@, key, k) == run_of(orig.skip(input.len() as int), key, k) by {
        reveal(Seq::filter);
    }
    while input.len() > 0
        invariant
            orig == old(v)@,
            key == key_of::<T>(),
            input@ == orig.take(input.len() as int),
            input.len() <= orig.len(),
            forall|i: int| 0 <= i < orig.len() ==> (#[trigger] orig[i]).comparable(),
            forall|i: int| 0 <= i < v@.len() ==> (#[trigger] v@[i]).comparable(),
            v@.len() + input.len() == orig.len(),
            sorted_by_key(v@, key),
            forall|k: int| #[trigger] run_of(v@, key, k) == run_of(orig.skip(input.len() as int), key, k),
        decreases input.len(),
    {
        let ghost m = input.len() as int;
        let x = input.pop().unwrap();
        assert(x == orig[m - 1]);
        let mut p: usize = 0;
        while p < v.len() && v[p].key_below(&x)
            invariant
                p <= v@.len(),
                x.comparable(),
                forall|i: int| 0 <= i < v@.len() ==> (#[trigger] v@[i]).comparable(),
                forall|i: int| 0 <= i < p ==> (#[trigger] v@[i]).sort_key() < x.sort_key(),
            decreases v@.len() - p,
        {
            p = p + 1;
        }
        proof {
            let s = v@;
            assert forall|i: int| p <= i < s.len() implies x.sort_key() <= (#[trigger] s[i]).sort_key() by {
                assert(x.sort_key() <= s[p as int].sort_key());
                assert(key(s[p as int]) <= key(s[i]));
            }
            lemma_insert_in_order(s, p as int, x, key);
            assert(orig.skip(m - 1) =~= seq![x] + orig.skip(m));
            assert forall|k: int| #[trigger] run_of(s.insert(p as int, x), key, k) == run_of(
                orig.skip(m - 1),
                key,
                k,
            ) by {
                lemma_run_of_prepend(orig.skip(m), x, key, k);
            }
            s.insert_ensures(p as int, x);
        }
        v.insert(p, x);
        assert(input@ =~= orig.take(input.len() as int));
    }
    assert(orig.skip(0) =~= orig);
}

} // verus!
