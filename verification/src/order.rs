//! Stable sorting.
use vstd::prelude::*;

verus! {

/// A type whose values have a place in line.
pub trait Ranked: Sized {
    /// Whether this value stands strictly before `other`.
    spec fn precedes(&self, other: &Self) -> bool;

    fn before(&self, other: &Self) -> (r: bool)
        ensures
            r == self.precedes(other),
    ;
}

/// `line` with `x` put behind every value that `x` does not precede.
pub open spec fn placed<T: Ranked>(line: Seq<T>, x: T) -> Seq<T>
    decreases line.len(),
{
    if line.len() > 0 && x.precedes(&line.last()) {
        placed(line.drop_last(), x).push(line.last())
    } else {
        line.push(x)
    }
}

/// The values of `s` in line, equal ones in the order they had.
pub open spec fn in_line<T: Ranked>(s: Seq<T>) -> Seq<T>
    decreases s.len(),
{
    if s.len() == 0 {
        Seq::empty()
    } else {
        placed(in_line(s.drop_last()), s.last())
    }
}

/// Nothing stands before what it should stand behind.
pub open spec fn sorted<T: Ranked>(s: Seq<T>) -> bool {
    forall|i: int, j: int|
        #![trigger s[i], s[j]]
        0 <= i < j < s.len() ==> !s[j].precedes(&s[i])
}

/// `precedes` orders the values by some key, on which they may tie.
pub open spec fn orders_by_key<T: Ranked>() -> bool {
    &&& forall|a: T, b: T| #[trigger] a.precedes(&b) ==> !b.precedes(&a)
    &&& forall|a: T, b: T, c: T|
        #![trigger a.precedes(&b), b.precedes(&c)]
        !a.precedes(&b) && !b.precedes(&c) ==> !a.precedes(&c)
}

proof fn lemma_placed<T: Ranked>(line: Seq<T>, x: T, k: int)
    requires
        0 <= k <= line.len(),
        forall|i: int| k <= i < line.len() ==> x.precedes(&#[trigger] line[i]),
        k > 0 ==> !x.precedes(&line[k - 1]),
    ensures
        placed(line, x) == line.insert(k, x),
    decreases line.len(),
{
    if k < line.len() {
        let most = line.drop_last();
        assert(x.precedes(&line[line.len() - 1]));
        assert forall|i: int| k <= i < most.len() implies x.precedes(&#[trigger] most[i]) by {
            assert(most[i] == line[i]);
        }
        lemma_placed(most, x, k);
        assert(line.insert(k, x) =~= most.insert(k, x).push(line.last()));
    } else {
        assert(line.insert(k, x) =~= line.push(x));
    }
}

/// Sort, keeping equal values in the order they had.
pub fn sort<T: Ranked>(items: Vec<T>) -> (r: Vec<T>)
    ensures
        r@ == in_line(items@),
        r@.len() == items@.len(),
{
    let mut rest = items;
    let ghost all = items@;
    let mut line: Vec<T> = Vec::new();
    assert(all.take(0) =~= Seq::empty());
    assert(all.skip(0) =~= all);
    while rest.len() > 0
        invariant
            line@.len() + rest@.len() == all.len(),
            rest@ == all.skip(line@.len() as int),
            line@ == in_line(all.take(line@.len() as int)),
        decreases rest@.len(),
    {
        let ghost n = line@.len() as int;
        let ghost had = line@;
        let x = rest.remove(0);
        proof {
            assert(x == all[n]);
            assert(rest@ =~= all.skip(n + 1));
            assert(all.take(n + 1).drop_last() =~= all.take(n));
            assert(all.take(n + 1).last() == x);
        }
        let mut k: usize = line.len();
        while k > 0 && x.before(&line[k - 1])
            invariant
                k <= line@.len(),
                line@ == had,
                forall|i: int| k <= i < had.len() ==> x.precedes(&#[trigger] had[i]),
            ensures
                k <= line@.len(),
                forall|i: int| k <= i < had.len() ==> x.precedes(&#[trigger] had[i]),
                k > 0 ==> !x.precedes(&had[k - 1]),
            decreases k,
        {
            k -= 1;
        }
        proof {
            lemma_placed(had, x, k as int);
        }
        line.insert(k, x);
    }
    assert(all.take(line@.len() as int) =~= all);
    line
}

proof fn lemma_placed_keeps<T: Ranked>(line: Seq<T>, x: T)
    ensures
        placed(line, x).to_multiset() == line.to_multiset().insert(x),
        placed(line, x).len() == line.len() + 1,
    decreases line.len(),
{
    broadcast use vstd::seq_lib::group_to_multiset_ensures;

    if line.len() > 0 && x.precedes(&line.last()) {
        let most = line.drop_last();
        lemma_placed_keeps(most, x);
        assert(line =~= most.push(line.last()));
        assert(placed(line, x).to_multiset() =~= line.to_multiset().insert(x));
    }
}

/// Sorting loses nothing and adds nothing.
pub proof fn law_sorting_keeps_everything<T: Ranked>(s: Seq<T>)
    ensures
        in_line(s).to_multiset() == s.to_multiset(),
        in_line(s).len() == s.len(),
    decreases s.len(),
{
    broadcast use vstd::seq_lib::group_to_multiset_ensures;

    if s.len() > 0 {
        law_sorting_keeps_everything(s.drop_last());
        lemma_placed_keeps(in_line(s.drop_last()), s.last());
        assert(s =~= s.drop_last().push(s.last()));
    } else {
        assert(s =~= Seq::empty());
    }
}

proof fn lemma_placed_within<T: Ranked>(line: Seq<T>, x: T, i: int)
    requires
        0 <= i < placed(line, x).len(),
    ensures
        placed(line, x)[i] == x || line.contains(placed(line, x)[i]),
    decreases line.len(),
{
    if line.len() > 0 && x.precedes(&line.last()) {
        let most = line.drop_last();
        lemma_placed_keeps(most, x);
        if i < most.len() + 1 {
            lemma_placed_within(most, x, i);
            if most.contains(placed(most, x)[i]) {
                let k = choose|k: int| 0 <= k < most.len() && most[k] == placed(most, x)[i];
                assert(line[k] == placed(most, x)[i]);
            }
        } else {
            assert(line[line.len() - 1] == placed(line, x)[i]);
        }
    } else if i < line.len() {
        assert(line[i] == placed(line, x)[i]);
    }
}

proof fn lemma_placed_sorted<T: Ranked>(line: Seq<T>, x: T)
    requires
        orders_by_key::<T>(),
        sorted(line),
    ensures
        sorted(placed(line, x)),
    decreases line.len(),
{
    let all = placed(line, x);
    if line.len() > 0 && x.precedes(&line.last()) {
        let most = line.drop_last();
        let last = line.last();
        assert(sorted(most));
        lemma_placed_sorted(most, x);
        lemma_placed_keeps(most, x);
        assert forall|i: int, j: int|
            #![trigger all[i], all[j]]
            0 <= i < j < all.len() implies !all[j].precedes(&all[i]) by {
            if j == all.len() - 1 {
                lemma_placed_within(most, x, i);
                if all[i] == x {
                    assert(x.precedes(&last));
                } else {
                    let k = choose|k: int| 0 <= k < most.len() && most[k] == all[i];
                    assert(line[k] == all[i]);
                    assert(!line[line.len() - 1].precedes(&line[k]));
                }
            } else {
                assert(placed(most, x)[i] == all[i]);
                assert(placed(most, x)[j] == all[j]);
            }
        }
    } else {
        assert forall|i: int, j: int|
            #![trigger all[i], all[j]]
            0 <= i < j < all.len() implies !all[j].precedes(&all[i]) by {
            if j == line.len() && line.len() > 0 {
                assert(!x.precedes(&line[line.len() - 1]));
                if i < line.len() - 1 {
                    assert(!line[line.len() - 1].precedes(&line[i]));
                    assert(!x.precedes(&line[i]));
                }
            } else {
                assert(all[i] == line[i] && all[j] == line[j]);
            }
        }
    }
}

/// What comes out is in line.
pub proof fn law_sorting_sorts<T: Ranked>(s: Seq<T>)
    requires
        orders_by_key::<T>(),
    ensures
        sorted(in_line(s)),
    decreases s.len(),
{
    if s.len() > 0 {
        law_sorting_sorts(s.drop_last());
        lemma_placed_sorted(in_line(s.drop_last()), s.last());
    }
}

/// What stands in line was there before.
pub proof fn lemma_in_line_within<T: Ranked>(s: Seq<T>, i: int)
    requires
        0 <= i < in_line(s).len(),
    ensures
        s.contains(in_line(s)[i]),
{
    broadcast use vstd::seq_lib::group_to_multiset_ensures;

    law_sorting_keeps_everything(s);
    let x = in_line(s)[i];
    assert(in_line(s).contains(x));
    assert(in_line(s).to_multiset().count(x) > 0);
    assert(s.to_multiset().count(x) > 0);
}

/// What was there stands in line.
pub proof fn lemma_in_line_has<T: Ranked>(s: Seq<T>, i: int)
    requires
        0 <= i < s.len(),
    ensures
        in_line(s).contains(s[i]),
{
    broadcast use vstd::seq_lib::group_to_multiset_ensures;

    law_sorting_keeps_everything(s);
    assert(s.contains(s[i]));
    assert(s.to_multiset().count(s[i]) > 0);
    assert(in_line(s).to_multiset().count(s[i]) > 0);
}

/// What is not there twice does not stand in line twice.
pub proof fn lemma_in_line_once<T: Ranked>(s: Seq<T>)
    requires
        s.no_duplicates(),
    ensures
        in_line(s).no_duplicates(),
{
    law_sorting_keeps_everything(s);
    s.lemma_multiset_has_no_duplicates();
    in_line(s).lemma_multiset_has_no_duplicates_conv();
}

/// Each value stands strictly before those behind it.
pub open spec fn strict<T: Ranked>(s: Seq<T>) -> bool {
    forall|i: int, j: int| #![trigger s[i], s[j]] 0 <= i < j < s.len() ==> s[i].precedes(&s[j])
}

/// Values of which each stands strictly before the next have one line.
pub proof fn lemma_one_line<T: Ranked>(a: Seq<T>, b: Seq<T>)
    requires
        orders_by_key::<T>(),
        strict(a),
        sorted(b),
        b.no_duplicates(),
        forall|x: T| #![auto] a.contains(x) <==> b.contains(x),
    ensures
        a == b,
    decreases b.len(),
{
    if b.len() == 0 {
        if a.len() > 0 {
            assert(a.contains(a[0]));
        }
        assert(a =~= b);
    } else {
        assert(b.contains(b[0]));
        let x = a.last();
        let y = b.last();
        assert(a.contains(x) && b.contains(y));
        let k = choose|k: int| 0 <= k < b.len() && b[k] == x;
        let i = choose|i: int| 0 <= i < a.len() && a[i] == y;
        assert(x == y) by {
            if k < b.len() - 1 && i < a.len() - 1 {
                assert(a[i].precedes(&a[a.len() - 1]));
                assert(!b[b.len() - 1].precedes(&b[k]));
            }
        }
        let (p, q) = (a.drop_last(), b.drop_last());
        assert forall|z: T| #![auto] p.contains(z) <==> q.contains(z) by {
            if p.contains(z) {
                let j = choose|j: int| 0 <= j < p.len() && p[j] == z;
                assert(a[j] == z && a.contains(z));
                let m = choose|m: int| 0 <= m < b.len() && b[m] == z;
                assert(a[j].precedes(&a[a.len() - 1]));
                assert(z != y);
                assert(q[m] == z);
            }
            if q.contains(z) {
                let j = choose|j: int| 0 <= j < q.len() && q[j] == z;
                assert(b[j] == z && b.contains(z));
                let m = choose|m: int| 0 <= m < a.len() && a[m] == z;
                assert(b[j] != b[b.len() - 1]);
                assert(p[m] == z);
            }
        }
        assert(strict(p)) by {
            assert forall|i: int, j: int|
                #![trigger p[i], p[j]]
                0 <= i < j < p.len() implies p[i].precedes(&p[j]) by {
                assert(a[i].precedes(&a[j]));
            }
        }
        assert(sorted(q)) by {
            assert forall|i: int, j: int|
                #![trigger q[i], q[j]]
                0 <= i < j < q.len() implies !q[j].precedes(&q[i]) by {
                assert(!b[j].precedes(&b[i]));
            }
        }
        lemma_one_line(p, q);
        assert(a =~= p.push(x));
        assert(b =~= q.push(y));
    }
}

} // verus!
