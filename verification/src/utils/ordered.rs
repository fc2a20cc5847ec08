use vstd::prelude::*;

verus! {

/// `s` with `x` added at the end, unless `s` holds it already.
pub open spec fn insert_distinct<T>(s: Seq<T>, x: T) -> Seq<T> {
    if s.contains(x) {
        s
    } else {
        s.push(x)
    }
}

/// `s` followed by the items that it does not hold yet, each once, in the order in
/// which they first occur.
pub open spec fn extend_distinct<T>(s: Seq<T>, items: Seq<T>) -> Seq<T>
    decreases items.len(),
{
    if items.len() == 0 {
        s
    } else {
        insert_distinct(extend_distinct(s, items.drop_last()), items.last())
    }
}

/// The items of `s`, each once, in the order in which they first occur.
pub open spec fn distinct<T>(s: Seq<T>) -> Seq<T> {
    extend_distinct(Seq::empty(), s)
}

/// What an extension holds: what either part holds. It keeps `s` as its prefix, and adds
/// no duplicates.
pub proof fn lemma_extend_distinct_contents<T>(s: Seq<T>, items: Seq<T>)
    ensures
        forall|x: T|
            #[trigger] extend_distinct(s, items).contains(x) <==> s.contains(x) || items.contains(x),
        s.len() <= extend_distinct(s, items).len() <= s.len() + items.len(),
        extend_distinct(s, items).subrange(0, s.len() as int) == s,
        s.no_duplicates() ==> extend_distinct(s, items).no_duplicates(),
    decreases items.len(),
{
    let r = extend_distinct(s, items);
    if items.len() == 0 {
        assert(r.subrange(0, s.len() as int) =~= s);
        assert forall|x: T| #[trigger] r.contains(x) <==> s.contains(x) || items.contains(x) by {
            if items.contains(x) {
                let i = choose|i: int| 0 <= i < items.len() && items[i] == x;
            }
        }
    } else {
        let p = extend_distinct(s, items.drop_last());
        let x0 = items.last();
        lemma_extend_distinct_contents(s, items.drop_last());
        assert(r.subrange(0, s.len() as int) =~= p.subrange(0, s.len() as int));
        assert forall|x: T| #[trigger] r.contains(x) <==> s.contains(x) || items.contains(x) by {
            if r.contains(x) {
                let i = choose|i: int| 0 <= i < r.len() && r[i] == x;
                if i < p.len() {
                    assert(p.contains(x));
                    if items.drop_last().contains(x) {
                        let j = choose|j: int|
                            0 <= j < items.drop_last().len() && items.drop_last()[j] == x;
                        assert(items[j] == x);
                    }
                } else {
                    assert(x == x0);
                    assert(items[items.len() - 1] == x);
                }
            }
            if s.contains(x) {
                assert(p.contains(x));
                let i = choose|i: int| 0 <= i < p.len() && p[i] == x;
                assert(r[i] == x);
            }
            if items.contains(x) {
                let j = choose|j: int| 0 <= j < items.len() && items[j] == x;
                if j < items.len() - 1 {
                    assert(items.drop_last()[j] == x);
                    assert(p.contains(x));
                    let i = choose|i: int| 0 <= i < p.len() && p[i] == x;
                    assert(r[i] == x);
                } else {
                    if p.contains(x) {
                    } else {
                        assert(r[p.len() as int] == x);
                    }
                }
            }
        }
        if s.no_duplicates() {
            assert(p.no_duplicates());
            if !p.contains(x0) {
                assert forall|i: int, j: int| 0 <= i < r.len() && 0 <= j < r.len() && i != j implies r[i]
                    != r[j] by {
                    if i == p.len() {
                        assert(p[j] == r[j]);
                    } else if j == p.len() {
                        assert(p[i] == r[i]);
                    } else {
                        assert(p[i] == r[i] && p[j] == r[j]);
                    }
                }
            }
        }
    }
}

/// A sequence without duplicates is its own list of distinct items.
pub proof fn lemma_distinct_of_no_duplicates<T>(s: Seq<T>)
    requires
        s.no_duplicates(),
    ensures
        distinct(s) == s,
    decreases s.len(),
{
    if s.len() == 0 {
        assert(distinct(s) =~= s);
    } else {
        let p = s.drop_last();
        assert(p.no_duplicates());
        lemma_distinct_of_no_duplicates(p);
        if p.contains(s.last()) {
            let i = choose|i: int| 0 <= i < p.len() && p[i] == s.last();
            assert(s[i] == s[s.len() - 1]);
        }
        assert(p.push(s.last()) =~= s);
    }
}

/// A value that executable code can compare with `==`, with the meaning that
/// specifications give to `==`.
pub trait Item: Copy {
    fn same(&self, other: &Self) -> (b: bool)
        ensures
            b == (*self == *other),
    ;
}

impl Item for i32 {
    fn same(&self, other: &Self) -> (b: bool) {
        *self == *other
    }
}

/// A copy of `v`.
pub fn copy_of<T: Copy>(v: &Vec<T>) -> (r: Vec<T>)
    ensures
        r@ == v@,
{
    let mut out: Vec<T> = Vec::new();
    let mut i: usize = 0;
    while i < v.len()
        invariant
            i <= v.len(),
            out@ == v@.take(i as int),
        decreases v.len() - i,
    {
        out.push(v[i]);
        proof {
            assert(out@ =~= v@.take(i + 1));
        }
        i += 1;
    }
    proof {
        assert(v@.take(i as int) =~= v@);
    }
    out
}

/// Whether `v` holds `x`.
pub fn holds<T: Item>(v: &Vec<T>, x: &T) -> (b: bool)
    ensures
        b == v@.contains(*x),
{
    let mut i: usize = 0;
    while i < v.len()
        invariant
            i <= v.len(),
            forall|k: int| 0 <= k < i ==> v@[k] != *x,
        decreases v.len() - i,
    {
        if v[i].same(x) {
            return true;
        }
        i += 1;
    }
    false
}

/// Adds `x` at the end of `v` unless `v` holds it already; says whether it was added.
pub fn push_distinct<T: Item>(v: &mut Vec<T>, x: T) -> (added: bool)
    ensures
        final(v)@ == insert_distinct(old(v)@, x),
        added == !old(v)@.contains(x),
{
    if holds(v, &x) {
        false
    } else {
        v.push(x);
        true
    }
}

/// Adds to `v` the items that it does not hold yet, in order.
pub fn append_distinct<T: Item>(v: &mut Vec<T>, items: &Vec<T>)
    ensures
        final(v)@ == extend_distinct(old(v)@, items@),
{
    let mut i: usize = 0;
    while i < items.len()
        invariant
            i <= items.len(),
            v@ == extend_distinct(old(v)@, items@.take(i as int)),
        decreases items.len() - i,
    {
        proof {
            assert(items@.take(i + 1).drop_last() =~= items@.take(i as int));
        }
        push_distinct(v, items[i]);
        i += 1;
    }
    proof {
        assert(items@.take(i as int) =~= items@);
    }
}

/// The items of `v`, each once, in the order in which they first occur.
pub fn distinct_items<T: Item>(v: &Vec<T>) -> (r: Vec<T>)
    ensures
        r@ == distinct(v@),
        r@.no_duplicates(),
{
    let mut out: Vec<T> = Vec::new();
    append_distinct(&mut out, v);
    proof {
        lemma_extend_distinct_contents(Seq::<T>::empty(), v@);
    }
    out
}

/// A key by which items are put in order.
pub trait Ranked: Copy {
    /// Whether an item with this key may stand before one with the key `other`.
    spec fn rank_le(self, other: Self) -> bool;

    fn le(&self, other: &Self) -> (b: bool)
        ensures
            b == self.rank_le(*other),
    ;
}

impl Ranked for usize {
    open spec fn rank_le(self, other: usize) -> bool {
        self <= other
    }

    fn le(&self, other: &usize) -> (b: bool) {
        *self <= *other
    }
}

/// `sorted` with the position `x` added behind the last position whose key is not
/// greater than that of `x`.
pub open spec fn insert_by_key<K: Ranked>(sorted: Seq<int>, x: int, keys: Seq<K>) -> Seq<int>
    decreases sorted.len(),
{
    if sorted.len() == 0 {
        seq![x]
    } else if keys[sorted.last()].rank_le(keys[x]) {
        sorted.push(x)
    } else {
        insert_by_key(sorted.drop_last(), x, keys).push(sorted.last())
    }
}

/// The first `n` positions sorted by rising key; equal keys keep their order.
pub open spec fn sorted_positions<K: Ranked>(keys: Seq<K>, n: nat) -> Seq<int>
    decreases n,
{
    if n == 0 {
        Seq::empty()
    } else {
        insert_by_key(sorted_positions(keys, (n - 1) as nat), n - 1, keys)
    }
}

/// What an insertion does, by position: `x` stands at `p`, behind everything that was
/// before `p` and before everything that was behind.
pub proof fn lemma_insert_by_key<K: Ranked>(sorted: Seq<int>, x: int, keys: Seq<K>, p: int)
    requires
        0 <= p <= sorted.len(),
        p == 0 || keys[sorted[p - 1]].rank_le(keys[x]),
        forall|q: int| p <= q < sorted.len() ==> !keys[#[trigger] sorted[q]].rank_le(keys[x]),
    ensures
        insert_by_key(sorted, x, keys) == sorted.take(p).push(x) + sorted.skip(p),
    decreases sorted.len(),
{
    if sorted.len() == 0 {
        assert(sorted.take(p).push(x) + sorted.skip(p) =~= seq![x]);
    } else if p == sorted.len() {
        assert(sorted.take(p).push(x) + sorted.skip(p) =~= sorted.push(x));
    } else {
        assert(!keys[sorted[sorted.len() - 1]].rank_le(keys[x]));
        let init = sorted.drop_last();
        assert forall|q: int| p <= q < init.len() implies !keys[#[trigger] init[q]].rank_le(
            keys[x],
        ) by {
            assert(init[q] == sorted[q]);
        }
        if p > 0 {
            assert(init[p - 1] == sorted[p - 1]);
        }
        lemma_insert_by_key(init, x, keys, p);
        assert((init.take(p).push(x) + init.skip(p)).push(sorted.last()) =~= sorted.take(p).push(x)
            + sorted.skip(p));
    }
}

/// The positions of `keys` sorted by rising key; equal keys keep their order.
pub fn sort_positions<K: Ranked>(keys: &Vec<K>) -> (r: Vec<usize>)
    ensures
        r@.map_values(|p: usize| p as int) == sorted_positions(keys@, keys@.len()),
        r@.len() == keys@.len(),
        forall|k: int| 0 <= k < r@.len() ==> (#[trigger] r@[k]) < keys@.len(),
{
    let mut sorted: Vec<usize> = Vec::new();
    let mut n: usize = 0;
    while n < keys.len()
        invariant
            n <= keys.len(),
            sorted@.len() == n,
            sorted@.map_values(|p: usize| p as int) == sorted_positions(keys@, n as nat),
            forall|k: int| 0 <= k < sorted@.len() ==> (#[trigger] sorted@[k]) < keys@.len(),
        decreases keys.len() - n,
    {
        let ghost before = sorted@.map_values(|p: usize| p as int);
        let mut p: usize = sorted.len();
        while p > 0 && !keys[sorted[p - 1]].le(&keys[n])
            invariant
                n < keys.len(),
                p <= sorted.len(),
                before == sorted@.map_values(|p: usize| p as int),
                forall|k: int| 0 <= k < sorted@.len() ==> (#[trigger] sorted@[k]) < keys@.len(),
                forall|q: int|
                    p <= q < sorted.len() ==> !keys@[#[trigger] before[q]].rank_le(keys@[n as int]),
            decreases p,
        {
            proof {
                assert(before[p - 1] == sorted@[p - 1] as int);
            }
            p -= 1;
        }
        proof {
            if p > 0 {
                assert(before[p - 1] == sorted@[p - 1] as int);
            }
            lemma_insert_by_key(before, n as int, keys@, p as int);
        }
        sorted.insert(p, n);
        proof {
            assert(sorted@.map_values(|p: usize| p as int) =~= before.take(p as int).push(n as int)
                + before.skip(p as int));
        }
        n += 1;
    }
    sorted
}

} // verus!
