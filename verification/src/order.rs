//! Sorting of texts.

use vstd::prelude::*;

use crate::text::chars_of;
use crate::texts::Texts;

verus! {

/// Whether `a` comes before `b`: by the first character in which they differ, a text before the
/// texts that continue it.
pub open spec fn precedes(a: Seq<char>, b: Seq<char>) -> bool
    decreases a.len(),
{
    if b.len() == 0 {
        false
    } else if a.len() == 0 {
        true
    } else if a[0] != b[0] {
        a[0] < b[0]
    } else {
        precedes(a.skip(1), b.skip(1))
    }
}

pub fn text_precedes(a: &str, b: &str) -> (res: bool)
    ensures
        res == precedes(a@, b@),
{
    let v = chars_of(a);
    let w = chars_of(b);
    let mut i: usize = 0;
    assert(a@.skip(0) =~= a@);
    assert(b@.skip(0) =~= b@);
    while i < v.len() && i < w.len()
        invariant
            v@ == a@,
            w@ == b@,
            i <= v@.len(),
            i <= w@.len(),
            precedes(a@, b@) == precedes(a@.skip(i as int), b@.skip(i as int)),
        decreases v@.len() - i,
    {
        if v[i] != w[i] {
            return v[i] < w[i];
        }
        assert(a@.skip(i as int).skip(1) =~= a@.skip(i + 1));
        assert(b@.skip(i as int).skip(1) =~= b@.skip(i + 1));
        i = i + 1;
    }
    i < w.len()
}

/// The first place at or after `j` in `order` whose key comes after `key`.
pub open spec fn slot(keys: Seq<Seq<char>>, order: Seq<int>, key: Seq<char>, j: int) -> int
    decreases order.len() - j,
{
    if j < 0 || j >= order.len() || precedes(key, keys[order[j]]) {
        j
    } else {
        slot(keys, order, key, j + 1)
    }
}

/// The positions of the first `n` keys in the order of their keys; equal keys keep their order.
pub open spec fn order_of(keys: Seq<Seq<char>>, n: int) -> Seq<int>
    decreases n,
{
    if n <= 0 {
        Seq::empty()
    } else {
        let before = order_of(keys, n - 1);
        before.insert(slot(keys, before, keys[n - 1], 0), n - 1)
    }
}

pub open spec fn sorting_order(keys: Seq<Seq<char>>) -> Seq<int> {
    order_of(keys, keys.len() as int)
}

pub open spec fn positions(v: Seq<usize>) -> Seq<int> {
    Seq::new(v.len(), |i: int| v[i] as int)
}

proof fn lemma_slot(keys: Seq<Seq<char>>, order: Seq<int>, key: Seq<char>, j: int)
    requires
        0 <= j <= order.len(),
    ensures
        j <= slot(keys, order, key, j) <= order.len(),
        slot(keys, order, key, j) < order.len() ==> precedes(
            key,
            keys[order[slot(keys, order, key, j)]],
        ),
        forall|k: int|
            j <= k < slot(keys, order, key, j) ==> !precedes(key, keys[#[trigger] order[k]]),
    decreases order.len() - j,
{
    if j < order.len() && !precedes(key, keys[order[j]]) {
        lemma_slot(keys, order, key, j + 1);
    }
}

proof fn lemma_order_range(keys: Seq<Seq<char>>, n: int)
    requires
        0 <= n <= keys.len(),
    ensures
        order_of(keys, n).len() == n,
        forall|k: int| 0 <= k < n ==> 0 <= #[trigger] order_of(keys, n)[k] < n,
    decreases n,
{
    if n > 0 {
        lemma_order_range(keys, n - 1);
        lemma_slot(keys, order_of(keys, n - 1), keys[n - 1], 0);
    }
}

/// The positions of the keys in sorted order.
pub fn sort_positions(keys: &Texts) -> (res: Vec<usize>)
    ensures
        positions(res@) == sorting_order(keys@),
        res@.len() == keys@.len(),
        forall|k: int| 0 <= k < res@.len() ==> (#[trigger] res@[k]) < keys@.len(),
{
    let mut order: Vec<usize> = Vec::new();
    let mut n: usize = 0;
    assert(positions(order@) =~= Seq::empty());
    while n < keys.len()
        invariant
            n <= keys@.len(),
            positions(order@) == order_of(keys@, n as int),
        decreases keys@.len() - n,
    {
        proof {
            lemma_order_range(keys@, n as int);
        }
        let ghost before = positions(order@);
        let mut j: usize = 0;
        let mut searching: bool = j < order.len();
        while searching
            invariant
                n < keys@.len(),
                before == positions(order@),
                before == order_of(keys@, n as int),
                forall|k: int| 0 <= k < n ==> 0 <= #[trigger] before[k] < n,
                order@.len() == n,
                j <= order@.len(),
                searching ==> j < order@.len(),
                slot(keys@, before, keys@[n as int], 0) == slot(
                    keys@,
                    before,
                    keys@[n as int],
                    j as int,
                ),
                !searching ==> slot(keys@, before, keys@[n as int], j as int) == j,
            decreases order@.len() - j + (if searching {
                1int
            } else {
                0int
            }),
        {
            assert(before[j as int] == order@[j as int]);
            if text_precedes(keys.get(n), keys.get(order[j])) {
                searching = false;
            } else {
                j = j + 1;
                searching = j < order.len();
            }
        }
        order.insert(j, n);
        assert(positions(order@) =~= before.insert(j as int, n as int));
        n = n + 1;
    }
    proof {
        lemma_order_range(keys@, keys@.len() as int);
        assert forall|k: int| 0 <= k < order@.len() implies (#[trigger] order@[k]) < keys@.len() by {
            assert(positions(order@)[k] == order@[k]);
        }
    }
    order
}

/// The texts in sorted order.
pub open spec fn sorted(v: Seq<Seq<char>>) -> Seq<Seq<char>> {
    Seq::new(v.len(), |i: int| v[sorting_order(v)[i]])
}

pub fn sort_texts(v: &Texts) -> (res: Texts)
    ensures
        res@ == sorted(v@),
{
    let order = sort_positions(v);
    let mut out = Texts::new();
    let mut i: usize = 0;
    while i < order.len()
        invariant
            i <= order@.len(),
            order@.len() == v@.len(),
            positions(order@) == sorting_order(v@),
            forall|k: int| 0 <= k < order@.len() ==> (#[trigger] order@[k]) < v@.len(),
            out@ == sorted(v@).take(i as int),
        decreases order@.len() - i,
    {
        assert(positions(order@)[i as int] == order@[i as int]);
        out.arg(v.get(order[i]));
        assert(sorted(v@).take(i + 1) =~= sorted(v@).take(i as int).push(sorted(v@)[i as int]));
        i = i + 1;
    }
    assert(sorted(v@).take(i as int) =~= sorted(v@));
    out
}

// ---------------------------------------------------------------------------------------------
// Laws

pub proof fn lemma_precedes_irreflexive(a: Seq<char>)
    ensures
        !precedes(a, a),
    decreases a.len(),
{
    if a.len() > 0 {
        lemma_precedes_irreflexive(a.skip(1));
    }
}

pub proof fn lemma_precedes_transitive(a: Seq<char>, b: Seq<char>, c: Seq<char>)
    requires
        precedes(a, b),
        precedes(b, c),
    ensures
        precedes(a, c),
    decreases a.len(),
{
    if a.len() > 0 && a[0] == b[0] && b[0] == c[0] {
        lemma_precedes_transitive(a.skip(1), b.skip(1), c.skip(1));
    }
}

pub proof fn lemma_precedes_total(a: Seq<char>, b: Seq<char>)
    ensures
        a == b || precedes(a, b) || precedes(b, a),
    decreases a.len(),
{
    if a.len() > 0 && b.len() > 0 {
        if a[0] == b[0] {
            lemma_precedes_total(a.skip(1), b.skip(1));
            if a.skip(1) == b.skip(1) {
                assert(a =~= seq![a[0]] + a.skip(1));
                assert(b =~= seq![b[0]] + b.skip(1));
            }
        }
    } else if a.len() == 0 && b.len() == 0 {
        assert(a =~= b);
    }
}

/// Whether position `p` comes before position `q` in the sorted list: by the keys, and by the
/// positions themselves where the keys are equal.
pub open spec fn ranks_before(keys: Seq<Seq<char>>, p: int, q: int) -> bool {
    precedes(keys[p], keys[q]) || (keys[p] == keys[q] && p < q)
}

proof fn lemma_ranks_transitive(keys: Seq<Seq<char>>, p: int, q: int, r: int)
    requires
        ranks_before(keys, p, q),
        ranks_before(keys, q, r),
    ensures
        ranks_before(keys, p, r),
{
    if precedes(keys[p], keys[q]) && precedes(keys[q], keys[r]) {
        lemma_precedes_transitive(keys[p], keys[q], keys[r]);
    }
}

proof fn lemma_order_sorted(keys: Seq<Seq<char>>, n: int)
    requires
        0 <= n <= keys.len(),
    ensures
        forall|i: int, j: int|
            0 <= i < j < n ==> ranks_before(
                keys,
                #[trigger] order_of(keys, n)[i],
                #[trigger] order_of(keys, n)[j],
            ),
    decreases n,
{
    if n > 0 {
        let before = order_of(keys, n - 1);
        let at = slot(keys, before, keys[n - 1], 0);
        let now = order_of(keys, n);
        lemma_order_sorted(keys, n - 1);
        lemma_order_range(keys, n - 1);
        lemma_slot(keys, before, keys[n - 1], 0);
        assert forall|i: int, j: int| 0 <= i < j < n implies ranks_before(
            keys,
            #[trigger] now[i],
            #[trigger] now[j],
        ) by {
            if i < at && j < at {
                assert(now[i] == before[i] && now[j] == before[j]);
            } else if i < at && j == at {
                assert(now[i] == before[i]);
                lemma_precedes_total(keys[before[i]], keys[n - 1]);
            } else if i < at {
                assert(now[i] == before[i] && now[j] == before[j - 1]);
            } else if i == at {
                assert(now[j] == before[j - 1]);
                assert(precedes(keys[n - 1], keys[before[at]]));
                if j - 1 > at {
                    assert(ranks_before(keys, before[at], before[j - 1]));
                    lemma_ranks_transitive(keys, n - 1, before[at], before[j - 1]);
                }
            } else {
                assert(now[i] == before[i - 1] && now[j] == before[j - 1]);
            }
        }
    }
}

/// Sorting is stable and loses nothing: the positions are those of all keys, in the order of their
/// keys, and equal keys stay in the order in which they came.
pub proof fn law_sorting_is_stable(keys: Seq<Seq<char>>)
    ensures
        sorting_order(keys).len() == keys.len(),
        forall|i: int|
            0 <= i < keys.len() ==> 0 <= #[trigger] sorting_order(keys)[i] < keys.len(),
        forall|i: int, j: int|
            0 <= i < j < keys.len() ==> ranks_before(
                keys,
                #[trigger] sorting_order(keys)[i],
                #[trigger] sorting_order(keys)[j],
            ),
        forall|i: int, j: int|
            0 <= i < j < keys.len() ==> #[trigger] sorting_order(keys)[i]
                != #[trigger] sorting_order(keys)[j],
{
    let n = keys.len() as int;
    lemma_order_range(keys, n);
    lemma_order_sorted(keys, n);
    assert forall|i: int, j: int| 0 <= i < j < n implies #[trigger] sorting_order(keys)[i]
        != #[trigger] sorting_order(keys)[j] by {
        assert(ranks_before(keys, order_of(keys, n)[i], order_of(keys, n)[j]));
        lemma_precedes_irreflexive(keys[sorting_order(keys)[i]]);
    }
}

proof fn lemma_order_complete(keys: Seq<Seq<char>>, n: int, k: int)
    requires
        0 <= k < n <= keys.len(),
    ensures
        order_of(keys, n).contains(k),
    decreases n,
{
    let before = order_of(keys, n - 1);
    let at = slot(keys, before, keys[n - 1], 0);
    let now = order_of(keys, n);
    lemma_order_range(keys, n - 1);
    lemma_slot(keys, before, keys[n - 1], 0);
    if k == n - 1 {
        assert(now[at] == k);
    } else {
        lemma_order_complete(keys, n - 1, k);
        let i = choose|i: int| 0 <= i < before.len() && before[i] == k;
        if i < at {
            assert(now[i] == k);
        } else {
            assert(now[i + 1] == k);
        }
    }
}

/// Every position has its place in the order.
pub proof fn lemma_sorted_place(keys: Seq<Seq<char>>, k: int) -> (i: int)
    requires
        0 <= k < keys.len(),
    ensures
        0 <= i < keys.len(),
        sorting_order(keys)[i] == k,
{
    let n = keys.len() as int;
    lemma_order_range(keys, n);
    lemma_order_complete(keys, n, k);
    choose|i: int| 0 <= i < sorting_order(keys).len() && sorting_order(keys)[i] == k
}

/// Sorting keeps exactly the texts that were there.
pub proof fn lemma_sorted_contains(v: Seq<Seq<char>>, s: Seq<char>)
    ensures
        sorted(v).contains(s) <==> v.contains(s),
{
    let n = v.len() as int;
    lemma_order_range(v, n);
    if v.contains(s) {
        let k = choose|k: int| 0 <= k < v.len() && v[k] == s;
        lemma_order_complete(v, n, k);
        let i = choose|i: int| 0 <= i < sorting_order(v).len() && sorting_order(v)[i] == k;
        assert(sorted(v)[i] == s);
    }
    if sorted(v).contains(s) {
        let i = choose|i: int| 0 <= i < sorted(v).len() && sorted(v)[i] == s;
        assert(v[sorting_order(v)[i]] == s);
    }
}

/// Every text comes before those that follow it.
pub open spec fn ascending(v: Seq<Seq<char>>) -> bool {
    forall|i: int, j: int| 0 <= i < j < v.len() ==> precedes(#[trigger] v[i], #[trigger] v[j])
}

/// Different texts are sorted in ascending order.
pub proof fn lemma_sorted_ascending(v: Seq<Seq<char>>)
    requires
        v.no_duplicates(),
    ensures
        ascending(sorted(v)),
        sorted(v).no_duplicates(),
{
    law_sorting_is_stable(v);
    assert forall|i: int, j: int| 0 <= i < j < sorted(v).len() implies precedes(
        #[trigger] sorted(v)[i],
        #[trigger] sorted(v)[j],
    ) by {
        assert(ranks_before(v, sorting_order(v)[i], sorting_order(v)[j]));
    }
    assert forall|i: int, j: int|
        0 <= i < sorted(v).len() && 0 <= j < sorted(v).len() && i != j implies sorted(v)[i]
        != sorted(v)[j] by {
        lemma_precedes_irreflexive(sorted(v)[i]);
    }
}

/// There is one ascending list of given texts.
pub proof fn lemma_ascending_unique(a: Seq<Seq<char>>, b: Seq<Seq<char>>)
    requires
        ascending(a),
        ascending(b),
        forall|s: Seq<char>| a.contains(s) <==> b.contains(s),
    ensures
        a == b,
    decreases a.len(),
{
    if a.len() == 0 {
        if b.len() > 0 {
            assert(b.contains(b[0]));
            assert(a.contains(b[0]));
        }
        assert(a =~= b);
    } else {
        assert(a.contains(a[0]));
        let j = choose|j: int| 0 <= j < b.len() && b[j] == a[0];
        assert(b.contains(b[0]));
        let i = choose|i: int| 0 <= i < a.len() && a[i] == b[0];
        if i > 0 && j > 0 {
            lemma_precedes_transitive(a[0], a[i], a[0]);
            lemma_precedes_irreflexive(a[0]);
        }
        assert(a[0] == b[0]);
        let ta = a.skip(1);
        let tb = b.skip(1);
        assert forall|s: Seq<char>| ta.contains(s) <==> tb.contains(s) by {
            lemma_precedes_irreflexive(s);
            if ta.contains(s) {
                let k = choose|k: int| 0 <= k < ta.len() && ta[k] == s;
                assert(a[k + 1] == s);
                assert(a.contains(s));
                assert(precedes(a[0], a[k + 1]));
                let m = choose|m: int| 0 <= m < b.len() && b[m] == s;
                assert(m > 0);
                assert(tb[m - 1] == s);
            }
            if tb.contains(s) {
                let k = choose|k: int| 0 <= k < tb.len() && tb[k] == s;
                assert(b[k + 1] == s);
                assert(b.contains(s));
                assert(precedes(b[0], b[k + 1]));
                let m = choose|m: int| 0 <= m < a.len() && a[m] == s;
                assert(m > 0);
                assert(ta[m - 1] == s);
            }
        }
        assert(ascending(ta)) by {
            assert forall|x: int, y: int| 0 <= x < y < ta.len() implies precedes(
                #[trigger] ta[x],
                #[trigger] ta[y],
            ) by {
                assert(precedes(a[x + 1], a[y + 1]));
            }
        }
        assert(ascending(tb)) by {
            assert forall|x: int, y: int| 0 <= x < y < tb.len() implies precedes(
                #[trigger] tb[x],
                #[trigger] tb[y],
            ) by {
                assert(precedes(b[x + 1], b[y + 1]));
            }
        }
        lemma_ascending_unique(ta, tb);
        assert(a =~= seq![a[0]] + ta);
        assert(b =~= seq![b[0]] + tb);
    }
}

} // verus!
