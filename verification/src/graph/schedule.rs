use vstd::prelude::*;
use vstd::seq_lib::seq_to_set_is_finite;
use vstd::set_lib::{lemma_int_range, lemma_len_subset, lemma_subset_equality, set_int_range};

verus! {

/// Every pair names two of the `n` items.
pub open spec fn deps_in_range(deps: Seq<(usize, usize)>, n: int) -> bool {
    forall|d: int| 0 <= d < deps.len() ==> (#[trigger] deps[d]).0 < n && deps[d].1 < n
}

/// Item `k` is one of the first `upto` entries of `order`.
pub open spec fn placed_before(order: Seq<usize>, upto: int, k: int) -> bool {
    exists|i: int| 0 <= i < upto && i < order.len() && #[trigger] order[i] == k
}

/// Item `k` is an entry of `order`.
pub open spec fn placed(order: Seq<usize>, k: int) -> bool {
    placed_before(order, order.len() as int, k)
}

/// `order` lists each of the `n` items once.
pub open spec fn is_order(order: Seq<usize>, n: int) -> bool {
    &&& order.len() == n
    &&& forall|i: int| 0 <= i < order.len() ==> (#[trigger] order[i]) < n
    &&& forall|i: int, j: int| 0 <= i < j < order.len() ==> order[i] != order[j]
}

/// For every pair `(a, b)` of `deps`, where `order` lists `b` it has listed `a` before.
pub open spec fn respects(order: Seq<usize>, deps: Seq<(usize, usize)>) -> bool {
    forall|d: int, i: int|
        0 <= d < deps.len() && 0 <= i < order.len() && #[trigger] order[i] == (#[trigger] deps[d]).1
            ==> placed_before(order, i, deps[d].0 as int)
}

/// Item `c` could be listed at place `i` of `order`: it is not listed before,
/// and everything that it waits for is.
pub open spec fn could_come(order: Seq<usize>, deps: Seq<(usize, usize)>, i: int, c: int) -> bool {
    &&& !placed_before(order, i, c)
    &&& forall|d: int| 0 <= d < deps.len() && (#[trigger] deps[d]).1 == c ==> placed_before(order, i, deps[d].0 as int)
}

/// At every place, `order` lists the lowest item that could be listed there.
pub open spec fn lowest_first(order: Seq<usize>, deps: Seq<(usize, usize)>) -> bool {
    forall|i: int, c: int| 0 <= i < order.len() && 0 <= c < order[i] ==> !#[trigger] could_come(order, deps, i, c)
}

/// Everything that item `b` waits for is done.
pub open spec fn is_ready(b: int, deps: Seq<(usize, usize)>, done: Seq<bool>) -> bool {
    forall|d: int| 0 <= d < deps.len() && (#[trigger] deps[d]).1 == b ==> done[deps[d].0 as int]
}

/// The entries of a sequence as integers.
pub open spec fn as_ints(order: Seq<usize>) -> Seq<int> {
    order.map_values(|x: usize| x as int)
}

/// A list without repeats of items below `n` that has `n` entries has every item below `n`.
pub proof fn lemma_order_is_full(order: Seq<usize>, n: int)
    requires
        is_order(order, n),
    ensures
        forall|k: int| 0 <= k < n ==> placed(order, k),
{
    let s = as_ints(order);
    assert(s.no_duplicates()) by {
        assert forall|i: int, j: int| 0 <= i < s.len() && 0 <= j < s.len() && i != j implies s[i] != s[j] by {
            if i < j {
                assert(order[i] != order[j]);
            } else {
                assert(order[j] != order[i]);
            }
        }
    }
    s.unique_seq_to_set();
    seq_to_set_is_finite(s);
    lemma_int_range(0, n);
    assert(s.to_set().subset_of(set_int_range(0, n))) by {
        assert forall|x: int| s.to_set().contains(x) implies set_int_range(0, n).contains(x) by {
            let i = choose|i: int| 0 <= i < s.len() && s[i] == x;
            assert(order[i] < n);
        }
    }
    lemma_subset_equality(s.to_set(), set_int_range(0, n));
    assert forall|k: int| 0 <= k < n implies placed(order, k) by {
        assert(set_int_range(0, n).contains(k));
        assert(s.to_set().contains(k));
        let i = choose|i: int| 0 <= i < s.len() && s[i] == k;
        assert(order[i] == k);
    }
}

/// A list that has every item below `n` has at least `n` entries.
pub proof fn lemma_covering_is_long(order: Seq<usize>, n: int)
    requires
        0 <= n,
        forall|k: int| 0 <= k < n ==> placed(order, k),
    ensures
        order.len() >= n,
{
    let s = as_ints(order);
    s.lemma_cardinality_of_set();
    seq_to_set_is_finite(s);
    lemma_int_range(0, n);
    assert(set_int_range(0, n).subset_of(s.to_set())) by {
        assert forall|k: int| set_int_range(0, n).contains(k) implies s.to_set().contains(k) by {
            assert(placed(order, k));
            let i = choose|i: int| 0 <= i < order.len() && i < order.len() && #[trigger] order[i] == k;
            assert(s[i] == k);
        }
    }
    lemma_len_subset(set_int_range(0, n), s.to_set());
}

/// The first place of `order`, before `upto`, whose item is not done.
pub proof fn lemma_first_undone(order: Seq<usize>, done: Seq<bool>, upto: int) -> (p: int)
    requires
        0 <= upto <= order.len(),
        forall|i: int| 0 <= i < order.len() ==> (#[trigger] order[i]) < done.len(),
        exists|i: int| 0 <= i < upto && !done[(#[trigger] order[i]) as int],
    ensures
        0 <= p < upto,
        !done[order[p] as int],
        forall|i: int| 0 <= i < p ==> done[(#[trigger] order[i]) as int],
    decreases upto,
{
    if exists|i: int| 0 <= i < upto - 1 && !done[(#[trigger] order[i]) as int] {
        lemma_first_undone(order, done, upto - 1)
    } else {
        let w = choose|i: int| 0 <= i < upto && !done[(#[trigger] order[i]) as int];
        assert(w == upto - 1);
        upto - 1
    }
}

/// Where fewer than `n` items are listed and no item that is left is ready,
/// no order of the `n` items respects `deps`.
pub proof fn lemma_stuck(n: int, deps: Seq<(usize, usize)>, listed: Seq<usize>, done: Seq<bool>)
    requires
        deps_in_range(deps, n),
        done.len() == n,
        listed.len() < n,
        forall|k: int| 0 <= k < n ==> (#[trigger] done[k] <==> placed(listed, k)),
        forall|b: int| 0 <= b < n ==> #[trigger] done[b] || !is_ready(b, deps, done),
    ensures
        forall|order: Seq<usize>| !(is_order(order, n) && #[trigger] respects(order, deps)),
{
    assert forall|order: Seq<usize>| !(is_order(order, n) && #[trigger] respects(order, deps)) by {
        if is_order(order, n) && respects(order, deps) {
            if forall|k: int| 0 <= k < n ==> done[k] {
                assert forall|k: int| 0 <= k < n implies placed(listed, k) by {
                    assert(done[k]);
                }
                lemma_covering_is_long(listed, n);
            }
            let k0 = choose|k: int| 0 <= k < n && !done[k];
            lemma_order_is_full(order, n);
            assert(placed(order, k0));
            let i0 = choose|i: int| 0 <= i < order.len() && i < order.len() && #[trigger] order[i] == k0;
            assert(!done[order[i0] as int]);
            let p = lemma_first_undone(order, done, order.len() as int);
            let b = order[p] as int;
            assert(!done[b]);
            assert(!is_ready(b, deps, done));
            let d = choose|d: int| 0 <= d < deps.len() && (#[trigger] deps[d]).1 == b && !done[deps[d].0 as int];
            assert(placed_before(order, p, deps[d].0 as int));
            let q = choose|q: int| 0 <= q < p && q < order.len() && #[trigger] order[q] == deps[d].0 as int;
            assert(done[order[q] as int]);
        }
    }
}

/// Two orders that respect `deps` and list the lowest item first agree on
/// their first `upto` places.
pub proof fn lemma_orders_agree(a: Seq<usize>, b: Seq<usize>, n: int, deps: Seq<(usize, usize)>, upto: int)
    requires
        is_order(a, n),
        respects(a, deps),
        lowest_first(a, deps),
        is_order(b, n),
        respects(b, deps),
        lowest_first(b, deps),
        0 <= upto <= n,
    ensures
        forall|i: int| 0 <= i < upto ==> a[i] == b[i],
    decreases upto,
{
    if upto > 0 {
        lemma_orders_agree(a, b, n, deps, upto - 1);
        let i = upto - 1;
        assert forall|x: int| placed_before(a, i, x) <==> placed_before(b, i, x) by {
            if placed_before(a, i, x) {
                let q = choose|q: int| 0 <= q < i && q < a.len() && #[trigger] a[q] == x;
                assert(b[q] == x);
            }
            if placed_before(b, i, x) {
                let q = choose|q: int| 0 <= q < i && q < b.len() && #[trigger] b[q] == x;
                assert(a[q] == x);
            }
        }
        lemma_no_higher(a, b, n, deps, i);
        lemma_no_higher(b, a, n, deps, i);
    }
}

/// Where two orders agree before place `i`, the second lists at place `i`
/// nothing higher than the first does.
proof fn lemma_no_higher(a: Seq<usize>, b: Seq<usize>, n: int, deps: Seq<(usize, usize)>, i: int)
    requires
        is_order(a, n),
        respects(a, deps),
        is_order(b, n),
        lowest_first(b, deps),
        0 <= i < n,
        forall|x: int| placed_before(a, i, x) <==> placed_before(b, i, x),
    ensures
        b[i] <= a[i],
{
    if a[i] < b[i] {
        let c = a[i] as int;
        assert(!could_come(b, deps, i, c));
        if placed_before(b, i, c) {
            assert(placed_before(a, i, c));
            let q = choose|q: int| 0 <= q < i && q < a.len() && #[trigger] a[q] == c;
            assert(a[q] != a[i]);
        } else {
            let d = choose|d: int|
                0 <= d < deps.len() && (#[trigger] deps[d]).1 == c && !placed_before(b, i, deps[d].0 as int);
            assert(placed_before(a, i, deps[d].0 as int));
        }
    }
}

/// The schedule is pinned down: only one order of the items respects `deps`
/// and lists the lowest item first.
pub proof fn law_schedule_is_unique(a: Seq<usize>, b: Seq<usize>, n: int, deps: Seq<(usize, usize)>)
    requires
        is_order(a, n),
        respects(a, deps),
        lowest_first(a, deps),
        is_order(b, n),
        respects(b, deps),
        lowest_first(b, deps),
    ensures
        a == b,
{
    lemma_orders_agree(a, b, n, deps, n);
    assert(a =~= b);
}

/// Whether everything that item `b` waits for is done.
pub fn ready(b: usize, deps: &Vec<(usize, usize)>, done: &Vec<bool>) -> (r: bool)
    requires
        deps_in_range(deps@, done@.len() as int),
    ensures
        r == is_ready(b as int, deps@, done@),
{
    let mut d: usize = 0;
    while d < deps.len()
        invariant
            d <= deps@.len(),
            deps_in_range(deps@, done@.len() as int),
            forall|e: int| 0 <= e < d && (#[trigger] deps@[e]).1 == b ==> done@[deps@[e].0 as int],
        decreases deps.len() - d,
    {
        if deps[d].1 == b && !done[deps[d].0] {
            return false;
        }
        d = d + 1;
    }
    true
}

/// The lowest item that is not done and is ready, if there is one.
pub fn pick(n: usize, deps: &Vec<(usize, usize)>, done: &Vec<bool>) -> (r: Option<usize>)
    requires
        done@.len() == n,
        deps_in_range(deps@, n as int),
    ensures
        r matches Some(b) ==> b < n && !done@[b as int] && is_ready(b as int, deps@, done@) && forall|c: int|
            0 <= c < b ==> #[trigger] done@[c] || !is_ready(c, deps@, done@),
        r is None ==> forall|b: int| 0 <= b < n ==> #[trigger] done@[b] || !is_ready(b, deps@, done@),
{
    let mut b: usize = 0;
    while b < n
        invariant
            b <= n,
            done@.len() == n,
            deps_in_range(deps@, n as int),
            forall|c: int| 0 <= c < b ==> #[trigger] done@[c] || !is_ready(c, deps@, done@),
        decreases n - b,
    {
        if !done[b] && ready(b, deps, done) {
            return Some(b);
        }
        b = b + 1;
    }
    None
}

/// An order of the items `0..n` in which every item comes after all that it
/// waits for: for each pair `(a, b)` of `deps`, `a` comes before `b`. Among
/// the items that can come next, the lowest comes first. `None` where no
/// such order exists, that is, where the pairs form a cycle.
pub fn schedule(n: usize, deps: &Vec<(usize, usize)>) -> (r: Option<Vec<usize>>)
    requires
        deps_in_range(deps@, n as int),
    ensures
        r matches Some(order) ==> is_order(order@, n as int) && respects(order@, deps@) && lowest_first(order@, deps@),
        r is None ==> forall|order: Seq<usize>| !(is_order(order, n as int) && #[trigger] respects(order, deps@)),
{
    let mut done: Vec<bool> = Vec::new();
    let mut k: usize = 0;
    while k < n
        invariant
            k <= n,
            done@.len() == k,
            forall|j: int| 0 <= j < k ==> !(#[trigger] done@[j]),
        decreases n - k,
    {
        done.push(false);
        k = k + 1;
    }
    let mut order: Vec<usize> = Vec::new();
    let mut round: usize = 0;
    while round < n
        invariant
            round <= n,
            round == order@.len(),
            done@.len() == n,
            deps_in_range(deps@, n as int),
            forall|j: int| 0 <= j < n ==> (#[trigger] done@[j] <==> placed(order@, j)),
            forall|i: int| 0 <= i < order@.len() ==> (#[trigger] order@[i]) < n,
            forall|i: int, j: int| 0 <= i < j < order@.len() ==> order@[i] != order@[j],
            respects(order@, deps@),
            lowest_first(order@, deps@),
        decreases n - round,
    {
        match pick(n, deps, &done) {
            None => {
                proof {
                    lemma_stuck(n as int, deps@, order@, done@);
                }
                return None;
            },
            Some(b) => {
                let ghost before = order@;
                let ghost done_before = done@;
                done.set(b, true);
                order.push(b);
                proof {
                    assert(!placed(before, b as int));
                    assert forall|j: int| 0 <= j < n implies (#[trigger] done@[j] <==> placed(order@, j)) by {
                        if j == b {
                            assert(order@[round as int] == b);
                        } else {
                            assert(done@[j] == done_before[j]);
                            if placed(before, j) {
                                let i = choose|i: int| 0 <= i < before.len() && i < before.len() && #[trigger] before[i] == j;
                                assert(order@[i] == j);
                            }
                            if placed(order@, j) {
                                let i = choose|i: int| 0 <= i < order@.len() && i < order@.len() && #[trigger] order@[i] == j;
                                assert(i < before.len());
                                assert(before[i] == j);
                            }
                        }
                    }
                    assert forall|i: int, j: int| 0 <= i < j < order@.len() implies order@[i] != order@[j] by {
                        if j == round {
                            assert(before[i] == order@[i]);
                            if order@[i] == b {
                                assert(placed(before, b as int));
                            }
                        } else {
                            assert(before[i] == order@[i] && before[j] == order@[j]);
                        }
                    }
                    assert forall|d: int, i: int|
                        0 <= d < deps@.len() && 0 <= i < order@.len() && #[trigger] order@[i] == (#[trigger] deps@[d]).1 implies placed_before(
                        order@,
                        i,
                        deps@[d].0 as int,
                    ) by {
                        if i < round {
                            assert(before[i] == order@[i]);
                            assert(placed_before(before, i, deps@[d].0 as int));
                            let q = choose|q: int| 0 <= q < i && q < before.len() && #[trigger] before[q] == deps@[d].0 as int;
                            assert(order@[q] == deps@[d].0 as int);
                        } else {
                            assert(done_before[deps@[d].0 as int]);
                            assert(placed(before, deps@[d].0 as int));
                            let q = choose|q: int| 0 <= q < before.len() && q < before.len() && #[trigger] before[q] == deps@[d].0 as int;
                            assert(order@[q] == deps@[d].0 as int);
                        }
                    }
                }
                proof {
                    assert forall|i: int, c: int| 0 <= i < order@.len() && 0 <= c < order@[i] implies !#[trigger] could_come(
                        order@,
                        deps@,
                        i,
                        c,
                    ) by {
                        if i < round {
                            assert(before[i] == order@[i]);
                            assert(!could_come(before, deps@, i, c));
                            if placed_before(before, i, c) {
                                let q = choose|q: int| 0 <= q < i && q < before.len() && #[trigger] before[q] == c;
                                assert(order@[q] == c);
                            } else {
                                let d = choose|d: int|
                                    0 <= d < deps@.len() && (#[trigger] deps@[d]).1 == c && !placed_before(
                                        before,
                                        i,
                                        deps@[d].0 as int,
                                    );
                                if placed_before(order@, i, deps@[d].0 as int) {
                                    let q = choose|q: int|
                                        0 <= q < i && q < order@.len() && #[trigger] order@[q] == deps@[d].0 as int;
                                    assert(before[q] == deps@[d].0 as int);
                                }
                            }
                        } else {
                            if done_before[c] {
                                assert(placed(before, c));
                                let q = choose|q: int| 0 <= q < before.len() && q < before.len() && #[trigger] before[q] == c;
                                assert(order@[q] == c);
                            } else {
                                assert(!is_ready(c, deps@, done_before));
                                let d = choose|d: int|
                                    0 <= d < deps@.len() && (#[trigger] deps@[d]).1 == c && !done_before[deps@[d].0 as int];
                                if placed_before(order@, i, deps@[d].0 as int) {
                                    let q = choose|q: int|
                                        0 <= q < i && q < order@.len() && #[trigger] order@[q] == deps@[d].0 as int;
                                    assert(before[q] == deps@[d].0 as int);
                                    assert(placed(before, deps@[d].0 as int));
                                }
                            }
                        }
                    }
                }
                round = round + 1;
            },
        }
    }
    Some(order)
}

} // verus!
