//! Deadlock avoidance by the banker's safety test.
//!
//! A state is given by the units of each resource that are free
//! (`available`), the units each thread holds (`allocated`, one row per
//! thread) and the units each thread still asks for (`need`). It is safe when
//! the threads can be ordered so that each, in turn, finds what it needs among
//! the free units and the units given back by the threads before it.
use vstd::prelude::*;

verus! {

/// The rows of a matrix held as a vector of vectors.
pub open spec fn rows(m: Seq<Vec<i128>>) -> Seq<Seq<i128>> {
    m.map_values(|r: Vec<i128>| r@)
}

/// All rows have one entry per resource, and `allocated` and `need` have one
/// row per thread; nothing is held in a negative amount.
pub open spec fn well_shaped(avail: Seq<i128>, alloc: Seq<Seq<i128>>, need: Seq<Seq<i128>>) -> bool {
    &&& alloc.len() == need.len()
    &&& forall|t: int| 0 <= t < alloc.len() ==> #[trigger] alloc[t].len() == avail.len()
    &&& forall|t: int| 0 <= t < need.len() ==> #[trigger] need[t].len() == avail.len()
    &&& forall|t: int, j: int| 0 <= t < alloc.len() && 0 <= j < avail.len() ==> 0 <= #[trigger] alloc[t][j]
}

/// The units of resource `j` held by the threads of `order`.
pub open spec fn released(alloc: Seq<Seq<i128>>, order: Seq<int>, j: int) -> int
    decreases order.len(),
{
    if order.len() == 0 {
        0
    } else {
        released(alloc, order.drop_last(), j) + alloc[order.last()][j]
    }
}

/// The thread at position `k` of `order` finds all it needs among the free
/// units and those held by the threads before it.
pub open spec fn needs_met(
    avail: Seq<i128>,
    alloc: Seq<Seq<i128>>,
    need: Seq<Seq<i128>>,
    order: Seq<int>,
    k: int,
) -> bool {
    forall|j: int|
        0 <= j < avail.len() ==> #[trigger] need[order[k]][j] <= avail[j] + released(
            alloc,
            order.take(k),
            j,
        )
}

/// `order` lists every thread once, and each finds what it needs in turn.
pub open spec fn is_safe_order(
    avail: Seq<i128>,
    alloc: Seq<Seq<i128>>,
    need: Seq<Seq<i128>>,
    order: Seq<int>,
) -> bool {
    &&& order.no_duplicates()
    &&& forall|k: int| 0 <= k < order.len() ==> 0 <= #[trigger] order[k] < need.len()
    &&& forall|t: int| 0 <= t < need.len() ==> #[trigger] order.contains(t)
    &&& forall|k: int| 0 <= k < order.len() ==> #[trigger] needs_met(avail, alloc, need, order, k)
}

/// Some order lets every thread finish.
pub open spec fn is_safe(avail: Seq<i128>, alloc: Seq<Seq<i128>>, need: Seq<Seq<i128>>) -> bool {
    exists|order: Seq<int>| is_safe_order(avail, alloc, need, order)
}

/// The units of resource `j` held by the threads below `n` that are in `s`.
pub open spec fn held_by(alloc: Seq<Seq<i128>>, s: Set<int>, j: int, n: int) -> int
    decreases n,
{
    if n <= 0 {
        0
    } else {
        held_by(alloc, s, j, n - 1) + if s.contains(n - 1) {
            alloc[n - 1][j] as int
        } else {
            0
        }
    }
}

/// The units of resource `j` held by all threads.
pub open spec fn column_total(alloc: Seq<Seq<i128>>, j: int) -> int {
    held_by(alloc, Set::full(), j, alloc.len() as int)
}

proof fn lemma_held_by_monotone(alloc: Seq<Seq<i128>>, s1: Set<int>, s2: Set<int>, j: int, n: int)
    requires
        n <= alloc.len(),
        forall|t: int| 0 <= t < n && #[trigger] s1.contains(t) ==> s2.contains(t),
        forall|t: int| 0 <= t < n ==> 0 <= #[trigger] alloc[t][j],
    ensures
        held_by(alloc, s1, j, n) <= held_by(alloc, s2, j, n),
    decreases n,
{
    if n > 0 {
        lemma_held_by_monotone(alloc, s1, s2, j, n - 1);
        assert(0 <= alloc[n - 1][j]);
    }
}

proof fn lemma_held_by_insert(alloc: Seq<Seq<i128>>, s: Set<int>, x: int, j: int, n: int)
    requires
        0 <= x < n,
        !s.contains(x),
    ensures
        held_by(alloc, s.insert(x), j, n) == held_by(alloc, s, j, n) + alloc[x][j],
    decreases n,
{
    if n - 1 > x {
        lemma_held_by_insert(alloc, s, x, j, n - 1);
    } else {
        lemma_held_by_same(alloc, s, s.insert(x), j, n - 1);
    }
}

proof fn lemma_held_by_same(alloc: Seq<Seq<i128>>, s1: Set<int>, s2: Set<int>, j: int, n: int)
    requires
        forall|t: int| 0 <= t < n ==> (#[trigger] s1.contains(t) <==> s2.contains(t)),
    ensures
        held_by(alloc, s1, j, n) == held_by(alloc, s2, j, n),
    decreases n,
{
    if n > 0 {
        lemma_held_by_same(alloc, s1, s2, j, n - 1);
        assert(s1.contains(n - 1) <==> s2.contains(n - 1));
    }
}

/// What the threads of a repetition-free `order` hold is what the set of
/// those threads holds.
proof fn lemma_released_is_held_by(alloc: Seq<Seq<i128>>, order: Seq<int>, j: int, n: int)
    requires
        order.no_duplicates(),
        forall|k: int| 0 <= k < order.len() ==> 0 <= #[trigger] order[k] < n,
    ensures
        released(alloc, order, j) == held_by(alloc, order.to_set(), j, n),
    decreases order.len(),
{
    if order.len() == 0 {
        lemma_held_by_same(alloc, order.to_set(), Set::empty(), j, n);
        lemma_held_by_empty(alloc, j, n);
    } else {
        let front = order.drop_last();
        let x = order.last();
        assert forall|a: int, b: int| 0 <= a < b < front.len() implies front[a] != front[b] by {
            assert(order[a] != order[b]);
        }
        assert forall|k: int| 0 <= k < front.len() implies 0 <= #[trigger] front[k] < n by {
            assert(order[k] == front[k]);
        }
        lemma_released_is_held_by(alloc, front, j, n);
        assert(!front.to_set().contains(x)) by {
            if front.contains(x) {
                let k = choose|k: int| 0 <= k < front.len() && front[k] == x;
                assert(order[k] == order[order.len() - 1]);
            }
        }
        assert(order.to_set() =~= front.to_set().insert(x)) by {
            assert(order =~= front.push(x));
        }
        assert(0 <= order[order.len() - 1] < n);
        lemma_held_by_insert(alloc, front.to_set(), x, j, n);
    }
}

proof fn lemma_held_by_empty(alloc: Seq<Seq<i128>>, j: int, n: int)
    ensures
        held_by(alloc, Set::empty(), j, n) == 0,
    decreases n,
{
    if n > 0 {
        lemma_held_by_empty(alloc, j, n - 1);
    }
}

/// A repetition-free sequence of threads below `n` has at most `n` entries.
proof fn lemma_distinct_bounded(order: Seq<int>, n: int)
    requires
        0 <= n,
        order.no_duplicates(),
        forall|k: int| 0 <= k < order.len() ==> 0 <= #[trigger] order[k] < n,
    ensures
        order.len() <= n,
{
    order.unique_seq_to_set();
    vstd::set_lib::lemma_int_range(0, n);
    assert forall|x: int| order.to_set().contains(x) implies vstd::set_lib::set_int_range(
        0,
        n,
    ).contains(x) by {
        let k = choose|k: int| 0 <= k < order.len() && order[k] == x;
        assert(0 <= order[k] < n);
    }
    vstd::set_lib::lemma_len_subset(order.to_set(), vstd::set_lib::set_int_range(0, n));
}

/// The earliest position of `order` whose thread is not marked in `fin`.
proof fn lemma_first_unmarked(order: Seq<int>, fin: Seq<bool>, k0: int) -> (k: int)
    requires
        0 <= k0 < order.len(),
        forall|i: int| 0 <= i < order.len() ==> 0 <= #[trigger] order[i] < fin.len(),
        !fin[order[k0]],
    ensures
        0 <= k <= k0,
        !fin[order[k]],
        forall|i: int| 0 <= i < k ==> #[trigger] fin[order[i]],
    decreases k0,
{
    if exists|i: int| 0 <= i < k0 && !#[trigger] fin[order[i]] {
        let i = choose|i: int| 0 <= i < k0 && !#[trigger] fin[order[i]];
        lemma_first_unmarked(order, fin, i)
    } else {
        k0
    }
}

/// Thread `t` has not finished and finds all it needs among `avail`.
pub open spec fn runnable(avail: Seq<i128>, need: Seq<Seq<i128>>, fin: Seq<bool>, t: int) -> bool {
    &&& !fin[t]
    &&& forall|j: int| 0 <= j < avail.len() ==> #[trigger] need[t][j] <= avail[j]
}

/// When the threads that finished are those of `order`, the free units are
/// the initial ones plus what `order` gave back, and no unfinished thread can
/// run, then an unfinished thread means that no order lets all finish.
proof fn lemma_stuck_is_unsafe(
    init: Seq<i128>,
    alloc: Seq<Seq<i128>>,
    need: Seq<Seq<i128>>,
    order: Seq<int>,
    fin: Seq<bool>,
    avail: Seq<i128>,
    t: int,
)
    requires
        well_shaped(init, alloc, need),
        avail.len() == init.len(),
        fin.len() == need.len(),
        order.no_duplicates(),
        forall|k: int| 0 <= k < order.len() ==> 0 <= #[trigger] order[k] < need.len(),
        forall|x: int| 0 <= x < need.len() ==> (#[trigger] fin[x] <==> order.contains(x)),
        forall|j: int|
            0 <= j < init.len() ==> #[trigger] avail[j] == init[j] + released(alloc, order, j),
        forall|x: int| 0 <= x < need.len() ==> !#[trigger] runnable(avail, need, fin, x),
        0 <= t < need.len(),
        !fin[t],
    ensures
        !is_safe(init, alloc, need),
{
    let n = need.len() as int;
    if is_safe(init, alloc, need) {
        let order2 = choose|o: Seq<int>| is_safe_order(init, alloc, need, o);
        assert(order2.contains(t));
        let k0 = choose|k: int| 0 <= k < order2.len() && order2[k] == t;
        let k = lemma_first_unmarked(order2, fin, k0);
        let x = order2[k];
        let prefix = order2.take(k);
        assert(needs_met(init, alloc, need, order2, k));
        assert forall|a: int, b: int| 0 <= a < b < prefix.len() implies prefix[a] != prefix[b] by {
            assert(order2[a] != order2[b]);
        }
        assert forall|i: int| 0 <= i < prefix.len() implies 0 <= #[trigger] prefix[i] < n by {
            assert(0 <= order2[i] < n);
        }
        assert forall|j: int| 0 <= j < avail.len() implies #[trigger] need[x][j] <= avail[j] by {
            lemma_released_is_held_by(alloc, prefix, j, n);
            lemma_released_is_held_by(alloc, order, j, n);
            assert forall|y: int| 0 <= y < n && #[trigger] prefix.to_set().contains(y) implies order.to_set().contains(y) by {
                let i = choose|i: int| 0 <= i < prefix.len() && prefix[i] == y;
                assert(fin[order2[i]]);
            }
            assert forall|y: int| 0 <= y < n implies 0 <= #[trigger] alloc[y][j] by {
                assert(0 <= alloc[y][j]);
            }
            lemma_held_by_monotone(alloc, prefix.to_set(), order.to_set(), j, n);
            assert(need[order2[k]][j] <= init[j] + released(alloc, order2.take(k), j));
        }
        assert(runnable(avail, need, fin, x));
    }
}

/// Whether a thread that has not finished finds all it needs among `avail`.
fn can_run(need_row: &Vec<i128>, avail: &Vec<i128>, finished: bool) -> (r: bool)
    requires
        need_row.len() == avail.len(),
        avail.len() > 0,
    ensures
        r == (!finished && forall|j: int| 0 <= j < avail.len() ==> #[trigger] need_row[j] <= avail[j]),
{
    let m = avail.len();
    let mut can: bool = true;
    let mut j: usize = 0;
    while j < m && can
        invariant
            m == avail.len(),
            need_row.len() == m,
            m > 0,
            0 <= j <= m,
            can ==> forall|jj: int| 0 <= jj < j ==> #[trigger] need_row[jj] <= avail[jj],
            can && j > 0 ==> !finished,
            !can ==> finished || exists|jj: int| 0 <= jj < m && #[trigger] need_row[jj] > avail[jj],
        decreases m - j,
    {
        if finished || need_row[j] > avail[j] {
            can = false;
        }
        j = j + 1;
    }
    can
}

/// The first thread that can run, if any.
fn find_runnable(need: &Vec<Vec<i128>>, avail: &Vec<i128>, finished: &Vec<bool>) -> (r: Option<usize>)
    requires
        avail.len() > 0,
        finished.len() == need.len(),
        forall|t: int| 0 <= t < need.len() ==> #[trigger] need[t]@.len() == avail.len(),
    ensures
        r matches Some(t) ==> t < need.len() && runnable(avail@, rows(need@), finished@, t as int),
        r is None ==> forall|t: int|
            0 <= t < need.len() ==> !#[trigger] runnable(avail@, rows(need@), finished@, t),
{
    let n = need.len();
    let mut i: usize = 0;
    while i < n
        invariant
            n == need.len(),
            finished.len() == n,
            avail.len() > 0,
            forall|t: int| 0 <= t < need.len() ==> #[trigger] need[t]@.len() == avail.len(),
            0 <= i <= n,
            forall|t: int| 0 <= t < i ==> !#[trigger] runnable(avail@, rows(need@), finished@, t),
        decreases n - i,
    {
        let ok = can_run(&need[i], avail, finished[i]);
        proof {
            assert(rows(need@)[i as int] == need@[i as int]@);
        }
        if ok {
            return Some(i);
        }
        i = i + 1;
    }
    None
}

/// The banker's safety test: repeatedly let the first thread that can run
/// finish and give back what it holds; the state is safe when every thread
/// finishes this way, which is exactly when some order lets them all finish.
pub fn is_safe_state(available: &Vec<i128>, allocated: &Vec<Vec<i128>>, need: &Vec<Vec<i128>>) -> (safe: bool)
    requires
        available.len() > 0,
        well_shaped(available@, rows(allocated@), rows(need@)),
        forall|j: int|
            0 <= j < available.len() ==> #[trigger] available[j] + column_total(rows(allocated@), j)
                <= i128::MAX,
    ensures
        safe == is_safe(available@, rows(allocated@), rows(need@)),
{
    let ghost init = available@;
    let ghost alloc = rows(allocated@);
    let ghost needs = rows(need@);
    let n = need.len();
    let m = available.len();
    let mut avail: Vec<i128> = Vec::new();
    let mut j: usize = 0;
    while j < m
        invariant
            m == available.len(),
            0 <= j <= m,
            avail@ == available@.take(j as int),
        decreases m - j,
    {
        avail.push(available[j]);
        proof {
            assert(available@.take(j as int).push(available@[j as int]) =~= available@.take(j + 1));
        }
        j = j + 1;
    }
    proof {
        assert(available@.take(m as int) =~= available@);
    }
    let mut finished: Vec<bool> = Vec::new();
    let mut i: usize = 0;
    while i < n
        invariant
            0 <= i <= n,
            finished.len() == i,
            forall|t: int| 0 <= t < i ==> !#[trigger] finished[t],
        decreases n - i,
    {
        finished.push(false);
        i = i + 1;
    }
    let ghost mut order: Seq<int> = Seq::empty();
    proof {
        assert forall|t: int| 0 <= t < need.len() implies #[trigger] need[t]@.len() == available.len() by {
            assert(needs[t] == need@[t]@);
        }
    }
    let mut done = false;
    while !done
        invariant
            n == need.len(),
            n == allocated.len(),
            m == available.len(),
            m > 0,
            init == available@,
            alloc == rows(allocated@),
            needs == rows(need@),
            well_shaped(init, alloc, needs),
            forall|t: int| 0 <= t < need.len() ==> #[trigger] need[t]@.len() == available.len(),
            forall|jj: int| 0 <= jj < m ==> #[trigger] init[jj] + column_total(alloc, jj) <= i128::MAX,
            avail.len() == m,
            finished.len() == n,
            order.no_duplicates(),
            forall|k: int| 0 <= k < order.len() ==> 0 <= #[trigger] order[k] < n,
            forall|x: int| 0 <= x < n ==> (#[trigger] finished[x] <==> order.contains(x)),
            forall|jj: int| 0 <= jj < m ==> #[trigger] avail[jj] == init[jj] + released(alloc, order, jj),
            forall|k: int| 0 <= k < order.len() ==> #[trigger] needs_met(init, alloc, needs, order, k),
            order.len() <= n,
            done ==> forall|x: int| 0 <= x < n ==> !#[trigger] runnable(avail@, needs, finished@, x),
        decreases 2 * (n - order.len()) + if done { 0int } else { 1int },
    {
        match find_runnable(need, &avail, &finished) {
            None => {
                done = true;
            },
            Some(t) => {
                let ghost before = avail@;
                let ghost fin_before = finished@;
                let ghost next = order.push(t as int);
                proof {
                    assert(!order.contains(t as int));
                    assert(next.drop_last() =~= order);
                    assert forall|a: int, b: int| 0 <= a < b < next.len() implies next[a] != next[b] by {
                        if b == next.len() - 1 {
                            assert(order.contains(order[a]));
                        } else {
                            assert(order[a] != order[b]);
                        }
                    }
                    assert forall|k: int| 0 <= k < next.len() implies 0 <= #[trigger] next[k] < n by {
                        if k < order.len() {
                            assert(next[k] == order[k]);
                        }
                    }
                    lemma_distinct_bounded(next, n as int);
                }
                let mut jj: usize = 0;
                while jj < m
                    invariant
                        m == available.len(),
                        avail.len() == m,
                        0 <= t < n,
                        n == allocated.len(),
                        alloc == rows(allocated@),
                        well_shaped(init, alloc, needs),
                        init == available@,
                        0 <= jj <= m,
                        next == order.push(t as int),
                        next.no_duplicates(),
                        forall|k: int| 0 <= k < next.len() ==> 0 <= #[trigger] next[k] < n,
                        forall|x: int| 0 <= x < m ==> #[trigger] init[x] + column_total(alloc, x) <= i128::MAX,
                        forall|x: int| 0 <= x < m ==> #[trigger] before[x] == init[x] + released(alloc, order, x),
                        forall|x: int| 0 <= x < jj ==> #[trigger] avail[x] == init[x] + released(alloc, next, x),
                        forall|x: int| jj <= x < m ==> #[trigger] avail[x] == before[x],
                    decreases m - jj,
                {
                    proof {
                        assert(alloc[t as int] == allocated@[t as int]@);
                        assert(alloc[t as int].len() == m);
                        assert(next.drop_last() =~= order);
                        assert(released(alloc, next, jj as int) == released(alloc, order, jj as int) + alloc[t as int][jj as int]);
                        lemma_released_is_held_by(alloc, next, jj as int, n as int);
                        assert forall|y: int| 0 <= y < n && #[trigger] next.to_set().contains(y) implies Set::<int>::full().contains(y) by {}
                        assert forall|y: int| 0 <= y < n implies 0 <= #[trigger] alloc[y][jj as int] by {
                            assert(0 <= alloc[y][jj as int]);
                        }
                        lemma_held_by_monotone(alloc, next.to_set(), Set::full(), jj as int, n as int);
                        assert(0 <= alloc[t as int][jj as int]);
                    }
                    let add = allocated[t][jj];
                    avail.set(jj, avail[jj] + add);
                    jj = jj + 1;
                }
                finished.set(t, true);
                proof {
                    assert forall|k: int| 0 <= k < next.len() implies #[trigger] needs_met(init, alloc, needs, next, k) by {
                        if k < order.len() {
                            assert(next.take(k) =~= order.take(k));
                            assert(next[k] == order[k]);
                            assert(needs_met(init, alloc, needs, order, k));
                        } else {
                            assert(next.take(k) =~= order);
                            assert(runnable(before, needs, fin_before, t as int));
                        }
                    }
                    assert forall|x: int| 0 <= x < n implies (#[trigger] finished[x] <==> next.contains(x)) by {
                        if x == t {
                            assert(next[next.len() - 1] == x);
                        } else if order.contains(x) {
                            let k = choose|k: int| 0 <= k < order.len() && order[k] == x;
                            assert(next[k] == x);
                        } else if next.contains(x) {
                            let k = choose|k: int| 0 <= k < next.len() && next[k] == x;
                            assert(order[k] == x);
                        }
                    }
                    order = next;
                }
            },
        }
    }
    let mut i: usize = 0;
    while i < n
        invariant
            n == need.len(),
            n == allocated.len(),
            m == available.len(),
            init == available@,
            alloc == rows(allocated@),
            needs == rows(need@),
            well_shaped(init, alloc, needs),
            avail.len() == m,
            finished.len() == n,
            order.no_duplicates(),
            forall|k: int| 0 <= k < order.len() ==> 0 <= #[trigger] order[k] < n,
            forall|x: int| 0 <= x < n ==> (#[trigger] finished[x] <==> order.contains(x)),
            forall|jj: int| 0 <= jj < m ==> #[trigger] avail[jj] == init[jj] + released(alloc, order, jj),
            forall|k: int| 0 <= k < order.len() ==> #[trigger] needs_met(init, alloc, needs, order, k),
            forall|x: int| 0 <= x < n ==> !#[trigger] runnable(avail@, needs, finished@, x),
            0 <= i <= n,
            forall|x: int| 0 <= x < i ==> #[trigger] finished[x],
        decreases n - i,
    {
        if !finished[i] {
            proof {
                lemma_stuck_is_unsafe(init, alloc, needs, order, finished@, avail@, i as int);
            }
            return false;
        }
        i = i + 1;
    }
    proof {
        assert forall|x: int| 0 <= x < need.len() implies #[trigger] order.contains(x) by {
            assert(finished[x]);
        }
        assert(is_safe_order(init, alloc, needs, order));
    }
    true
}

proof fn lemma_released_nonneg(alloc: Seq<Seq<i128>>, order: Seq<int>, j: int)
    requires
        forall|k: int| 0 <= k < order.len() ==> 0 <= #[trigger] order[k] < alloc.len(),
        forall|t: int| 0 <= t < alloc.len() ==> 0 <= #[trigger] alloc[t][j],
    ensures
        released(alloc, order, j) >= 0,
    decreases order.len(),
{
    if order.len() > 0 {
        let front = order.drop_last();
        assert forall|k: int| 0 <= k < front.len() implies 0 <= #[trigger] front[k] < alloc.len() by {
            assert(order[k] == front[k]);
        }
        lemma_released_nonneg(alloc, front, j);
        assert(0 <= order[order.len() - 1] < alloc.len());
    }
}

/// A state in which every thread's demand can be met from the free units
/// alone is safe: the threads can finish in the order of their ids.
pub proof fn lemma_demands_met_is_safe(avail: Seq<i128>, alloc: Seq<Seq<i128>>, need: Seq<Seq<i128>>)
    requires
        well_shaped(avail, alloc, need),
        forall|t: int, j: int| 0 <= t < need.len() && 0 <= j < avail.len() ==> #[trigger] need[t][j] <= avail[j],
    ensures
        is_safe(avail, alloc, need),
{
    let n = need.len() as int;
    let order = Seq::new(n as nat, |i: int| i);
    assert forall|k: int| 0 <= k < order.len() implies #[trigger] needs_met(avail, alloc, need, order, k) by {
        let prefix = order.take(k);
        assert forall|j: int| 0 <= j < avail.len() implies #[trigger] need[order[k]][j] <= avail[j] + released(alloc, order.take(k), j) by {
            assert forall|t: int| 0 <= t < alloc.len() implies 0 <= #[trigger] alloc[t][j] by {
                assert(0 <= alloc[t][j]);
            }
            lemma_released_nonneg(alloc, prefix, j);
            assert(need[k][j] <= avail[j]);
        }
    }
    assert forall|t: int| 0 <= t < n implies #[trigger] order.contains(t) by {
        assert(order[t] == t);
    }
    assert(is_safe_order(avail, alloc, need, order));
}

/// Free units never hurt: a state that is safe stays safe when more units
/// are free.
pub proof fn lemma_more_available_stays_safe(
    avail: Seq<i128>,
    more: Seq<i128>,
    alloc: Seq<Seq<i128>>,
    need: Seq<Seq<i128>>,
)
    requires
        more.len() == avail.len(),
        forall|j: int| 0 <= j < avail.len() ==> avail[j] <= #[trigger] more[j],
        is_safe(avail, alloc, need),
    ensures
        is_safe(more, alloc, need),
{
    let order = choose|o: Seq<int>| is_safe_order(avail, alloc, need, o);
    assert forall|k: int| 0 <= k < order.len() implies #[trigger] needs_met(more, alloc, need, order, k) by {
        assert(needs_met(avail, alloc, need, order, k));
        assert forall|j: int| 0 <= j < more.len() implies #[trigger] need[order[k]][j] <= more[j] + released(alloc, order.take(k), j) by {
            assert(avail[j] <= more[j]);
        }
    }
    assert(is_safe_order(more, alloc, need, order));
}

/// What the safety test reads of one resource: its free units, the threads
/// holding a unit of it (a thread once per unit it holds) and the threads
/// waiting for a unit (a thread once per unit it waits for).
pub struct ResourceUsage {
    pub available: isize,
    pub allocated: Vec<usize>,
    pub need: Vec<usize>,
}

/// The mathematical view of a [`ResourceUsage`].
#[verifier::ext_equal]
pub struct UsageView {
    pub available: isize,
    pub allocated: Seq<usize>,
    pub need: Seq<usize>,
}

impl View for ResourceUsage {
    type V = UsageView;

    open spec fn view(&self) -> UsageView {
        UsageView { available: self.available, allocated: self.allocated@, need: self.need@ }
    }
}

/// The views of a list of usages.
pub open spec fn usage_views(us: Seq<ResourceUsage>) -> Seq<UsageView> {
    us.map_values(|u: ResourceUsage| u@)
}

/// The lists of a usage are no longer than a vector can be.
pub open spec fn usage_fits(us: Seq<UsageView>) -> bool {
    forall|i: int|
        0 <= i < us.len() ==> #[trigger] us[i].allocated.len() <= usize::MAX && us[i].need.len()
            <= usize::MAX
}

/// How many times `t` occurs in `s`.
pub open spec fn occurrences(s: Seq<usize>, t: int) -> int
    decreases s.len(),
{
    if s.len() == 0 {
        0
    } else {
        occurrences(s.drop_last(), t) + if s.last() == t {
            1int
        } else {
            0int
        }
    }
}

/// The free units of each resource.
pub open spec fn available_of(us: Seq<UsageView>) -> Seq<i128> {
    Seq::new(us.len(), |i: int| us[i].available as i128)
}

/// For each of `n` threads, the units it holds of each resource.
pub open spec fn allocated_of(us: Seq<UsageView>, n: int) -> Seq<Seq<i128>> {
    Seq::new(
        n as nat,
        |t: int| Seq::new(us.len(), |i: int| occurrences(us[i].allocated, t) as i128),
    )
}

/// For each of `n` threads, the units it waits for of each resource.
pub open spec fn need_of(us: Seq<UsageView>, n: int) -> Seq<Seq<i128>> {
    Seq::new(n as nat, |t: int| Seq::new(us.len(), |i: int| occurrences(us[i].need, t) as i128))
}

/// `need` with one more unit of resource `r` asked for by thread `tid`.
pub open spec fn with_request(need: Seq<Seq<i128>>, tid: int, r: int) -> Seq<Seq<i128>> {
    need.update(tid, need[tid].update(r, (need[tid][r] + 1) as i128))
}

/// Every thread named by a resource is one of the `n` threads.
pub open spec fn names_below(us: Seq<UsageView>, n: int) -> bool {
    &&& forall|i: int, k: int|
        0 <= i < us.len() && 0 <= k < us[i].allocated.len() ==> #[trigger] us[i].allocated[k] < n
    &&& forall|i: int, k: int|
        0 <= i < us.len() && 0 <= k < us[i].need.len() ==> #[trigger] us[i].need[k] < n
}

/// A thread that occurs in a list is counted at least once.
pub proof fn lemma_occurrences_member(s: Seq<usize>, k: int)
    requires
        0 <= k < s.len(),
    ensures
        occurrences(s, s[k] as int) >= 1,
    decreases s.len(),
{
    if k < s.len() - 1 {
        lemma_occurrences_member(s.drop_last(), k);
        lemma_occurrences_bounds(s, s[k] as int);
    } else {
        lemma_occurrences_bounds(s.drop_last(), s[k] as int);
    }
}

/// A one-thread list counts that thread once and no other.
pub proof fn lemma_occurrences_single(h: usize, t: int)
    ensures
        occurrences(seq![h], t) == if t == h {
            1int
        } else {
            0int
        },
{
    assert(seq![h].drop_last() =~= Seq::<usize>::empty());
    assert(occurrences(Seq::<usize>::empty(), t) == 0);
    assert(seq![h].last() == h);
    assert(seq![h].len() == 1);
}

pub proof fn lemma_occurrences_bounds(s: Seq<usize>, t: int)
    ensures
        0 <= occurrences(s, t) <= s.len(),
    decreases s.len(),
{
    if s.len() > 0 {
        lemma_occurrences_bounds(s.drop_last(), t);
    }
}

proof fn lemma_occurrences_push(s: Seq<usize>, x: usize, t: int)
    ensures
        occurrences(s.push(x), t) == occurrences(s, t) + if x == t {
            1int
        } else {
            0int
        },
{
    assert(s.push(x).drop_last() =~= s);
}

/// The occurrences in `s` of the threads below `n`, added up.
pub open spec fn occurrence_total(s: Seq<usize>, n: int) -> int
    decreases n,
{
    if n <= 0 {
        0
    } else {
        occurrence_total(s, n - 1) + occurrences(s, n - 1)
    }
}

proof fn lemma_occurrence_total_step(s: Seq<usize>, n: int)
    requires
        s.len() > 0,
    ensures
        occurrence_total(s, n) == occurrence_total(s.drop_last(), n) + if 0 <= s.last() < n {
            1int
        } else {
            0int
        },
    decreases n,
{
    if n > 0 {
        lemma_occurrence_total_step(s, n - 1);
    }
}

/// A list of threads below `n` names as many threads as it is long.
proof fn lemma_occurrence_total(s: Seq<usize>, n: int)
    requires
        forall|k: int| 0 <= k < s.len() ==> #[trigger] s[k] < n,
    ensures
        occurrence_total(s, n) == s.len(),
    decreases s.len(),
{
    if s.len() == 0 {
        lemma_occurrence_total_zero(s, n);
    } else {
        let front = s.drop_last();
        assert forall|k: int| 0 <= k < front.len() implies #[trigger] front[k] < n by {
            assert(s[k] == front[k]);
        }
        lemma_occurrence_total(front, n);
        lemma_occurrence_total_step(s, n);
        assert(s[s.len() - 1] < n);
    }
}

proof fn lemma_occurrence_total_zero(s: Seq<usize>, n: int)
    requires
        s.len() == 0,
    ensures
        occurrence_total(s, n) == 0,
    decreases n,
{
    if n > 0 {
        lemma_occurrence_total_zero(s, n - 1);
    }
}

/// The units of resource `i` held by all threads, when each thread's units
/// are counted from a list, is the length of that list.
proof fn lemma_column_total_of_usage(us: Seq<UsageView>, n: int, i: int)
    requires
        0 <= n,
        0 <= i < us.len(),
        names_below(us, n),
        usage_fits(us),
    ensures
        column_total(allocated_of(us, n), i) == us[i].allocated.len(),
{
    let alloc = allocated_of(us, n);
    let s = us[i].allocated;
    assert forall|k: int| 0 <= k < s.len() implies #[trigger] s[k] < n by {
        assert(us[i].allocated[k] < n);
    }
    lemma_occurrence_total(s, n);
    lemma_held_by_occurrences(us, n, i, n);
}

proof fn lemma_held_by_occurrences(us: Seq<UsageView>, n: int, i: int, k: int)
    requires
        0 <= k <= n,
        0 <= i < us.len(),
        usage_fits(us),
    ensures
        held_by(allocated_of(us, n), Set::full(), i, k) == occurrence_total(us[i].allocated, k),
    decreases k,
{
    if k > 0 {
        lemma_held_by_occurrences(us, n, i, k - 1);
        lemma_occurrences_bounds(us[i].allocated, k - 1);
        let o = occurrences(us[i].allocated, k - 1);
        assert(Set::<int>::full().contains(k - 1));
        assert(o <= usize::MAX);
        assert(allocated_of(us, n)[k - 1][i] == o as i128);
        assert((o as i128) as int == o);
    }
}

/// Fills the matrices that the safety test reads, one column per resource
/// and one row per thread, from what each resource reports.
fn usage_matrices(us: &Vec<ResourceUsage>, n: usize) -> (r: (Vec<i128>, Vec<Vec<i128>>, Vec<Vec<i128>>))
    requires
        names_below(usage_views(us@), n as int),
    ensures
        r.0@ == available_of(usage_views(us@)),
        rows(r.1@) == allocated_of(usage_views(us@), n as int),
        rows(r.2@) == need_of(usage_views(us@), n as int),
        r.1.len() == n,
        r.2.len() == n,
{
    let m = us.len();
    let mut available: Vec<i128> = Vec::new();
    let mut i: usize = 0;
    while i < m
        invariant
            m == us.len(),
            0 <= i <= m,
            available@ == available_of(usage_views(us@)).take(i as int),
        decreases m - i,
    {
        available.push(us[i].available as i128);
        proof {
            assert(available_of(usage_views(us@)).take(i as int).push(us[i as int].available as i128)
                =~= available_of(usage_views(us@)).take(i + 1));
        }
        i = i + 1;
    }
    proof {
        assert(available_of(usage_views(us@)).take(m as int) =~= available_of(usage_views(us@)));
    }
    let mut allocated: Vec<Vec<i128>> = Vec::new();
    let mut need: Vec<Vec<i128>> = Vec::new();
    let mut t: usize = 0;
    while t < n
        invariant
            m == us.len(),
            0 <= t <= n,
            allocated.len() == t,
            need.len() == t,
            forall|x: int| 0 <= x < t ==> #[trigger] allocated@[x]@ == Seq::new(m as nat, |i: int| 0i128),
            forall|x: int| 0 <= x < t ==> #[trigger] need@[x]@ == Seq::new(m as nat, |i: int| 0i128),
        decreases n - t,
    {
        let mut row: Vec<i128> = Vec::new();
        let mut k: usize = 0;
        while k < m
            invariant
                0 <= k <= m,
                row@ == Seq::new(k as nat, |i: int| 0i128),
            decreases m - k,
        {
            row.push(0);
            proof {
                assert(Seq::new(k as nat, |i: int| 0i128).push(0) =~= Seq::new((k + 1) as nat, |i: int| 0i128));
            }
            k = k + 1;
        }
        allocated.push(row.clone());
        need.push(row);
        t = t + 1;
    }
    let mut i: usize = 0;
    while i < m
        invariant
            m == us.len(),
            0 <= i <= m,
            names_below(usage_views(us@), n as int),
            allocated.len() == n,
            need.len() == n,
            forall|x: int| 0 <= x < n ==> #[trigger] allocated@[x]@.len() == m,
            forall|x: int| 0 <= x < n ==> #[trigger] need@[x]@.len() == m,
            forall|x: int, c: int| 0 <= x < n && 0 <= c < m ==> #[trigger] allocated@[x]@[c]
                == (if c < i { occurrences(us[c].allocated@, x) as i128 } else { 0i128 }),
            forall|x: int, c: int| 0 <= x < n && 0 <= c < m ==> #[trigger] need@[x]@[c]
                == (if c < i { occurrences(us[c].need@, x) as i128 } else { 0i128 }),
        decreases m - i,
    {
        let held = &us[i].allocated;
        let hl = held.len();
        let mut k: usize = 0;
        while k < hl
            invariant
                m == us.len(),
                0 <= i < m,
                held == &us@[i as int].allocated,
                hl == held.len(),
                0 <= k <= hl,
                names_below(usage_views(us@), n as int),
                allocated.len() == n,
                forall|x: int| 0 <= x < n ==> #[trigger] allocated@[x]@.len() == m,
                forall|x: int, c: int| 0 <= x < n && 0 <= c < m ==> #[trigger] allocated@[x]@[c]
                    == (if c < i { occurrences(us[c].allocated@, x) as i128 } else if c == i {
                        occurrences(held@.take(k as int), x) as i128 } else { 0i128 }),
            decreases hl - k,
        {
            let x = held[k];
            proof {
                assert(usage_views(us@)[i as int].allocated[k as int] < n);
                lemma_occurrences_bounds(held@.take(k as int), x as int);
            }
            let v = allocated[x][i];
            allocated[x][i] = v + 1;
            proof {
                assert(held@.take(k + 1) =~= held@.take(k as int).push(x));
                assert forall|y: int| 0 <= y < n implies occurrences(held@.take(k + 1), y)
                    == occurrences(held@.take(k as int), y) + if x == y { 1int } else { 0int } by {
                    lemma_occurrences_push(held@.take(k as int), x, y);
                }
            }
            k = k + 1;
        }
        proof {
            assert(held@.take(hl as int) =~= held@);
        }
        let waiting = &us[i].need;
        let wl = waiting.len();
        let mut k: usize = 0;
        while k < wl
            invariant
                m == us.len(),
                0 <= i < m,
                waiting == &us@[i as int].need,
                wl == waiting.len(),
                0 <= k <= wl,
                names_below(usage_views(us@), n as int),
                need.len() == n,
                forall|x: int| 0 <= x < n ==> #[trigger] need@[x]@.len() == m,
                forall|x: int, c: int| 0 <= x < n && 0 <= c < m ==> #[trigger] need@[x]@[c]
                    == (if c < i { occurrences(us[c].need@, x) as i128 } else if c == i {
                        occurrences(waiting@.take(k as int), x) as i128 } else { 0i128 }),
            decreases wl - k,
        {
            let x = waiting[k];
            proof {
                assert(usage_views(us@)[i as int].need[k as int] < n);
                lemma_occurrences_bounds(waiting@.take(k as int), x as int);
            }
            let v = need[x][i];
            need[x][i] = v + 1;
            proof {
                assert(waiting@.take(k + 1) =~= waiting@.take(k as int).push(x));
                assert forall|y: int| 0 <= y < n implies occurrences(waiting@.take(k + 1), y)
                    == occurrences(waiting@.take(k as int), y) + if x == y { 1int } else { 0int } by {
                    lemma_occurrences_push(waiting@.take(k as int), x, y);
                }
            }
            k = k + 1;
        }
        proof {
            assert(waiting@.take(wl as int) =~= waiting@);
        }
        i = i + 1;
    }
    proof {
        assert(rows(allocated@) =~= allocated_of(usage_views(us@), n as int)) by {
            assert forall|x: int| 0 <= x < n implies rows(allocated@)[x] =~= allocated_of(usage_views(us@), n as int)[x] by {}
        }
        assert(rows(need@) =~= need_of(usage_views(us@), n as int)) by {
            assert forall|x: int| 0 <= x < n implies rows(need@)[x] =~= need_of(usage_views(us@), n as int)[x] by {}
        }
    }
    (available, allocated, need)
}

/// Whether the state stays safe when thread `tid` asks for one more unit of
/// resource `r`, on top of what the resources report it holds and waits for.
pub fn request_is_safe(us: &Vec<ResourceUsage>, n: usize, tid: usize, r: usize) -> (safe: bool)
    requires
        r < us.len(),
        tid < n,
        names_below(usage_views(us@), n as int),
    ensures
        safe == is_safe(
            available_of(usage_views(us@)),
            allocated_of(usage_views(us@), n as int),
            with_request(need_of(usage_views(us@), n as int), tid as int, r as int),
        ),
{
    let (available, allocated, mut need) = usage_matrices(us, n);
    let ghost needs0 = rows(need@);
    proof {
        assert(need@[tid as int]@ == needs0[tid as int]);
        lemma_occurrences_bounds(us[r as int].need@, tid as int);
        assert(us[r as int].need@.len() == us[r as int].need.len());
    }
    let v = need[tid][r];
    need[tid][r] = v + 1;
    proof {
        let m = us.len() as int;
        let alloc = rows(allocated@);
        assert(rows(need@) =~= with_request(needs0, tid as int, r as int)) by {
            assert forall|x: int| 0 <= x < n implies #[trigger] rows(need@)[x] =~= with_request(needs0, tid as int, r as int)[x] by {
            }
        }
        assert forall|t: int, j: int| 0 <= t < alloc.len() && 0 <= j < m implies 0 <= #[trigger] alloc[t][j] by {
            lemma_occurrences_bounds(us[j].allocated@, t);
            assert(us[j].allocated@.len() == us[j].allocated.len());
        }
        assert(usage_fits(usage_views(us@))) by {
            assert forall|i: int| 0 <= i < m implies #[trigger] usage_views(us@)[i].allocated.len() <= usize::MAX
                && usage_views(us@)[i].need.len() <= usize::MAX by {
                assert(us@[i].allocated@.len() == us@[i].allocated.len());
                assert(us@[i].need@.len() == us@[i].need.len());
            }
        }
        assert forall|j: int| 0 <= j < m implies #[trigger] available[j] + column_total(alloc, j) <= i128::MAX by {
            lemma_column_total_of_usage(usage_views(us@), n as int, j);
            assert(us[j].allocated@.len() == us[j].allocated.len());
        }
    }
    is_safe_state(&available, &allocated, &need)
}

/// Whether every thread named by the usages is below `n`.
pub fn usage_names_below(us: &Vec<ResourceUsage>, n: usize) -> (ok: bool)
    ensures
        ok == names_below(usage_views(us@), n as int),
{
    let m = us.len();
    let mut i: usize = 0;
    while i < m
        invariant
            m == us.len(),
            0 <= i <= m,
            names_below(usage_views(us@).take(i as int), n as int),
        decreases m - i,
    {
        let held = &us[i].allocated;
        let mut k: usize = 0;
        while k < held.len()
            invariant
                0 <= i < m,
                m == us.len(),
                held == &us@[i as int].allocated,
                0 <= k <= held.len(),
                forall|x: int| 0 <= x < k ==> #[trigger] held@[x] < n,
            decreases held.len() - k,
        {
            if held[k] >= n {
                proof {
                    assert(usage_views(us@)[i as int].allocated[k as int] >= n);
                }
                return false;
            }
            k = k + 1;
        }
        let waiting = &us[i].need;
        let mut k: usize = 0;
        while k < waiting.len()
            invariant
                0 <= i < m,
                m == us.len(),
                waiting == &us@[i as int].need,
                0 <= k <= waiting.len(),
                forall|x: int| 0 <= x < k ==> #[trigger] waiting@[x] < n,
            decreases waiting.len() - k,
        {
            if waiting[k] >= n {
                proof {
                    assert(usage_views(us@)[i as int].need[k as int] >= n);
                }
                return false;
            }
            k = k + 1;
        }
        proof {
            let vs = usage_views(us@);
            assert forall|a: int, b: int| 0 <= a < i + 1 && 0 <= b < vs.take(i + 1)[a].allocated.len() implies #[trigger] vs.take(i + 1)[a].allocated[b] < n by {
                if a < i {
                    assert(vs.take(i as int)[a] == vs.take(i + 1)[a]);
                }
            }
            assert forall|a: int, b: int| 0 <= a < i + 1 && 0 <= b < vs.take(i + 1)[a].need.len() implies #[trigger] vs.take(i + 1)[a].need[b] < n by {
                if a < i {
                    assert(vs.take(i as int)[a] == vs.take(i + 1)[a]);
                }
            }
        }
        i = i + 1;
    }
    proof {
        assert(usage_views(us@).take(m as int) =~= usage_views(us@));
    }
    true
}

} // verus!
