//! The banker's safety check over one kind of resource (mutexes or
//! semaphores) of a process.
//!
//! `available[r]` is how many units of resource `r` are free, `need[t][r]`
//! how many units thread `t` still waits for, `allocation[t][r]` how many
//! it holds. A thread can finish when its whole need row fits in what is
//! free; when it finishes it gives back its allocation row.
use vstd::prelude::*;

verus! {

/// The rows of a matrix of counters, each as a sequence.
pub open spec fn matrix_view(m: &Vec<Vec<isize>>) -> Seq<Seq<isize>> {
    Seq::new(m@.len(), |t: int| m@[t]@)
}

/// One need row and one allocation row per thread, every row as wide as
/// `available`.
pub open spec fn well_shaped(
    available: Seq<isize>,
    need: Seq<Seq<isize>>,
    allocation: Seq<Seq<isize>>,
) -> bool {
    &&& allocation.len() == need.len()
    &&& forall|t: int| 0 <= t < need.len() ==> #[trigger] need[t].len() == available.len()
    &&& forall|t: int| 0 <= t < allocation.len() ==> #[trigger] allocation[t].len() == available.len()
}

/// Units of resource `r` given back by the threads of `order`.
pub open spec fn released(allocation: Seq<Seq<isize>>, order: Seq<int>, r: int) -> int
    decreases order.len(),
{
    if order.len() == 0 {
        0
    } else {
        released(allocation, order.drop_last(), r) + allocation[order.last()][r]
    }
}

/// Units of resource `r` free once the threads of `order` have finished.
pub open spec fn work_after(
    available: Seq<isize>,
    allocation: Seq<Seq<isize>>,
    order: Seq<int>,
    r: int,
) -> int {
    available[r] + released(allocation, order, r)
}

/// Thread `t`'s whole need fits in what is free once `order` has finished.
pub open spec fn can_finish(
    available: Seq<isize>,
    need: Seq<Seq<isize>>,
    allocation: Seq<Seq<isize>>,
    order: Seq<int>,
    t: int,
) -> bool {
    forall|r: int|
        0 <= r < available.len() ==> need[t][r] <= #[trigger] work_after(
            available,
            allocation,
            order,
            r,
        )
}

/// Thread `t` has not finished yet and can finish after `order`.
pub open spec fn is_candidate(
    available: Seq<isize>,
    need: Seq<Seq<isize>>,
    allocation: Seq<Seq<isize>>,
    order: Seq<int>,
    t: int,
) -> bool {
    &&& 0 <= t < need.len()
    &&& !order.contains(t)
    &&& can_finish(available, need, allocation, order, t)
}

/// The first candidate at index `k` or above.
pub open spec fn first_candidate_from(
    available: Seq<isize>,
    need: Seq<Seq<isize>>,
    allocation: Seq<Seq<isize>>,
    order: Seq<int>,
    k: int,
) -> Option<int>
    decreases need.len() - k,
{
    if k < 0 || k >= need.len() {
        None
    } else if is_candidate(available, need, allocation, order, k) {
        Some(k)
    } else {
        first_candidate_from(available, need, allocation, order, k + 1)
    }
}

/// How many of the threads `0..k` are not in `order`.
pub open spec fn unfinished_count(order: Seq<int>, k: int) -> nat
    decreases k,
{
    if k <= 0 {
        0
    } else {
        unfinished_count(order, k - 1) + if order.contains(k - 1) {
            0nat
        } else {
            1nat
        }
    }
}

/// Appending a thread of `0..k` that is not yet in `order` leaves one
/// fewer unfinished thread there.
pub proof fn lemma_unfinished_push(order: Seq<int>, k: int, t: int)
    requires
        0 <= t,
        !order.contains(t),
    ensures
        t < k ==> unfinished_count(order.push(t), k) + 1 == unfinished_count(order, k),
        t >= k ==> unfinished_count(order.push(t), k) == unfinished_count(order, k),
    decreases k,
{
    if k > 0 {
        lemma_unfinished_push(order, k - 1, t);
        lemma_push_contains(order, t, k - 1);
    }
}

/// What a pushed sequence contains.
pub proof fn lemma_push_contains(s: Seq<int>, x: int, y: int)
    ensures
        s.push(x).contains(y) <==> (s.contains(y) || y == x),
{
    if s.contains(y) {
        let k = choose|k: int| 0 <= k < s.len() && s[k] == y;
        assert(s.push(x)[k] == y);
    }
    if y == x {
        assert(s.push(x)[s.len() as int] == y);
    }
    if s.push(x).contains(y) {
        let k = choose|k: int| 0 <= k < s.push(x).len() && s.push(x)[k] == y;
        if k < s.len() {
            assert(s[k] == y);
        }
    }
}

/// With no thread finished, every thread of `0..k` is unfinished.
pub proof fn lemma_unfinished_empty(k: int)
    requires
        k >= 0,
    ensures
        unfinished_count(Seq::<int>::empty(), k) == k,
    decreases k,
{
    if k > 0 {
        lemma_unfinished_empty(k - 1);
    }
}

/// A candidate found by the scan is a thread that has not finished.
pub proof fn lemma_first_candidate(
    available: Seq<isize>,
    need: Seq<Seq<isize>>,
    allocation: Seq<Seq<isize>>,
    order: Seq<int>,
    k: int,
)
    ensures
        first_candidate_from(available, need, allocation, order, k) matches Some(t) ==> (k <= t
            && is_candidate(available, need, allocation, order, t)),
    decreases need.len() - k,
{
    if 0 <= k < need.len() && !is_candidate(available, need, allocation, order, k) {
        lemma_first_candidate(available, need, allocation, order, k + 1);
    }
}

/// The order in which the check lets threads finish: starting from
/// `order`, it repeatedly lets the lowest-numbered candidate finish.
pub open spec fn greedy_order(
    available: Seq<isize>,
    need: Seq<Seq<isize>>,
    allocation: Seq<Seq<isize>>,
    order: Seq<int>,
) -> Seq<int>
    decreases unfinished_count(order, need.len() as int),
{
    match first_candidate_from(available, need, allocation, order, 0) {
        Some(t) => {
            proof {
                lemma_first_candidate(available, need, allocation, order, 0);
                lemma_unfinished_push(order, need.len() as int, t);
            }
            greedy_order(available, need, allocation, order.push(t))
        },
        None => order,
    }
}

/// The check lets every thread finish.
pub open spec fn greedy_completes(
    available: Seq<isize>,
    need: Seq<Seq<isize>>,
    allocation: Seq<Seq<isize>>,
) -> bool {
    forall|t: int|
        0 <= t < need.len() ==> #[trigger] greedy_order(
            available,
            need,
            allocation,
            Seq::empty(),
        ).contains(t)
}

/// `order` lists every thread once, and each can finish with what is free
/// after the threads before it have finished.
pub open spec fn is_safe_order(
    available: Seq<isize>,
    need: Seq<Seq<isize>>,
    allocation: Seq<Seq<isize>>,
    order: Seq<int>,
) -> bool {
    &&& order.no_duplicates()
    &&& forall|k: int| 0 <= k < order.len() ==> 0 <= #[trigger] order[k] < need.len()
    &&& forall|t: int| 0 <= t < need.len() ==> #[trigger] order.contains(t)
    &&& forall|k: int|
        0 <= k < order.len() ==> can_finish(
            available,
            need,
            allocation,
            order.take(k),
            #[trigger] order[k],
        )
}

/// Some order lets every thread finish: the state is safe.
pub open spec fn is_safe_state(
    available: Seq<isize>,
    need: Seq<Seq<isize>>,
    allocation: Seq<Seq<isize>>,
) -> bool {
    exists|order: Seq<int>| is_safe_order(available, need, allocation, order)
}

/// What the threads of `order` give back stays within what so many
/// `isize` counters can add up to.
proof fn lemma_released_bounds(allocation: Seq<Seq<isize>>, order: Seq<int>, r: int)
    ensures
        -0x8000_0000_0000_0000 * order.len() <= released(allocation, order, r)
            <= 0x7fff_ffff_ffff_ffff * order.len(),
    decreases order.len(),
{
    if order.len() > 0 {
        lemma_released_bounds(allocation, order.drop_last(), r);
    }
}

/// The banker's safety check: starting from `available`, let the
/// lowest-numbered thread whose need fits finish and give back its
/// allocation, and repeat; report whether every thread finished.
pub fn banker_check(
    available: &Vec<isize>,
    need: &Vec<Vec<isize>>,
    allocation: &Vec<Vec<isize>>,
) -> (safe: bool)
    requires
        well_shaped(available@, matrix_view(need), matrix_view(allocation)),
    ensures
        safe == greedy_completes(available@, matrix_view(need), matrix_view(allocation)),
{
    let ghost avail = available@;
    let ghost needs = matrix_view(need);
    let ghost allocs = matrix_view(allocation);
    let n = need.len();
    let m = available.len();
    let mut work: Vec<i128> = Vec::new();
    let mut r: usize = 0;
    while r < m
        invariant
            r <= m,
            m == available.len(),
            work@.len() == r,
            forall|q: int| 0 <= q < r ==> #[trigger] work@[q] == available@[q] as int,
        decreases m - r,
    {
        work.push(available[r] as i128);
        r += 1;
    }
    let mut finish: Vec<bool> = Vec::new();
    let mut t: usize = 0;
    while t < n
        invariant
            t <= n,
            finish@.len() == t,
            forall|q: int| 0 <= q < t ==> !#[trigger] finish@[q],
        decreases n - t,
    {
        finish.push(false);
        t += 1;
    }
    let ghost mut order: Seq<int> = Seq::empty();
    proof {
        lemma_unfinished_empty(n as int);
        assert forall|q: int| 0 <= q < m implies #[trigger] work@[q] == work_after(
            avail,
            allocs,
            order,
            q,
        ) by {}
    }
    let mut i: usize = 0;
    while i < n
        invariant
            n == need.len(),
            m == available.len(),
            avail == available@,
            needs == matrix_view(need),
            allocs == matrix_view(allocation),
            well_shaped(avail, needs, allocs),
            i <= n,
            finish@.len() == n,
            work@.len() == m,
            order.no_duplicates(),
            forall|k: int| 0 <= k < order.len() ==> 0 <= #[trigger] order[k] < n,
            forall|q: int| 0 <= q < n ==> (#[trigger] finish@[q] <==> order.contains(q)),
            forall|q: int|
                0 <= q < m ==> #[trigger] work@[q] == work_after(avail, allocs, order, q),
            order.len() + unfinished_count(order, n as int) == n,
            greedy_order(avail, needs, allocs, order) == greedy_order(
                avail,
                needs,
                allocs,
                Seq::empty(),
            ),
            first_candidate_from(avail, needs, allocs, order, 0) == first_candidate_from(
                avail,
                needs,
                allocs,
                order,
                i as int,
            ),
        decreases unfinished_count(order, n as int), n - i,
    {
        let mut fits = false;
        if !finish[i] {
            fits = true;
            let mut r: usize = 0;
            while r < m
                invariant
                    r <= m,
                    m == available.len(),
                    i < n,
                    n == need.len(),
                    work@.len() == m,
                    needs == matrix_view(need),
                    well_shaped(avail, needs, allocs),
                    avail == available@,
                    fits <==> forall|q: int|
                        0 <= q < r ==> need@[i as int]@[q] as int <= #[trigger] work@[q],
                decreases m - r,
            {
                assert(needs[i as int].len() == m);
                if (need[i][r] as i128) > work[r] {
                    fits = false;
                }
                r += 1;
            }
            proof {
                assert(fits <==> can_finish(avail, needs, allocs, order, i as int)) by {
                    if fits {
                        assert forall|q: int| 0 <= q < avail.len() implies needs[i as int][q]
                            <= #[trigger] work_after(avail, allocs, order, q) by {
                            assert(work@[q] == work_after(avail, allocs, order, q));
                        }
                    }
                    if can_finish(avail, needs, allocs, order, i as int) {
                        assert forall|q: int| 0 <= q < m implies need@[i as int]@[q] as int
                            <= #[trigger] work@[q] by {
                            assert(needs[i as int][q] <= work_after(avail, allocs, order, q));
                        }
                    }
                }
            }
        }
        if fits {
            let ghost old_order = order;
            let ghost old_work = work@;
            proof {
                assert(is_candidate(avail, needs, allocs, order, i as int));
                assert(first_candidate_from(avail, needs, allocs, order, i as int) == Some(
                    i as int,
                ));
                assert(greedy_order(avail, needs, allocs, order) == greedy_order(
                    avail,
                    needs,
                    allocs,
                    order.push(i as int),
                ));
                lemma_unfinished_push(order, n as int, i as int);
            }
            let mut r: usize = 0;
            while r < m
                invariant
                    r <= m,
                    m == available.len(),
                    i < n,
                    n == need.len(),
                    work@.len() == m,
                    old_work.len() == m,
                    allocs == matrix_view(allocation),
                    well_shaped(avail, needs, allocs),
                    forall|k: int| 0 <= k < old_order.len() + 1 ==> 0 <= #[trigger] old_order.push(i as int)[k] < n,
                    forall|q: int|
                        0 <= q < m ==> #[trigger] old_work[q] == work_after(avail, allocs, old_order, q),
                    forall|q: int|
                        0 <= q < r ==> #[trigger] work@[q] == work_after(
                            avail,
                            allocs,
                            old_order.push(i as int),
                            q,
                        ),
                    forall|q: int| r <= q < m ==> #[trigger] work@[q] == old_work[q],
                    old_order.len() + 1 <= n,
                    allocs.len() == n,
                    avail == available@,
                decreases m - r,
            {
                proof {
                    let o2 = old_order.push(i as int);
                    assert(o2.drop_last() == old_order);
                    assert(allocs[i as int].len() == m);
                    lemma_released_bounds(allocs, o2, r as int);
                    assert(work_after(avail, allocs, o2, r as int) == old_work[r as int]
                        + allocs[i as int][r as int]);
                    assert(o2.len() <= usize::MAX);
                    assert(0x7fff_ffff_ffff_ffff * o2.len() <= 0x7fff_ffff_ffff_ffff
                        * 0xffff_ffff_ffff_ffffint) by (nonlinear_arith)
                        requires
                            o2.len() <= 0xffff_ffff_ffff_ffffint,
                    ;
                    assert(-0x8000_0000_0000_0000 * o2.len() >= -0x8000_0000_0000_0000
                        * 0xffff_ffff_ffff_ffffint) by (nonlinear_arith)
                        requires
                            o2.len() <= 0xffff_ffff_ffff_ffffint,
                    ;
                }
                let v = work[r] + allocation[i][r] as i128;
                work.set(r, v);
                r += 1;
            }
            finish.set(i, true);
            proof {
                order = order.push(i as int);
                assert forall|q: int| 0 <= q < n implies (#[trigger] finish@[q]
                    <==> order.contains(q)) by {
                    lemma_push_contains(old_order, i as int, q);
                }
                assert(order.no_duplicates()) by {
                    assert forall|a: int, b: int|
                        0 <= a < b < order.len() implies order[a] != order[b] by {
                        if b == order.len() - 1 {
                            assert(old_order[a] == order[a]);
                        } else {
                            assert(old_order[a] == order[a]);
                            assert(old_order[b] == order[b]);
                        }
                    }
                }
            }
            i = 0;
        } else {
            proof {
                assert(!is_candidate(avail, needs, allocs, order, i as int));
            }
            i += 1;
        }
    }
    proof {
        assert(first_candidate_from(avail, needs, allocs, order, 0) is None);
        assert(greedy_order(avail, needs, allocs, order) == order);
    }
    let mut k: usize = 0;
    while k < n
        invariant
            k <= n,
            finish@.len() == n,
            forall|q: int| 0 <= q < k ==> #[trigger] finish@[q],
            n == need.len(),
            needs == matrix_view(need),
            avail == available@,
            allocs == matrix_view(allocation),
            forall|q: int| 0 <= q < n ==> (#[trigger] finish@[q] <==> order.contains(q)),
            greedy_order(avail, needs, allocs, Seq::empty()) == order,
        decreases n - k,
    {
        if !finish[k] {
            return false;
        }
        k += 1;
    }
    proof {
        assert forall|t: int| 0 <= t < needs.len() implies #[trigger] greedy_order(
            avail,
            needs,
            allocs,
            Seq::empty(),
        ).contains(t) by {
            assert(finish@[t]);
        }
    }
    true
}


/// The threads of `order` are distinct threads of `0..n`.
pub open spec fn distinct_threads(order: Seq<int>, n: int) -> bool {
    &&& order.no_duplicates()
    &&& forall|k: int| 0 <= k < order.len() ==> 0 <= #[trigger] order[k] < n
}

/// Every thread of `order` could finish after the ones before it.
pub open spec fn finishes_in_turn(
    available: Seq<isize>,
    need: Seq<Seq<isize>>,
    allocation: Seq<Seq<isize>>,
    order: Seq<int>,
) -> bool {
    forall|k: int|
        0 <= k < order.len() ==> can_finish(
            available,
            need,
            allocation,
            order.take(k),
            #[trigger] order[k],
        )
}

/// A scan that finds nothing from `k` on passes over no candidate there.
proof fn lemma_no_candidate_from(
    available: Seq<isize>,
    need: Seq<Seq<isize>>,
    allocation: Seq<Seq<isize>>,
    order: Seq<int>,
    k: int,
)
    requires
        0 <= k,
        first_candidate_from(available, need, allocation, order, k) is None,
    ensures
        forall|t: int|
            k <= t < need.len() ==> !#[trigger] is_candidate(available, need, allocation, order, t),
    decreases need.len() - k,
{
    if k < need.len() {
        lemma_no_candidate_from(available, need, allocation, order, k + 1);
    }
}

/// Running the check from a prefix in which every thread finished in
/// turn only extends that prefix by threads that finish in turn, and it
/// stops where no thread is left that can finish.
proof fn lemma_greedy_extends(
    available: Seq<isize>,
    need: Seq<Seq<isize>>,
    allocation: Seq<Seq<isize>>,
    order: Seq<int>,
)
    requires
        distinct_threads(order, need.len() as int),
        finishes_in_turn(available, need, allocation, order),
    ensures
        distinct_threads(greedy_order(available, need, allocation, order), need.len() as int),
        finishes_in_turn(
            available,
            need,
            allocation,
            greedy_order(available, need, allocation, order),
        ),
        forall|t: int|
            !#[trigger] is_candidate(
                available,
                need,
                allocation,
                greedy_order(available, need, allocation, order),
                t,
            ),
    decreases unfinished_count(order, need.len() as int),
{
    match first_candidate_from(available, need, allocation, order, 0) {
        Some(t) => {
            lemma_first_candidate(available, need, allocation, order, 0);
            lemma_unfinished_push(order, need.len() as int, t);
            let next = order.push(t);
            assert(distinct_threads(next, need.len() as int)) by {
                assert forall|a: int, b: int| 0 <= a < b < next.len() implies next[a] != next[b] by {
                    assert(next[a] == order[a]);
                    if b < order.len() {
                        assert(next[b] == order[b]);
                    }
                }
            }
            assert(finishes_in_turn(available, need, allocation, next)) by {
                assert forall|k: int| 0 <= k < next.len() implies can_finish(
                    available,
                    need,
                    allocation,
                    next.take(k),
                    #[trigger] next[k],
                ) by {
                    if k < order.len() {
                        assert(next.take(k) =~= order.take(k));
                        assert(next[k] == order[k]);
                    } else {
                        assert(next.take(k) =~= order);
                    }
                }
            }
            lemma_greedy_extends(available, need, allocation, next);
        },
        None => {
            lemma_no_candidate_from(available, need, allocation, order, 0);
        },
    }
}

/// Whenever the check lets every thread finish, the order in which it let
/// them finish is a safe order.
pub proof fn lemma_greedy_order_is_safe(
    available: Seq<isize>,
    need: Seq<Seq<isize>>,
    allocation: Seq<Seq<isize>>,
)
    requires
        greedy_completes(available, need, allocation),
    ensures
        is_safe_order(
            available,
            need,
            allocation,
            greedy_order(available, need, allocation, Seq::empty()),
        ),
{
    let e = Seq::<int>::empty();
    assert(distinct_threads(e, need.len() as int));
    assert(finishes_in_turn(available, need, allocation, e));
    lemma_greedy_extends(available, need, allocation, e);
}

/// No allocation counter is negative.
pub open spec fn allocation_nonnegative(allocation: Seq<Seq<isize>>) -> bool {
    forall|t: int, r: int|
        0 <= t < allocation.len() && 0 <= r < allocation[t].len() ==> 0 <= #[trigger] allocation[t][r]
}

/// Taking one thread out of an order takes its allocation out of the sum.
proof fn lemma_released_remove(allocation: Seq<Seq<isize>>, order: Seq<int>, p: int, r: int)
    requires
        0 <= p < order.len(),
    ensures
        released(allocation, order, r) == released(allocation, order.remove(p), r)
            + allocation[order[p]][r],
    decreases order.len(),
{
    if p == order.len() - 1 {
        assert(order.remove(p) =~= order.drop_last());
    } else {
        let shorter = order.drop_last();
        lemma_released_remove(allocation, shorter, p, r);
        assert(order.remove(p).drop_last() =~= shorter.remove(p));
        assert(order.remove(p).last() == order.last());
    }
}

/// With no negative allocation, nothing given back is negative.
proof fn lemma_released_nonnegative(allocation: Seq<Seq<isize>>, order: Seq<int>, r: int)
    requires
        allocation_nonnegative(allocation),
        forall|k: int| 0 <= k < order.len() ==> 0 <= #[trigger] order[k] < allocation.len(),
        forall|t: int| 0 <= t < allocation.len() ==> r < #[trigger] allocation[t].len(),
        0 <= r,
    ensures
        released(allocation, order, r) >= 0,
    decreases order.len(),
{
    if order.len() > 0 {
        assert(order[order.len() - 1] == order.last());
        assert forall|k: int| 0 <= k < order.drop_last().len() implies 0
            <= #[trigger] order.drop_last()[k] < allocation.len() by {
            assert(order.drop_last()[k] == order[k]);
        }
        lemma_released_nonnegative(allocation, order.drop_last(), r);
    }
}

/// With no negative allocation, the threads of `part`, all of which are in
/// `whole`, give back no more than the threads of `whole`.
proof fn lemma_released_subset(
    allocation: Seq<Seq<isize>>,
    part: Seq<int>,
    whole: Seq<int>,
    r: int,
)
    requires
        allocation_nonnegative(allocation),
        part.no_duplicates(),
        whole.no_duplicates(),
        forall|k: int| 0 <= k < whole.len() ==> 0 <= #[trigger] whole[k] < allocation.len(),
        forall|k: int| 0 <= k < part.len() ==> whole.contains(#[trigger] part[k]),
        forall|t: int| 0 <= t < allocation.len() ==> r < #[trigger] allocation[t].len(),
        0 <= r,
    ensures
        released(allocation, part, r) <= released(allocation, whole, r),
    decreases part.len(),
{
    if part.len() == 0 {
        lemma_released_nonnegative(allocation, whole, r);
    } else {
        let x = part.last();
        assert(part[part.len() - 1] == x);
        let p = choose|p: int| 0 <= p < whole.len() && whole[p] == x;
        let rest = whole.remove(p);
        lemma_released_remove(allocation, whole, p, r);
        let front = part.drop_last();
        assert(rest.no_duplicates()) by {
            assert forall|a: int, b: int| 0 <= a < b < rest.len() implies rest[a] != rest[b] by {
                let a2 = if a < p { a } else { a + 1 };
                let b2 = if b < p { b } else { b + 1 };
                assert(rest[a] == whole[a2]);
                assert(rest[b] == whole[b2]);
            }
        }
        assert forall|k: int| 0 <= k < rest.len() implies 0 <= #[trigger] rest[k]
            < allocation.len() by {
            let k2 = if k < p { k } else { k + 1 };
            assert(rest[k] == whole[k2]);
        }
        assert(front.no_duplicates()) by {
            assert forall|a: int, b: int| 0 <= a < b < front.len() implies front[a] != front[b] by {
                assert(front[a] == part[a]);
                assert(front[b] == part[b]);
            }
        }
        assert forall|k: int| 0 <= k < front.len() implies rest.contains(#[trigger] front[k]) by {
            let y = front[k];
            assert(y == part[k]);
            assert(whole.contains(part[k]));
            assert(y != x);
            let q = choose|q: int| 0 <= q < whole.len() && whole[q] == y;
            assert(q != p);
            let q2 = if q < p { q } else { q - 1 };
            assert(rest[q2] == y);
        }
        lemma_released_subset(allocation, front, rest, r);
    }
}

/// Given a safe order, every thread of it is let finish by the check, if no
/// allocation is negative.
proof fn lemma_safe_prefix_finishes(
    available: Seq<isize>,
    need: Seq<Seq<isize>>,
    allocation: Seq<Seq<isize>>,
    order: Seq<int>,
    k: int,
)
    requires
        well_shaped(available, need, allocation),
        allocation_nonnegative(allocation),
        is_safe_order(available, need, allocation, order),
        0 <= k <= order.len(),
    ensures
        forall|j: int|
            0 <= j < k ==> greedy_order(available, need, allocation, Seq::empty()).contains(
                #[trigger] order[j],
            ),
    decreases k,
{
    if k > 0 {
        lemma_safe_prefix_finishes(available, need, allocation, order, k - 1);
        let g = greedy_order(available, need, allocation, Seq::empty());
        let e = Seq::<int>::empty();
        assert(distinct_threads(e, need.len() as int));
        assert(finishes_in_turn(available, need, allocation, e));
        lemma_greedy_extends(available, need, allocation, e);
        let t = order[k - 1];
        if !g.contains(t) {
            let prefix = order.take(k - 1);
            assert(can_finish(available, need, allocation, prefix, t));
            assert(prefix.no_duplicates()) by {
                assert forall|a: int, b: int| 0 <= a < b < prefix.len() implies prefix[a]
                    != prefix[b] by {
                    assert(prefix[a] == order[a]);
                    assert(prefix[b] == order[b]);
                }
            }
            assert forall|j: int| 0 <= j < prefix.len() implies g.contains(#[trigger] prefix[j]) by {
                assert(prefix[j] == order[j]);
            }
            assert(can_finish(available, need, allocation, g, t)) by {
                assert forall|r: int| 0 <= r < available.len() implies need[t][r]
                    <= #[trigger] work_after(available, allocation, g, r) by {
                    assert(need[t][r] <= work_after(available, allocation, prefix, r));
                    lemma_released_subset(allocation, prefix, g, r);
                }
            }
            assert(is_candidate(available, need, allocation, g, t));
        }
    }
}

/// The banker's check decides safety: when no allocation is negative, it
/// lets every thread finish exactly when some order of the threads lets
/// each finish with what the earlier ones gave back.
pub proof fn lemma_check_decides_safety(
    available: Seq<isize>,
    need: Seq<Seq<isize>>,
    allocation: Seq<Seq<isize>>,
)
    requires
        well_shaped(available, need, allocation),
        allocation_nonnegative(allocation),
    ensures
        greedy_completes(available, need, allocation) <==> is_safe_state(
            available,
            need,
            allocation,
        ),
{
    if greedy_completes(available, need, allocation) {
        lemma_greedy_order_is_safe(available, need, allocation);
    }
    if is_safe_state(available, need, allocation) {
        let order = choose|order: Seq<int>| is_safe_order(available, need, allocation, order);
        lemma_safe_prefix_finishes(available, need, allocation, order, order.len() as int);
        assert forall|t: int| 0 <= t < need.len() implies #[trigger] greedy_order(
            available,
            need,
            allocation,
            Seq::empty(),
        ).contains(t) by {
            assert(order.contains(t));
            let j = choose|j: int| 0 <= j < order.len() && order[j] == t;
        }
    }
}

/// More free units never make a safe state unsafe: with no negative
/// allocation, when the check lets every thread finish from `available`, it
/// does so from any `more` that is at least as large in every resource.
pub proof fn lemma_more_available_stays_safe(
    available: Seq<isize>,
    more: Seq<isize>,
    need: Seq<Seq<isize>>,
    allocation: Seq<Seq<isize>>,
)
    requires
        well_shaped(available, need, allocation),
        more.len() == available.len(),
        forall|r: int| 0 <= r < available.len() ==> available[r] <= #[trigger] more[r],
        allocation_nonnegative(allocation),
        greedy_completes(available, need, allocation),
    ensures
        greedy_completes(more, need, allocation),
{
    lemma_check_decides_safety(available, need, allocation);
    let order = choose|order: Seq<int>| is_safe_order(available, need, allocation, order);
    assert forall|k: int| 0 <= k < order.len() implies can_finish(
        more,
        need,
        allocation,
        order.take(k),
        #[trigger] order[k],
    ) by {
        assert(can_finish(available, need, allocation, order.take(k), order[k]));
        assert forall|r: int| 0 <= r < more.len() implies need[order[k]][r]
            <= #[trigger] work_after(more, allocation, order.take(k), r) by {
            assert(need[order[k]][r] <= work_after(available, allocation, order.take(k), r));
        }
    }
    assert(is_safe_order(more, need, allocation, order));
    lemma_check_decides_safety(more, need, allocation);
}

/// Each thread of `order` was the lowest-numbered one that could finish
/// when its turn came.
pub open spec fn lowest_first(
    available: Seq<isize>,
    need: Seq<Seq<isize>>,
    allocation: Seq<Seq<isize>>,
    order: Seq<int>,
) -> bool {
    forall|k: int, j: int|
        0 <= k < order.len() && 0 <= j < order[k] ==> !#[trigger] is_candidate(
            available,
            need,
            allocation,
            order.take(k),
            j,
        )
}

/// The scan passes over no candidate before the one it finds.
proof fn lemma_first_candidate_lowest(
    available: Seq<isize>,
    need: Seq<Seq<isize>>,
    allocation: Seq<Seq<isize>>,
    order: Seq<int>,
    k: int,
)
    requires
        0 <= k,
    ensures
        first_candidate_from(available, need, allocation, order, k) matches Some(t) ==> forall|
            j: int,
        |
            k <= j < t ==> !#[trigger] is_candidate(available, need, allocation, order, j),
    decreases need.len() - k,
{
    if 0 <= k < need.len() && !is_candidate(available, need, allocation, order, k) {
        lemma_first_candidate_lowest(available, need, allocation, order, k + 1);
    }
}

/// Running the check from a prefix taken lowest-first extends it lowest-first.
proof fn lemma_greedy_lowest_first(
    available: Seq<isize>,
    need: Seq<Seq<isize>>,
    allocation: Seq<Seq<isize>>,
    order: Seq<int>,
)
    requires
        lowest_first(available, need, allocation, order),
    ensures
        lowest_first(available, need, allocation, greedy_order(available, need, allocation, order)),
    decreases unfinished_count(order, need.len() as int),
{
    match first_candidate_from(available, need, allocation, order, 0) {
        Some(t) => {
            lemma_first_candidate(available, need, allocation, order, 0);
            lemma_first_candidate_lowest(available, need, allocation, order, 0);
            lemma_unfinished_push(order, need.len() as int, t);
            let next = order.push(t);
            assert forall|k: int, j: int|
                0 <= k < next.len() && 0 <= j < next[k] implies !#[trigger] is_candidate(
                available,
                need,
                allocation,
                next.take(k),
                j,
            ) by {
                if k < order.len() {
                    assert(next.take(k) =~= order.take(k));
                    assert(next[k] == order[k]);
                } else {
                    assert(next.take(k) =~= order);
                }
            }
            lemma_greedy_lowest_first(available, need, allocation, next);
        },
        None => {},
    }
}

/// The order the check lets threads finish in, thread by thread: each is,
/// when its turn comes, a thread that has not finished and whose need fits
/// in what is free, and the lowest-numbered such thread; and the check
/// stops only when no unfinished thread's need fits.
pub proof fn lemma_check_order(
    available: Seq<isize>,
    need: Seq<Seq<isize>>,
    allocation: Seq<Seq<isize>>,
)
    ensures
        ({
            let g = greedy_order(available, need, allocation, Seq::empty());
            &&& forall|k: int|
                0 <= k < g.len() ==> is_candidate(
                    available,
                    need,
                    allocation,
                    g.take(k),
                    #[trigger] g[k],
                )
            &&& lowest_first(available, need, allocation, g)
            &&& forall|t: int| !#[trigger] is_candidate(available, need, allocation, g, t)
        }),
{
    let e = Seq::<int>::empty();
    assert(distinct_threads(e, need.len() as int));
    assert(finishes_in_turn(available, need, allocation, e));
    lemma_greedy_extends(available, need, allocation, e);
    lemma_greedy_lowest_first(available, need, allocation, e);
    let g = greedy_order(available, need, allocation, e);
    assert forall|k: int| 0 <= k < g.len() implies is_candidate(
        available,
        need,
        allocation,
        g.take(k),
        #[trigger] g[k],
    ) by {
        assert(can_finish(available, need, allocation, g.take(k), g[k]));
        if g.take(k).contains(g[k]) {
            let p = choose|p: int| 0 <= p < g.take(k).len() && g.take(k)[p] == g[k];
            assert(g[p] == g[k]);
        }
    }
}

} // verus!
