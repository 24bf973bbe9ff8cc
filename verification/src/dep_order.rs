//! The dependency orderer.
//!
//! Computes a file visitation order in which every registered dependency of
//! a file comes before the file itself, so that expansion can run leaves
//! first.  A dependency naming no registered file is skipped: the miss
//! surfaces later, at scope resolution, as an absence rather than an error.
//! Cycles are tolerated: a module already visited is not entered again, and
//! the ordering guarantee is stated for the acyclic part of the graph.

use vstd::prelude::*;
use crate::ids::LiveModuleId;
use crate::registry::{module_eq, spec_module_to_file, LiveFile};

verus! {

/// File `i` depends directly on file `k`: one of `i`'s declared module
/// dependencies resolves to `k`.
pub open spec fn dep_edge(files: Seq<LiveFile>, i: int, k: int) -> bool {
    exists|d: int|
        0 <= d < files[i].deps@.len() && spec_module_to_file(
            files,
            (#[trigger] files[i].deps@[d]),
        ) == Some(k)
}

/// A dependency path of length `n` from `a` to `b`.
pub open spec fn reaches(files: Seq<LiveFile>, a: int, b: int, n: nat) -> bool
    decreases n,
{
    if n == 0 {
        a == b
    } else {
        exists|m: int|
            0 <= m < files.len() && dep_edge(files, a, m) && reaches(
                files,
                m,
                b,
                (n - 1) as nat,
            )
    }
}

/// No file depends, directly or through others, on itself.
pub open spec fn acyclic(files: Seq<LiveFile>) -> bool {
    forall|i: int, n: nat| 0 <= i < files.len() && 1 <= n ==> !reaches(files, i, i, n)
}

proof fn lemma_reaches_append(files: Seq<LiveFile>, a: int, b: int, c: int, n: nat)
    requires
        reaches(files, a, b, n),
        dep_edge(files, b, c),
        0 <= c < files.len(),
        0 <= b < files.len(),
    ensures
        reaches(files, a, c, n + 1),
    decreases n,
{
    if n == 0 {
        assert(reaches(files, c, c, 0));
    } else {
        let m = choose|m: int|
            0 <= m < files.len() && dep_edge(files, a, m) && reaches(files, m, b, (n - 1) as nat);
        lemma_reaches_append(files, m, b, c, (n - 1) as nat);
    }
}

/// How many files the search has not reached yet.
spec fn count_false(s: Seq<bool>) -> nat
    decreases s.len(),
{
    if s.len() == 0 {
        0
    } else {
        count_false(s.drop_last()) + if s.last() {
            0nat
        } else {
            1nat
        }
    }
}

proof fn lemma_count_false_monotone(s1: Seq<bool>, s2: Seq<bool>)
    requires
        s2.len() == s1.len(),
        forall|x: int| 0 <= x < s1.len() && s1[x] ==> s2[x],
    ensures
        count_false(s2) <= count_false(s1),
    decreases s1.len(),
{
    if s1.len() > 0 {
        assert forall|x: int|
            0 <= x < s1.drop_last().len() && s1.drop_last()[x] implies s2.drop_last()[x] by {
            assert(s1[x]);
        }
        lemma_count_false_monotone(s1.drop_last(), s2.drop_last());
    }
}

proof fn lemma_count_false_set(s1: Seq<bool>, s2: Seq<bool>, i: int)
    requires
        0 <= i < s1.len(),
        s1[i] == false,
        s2.len() == s1.len(),
        s2[i] == true,
        forall|j: int| 0 <= j < s1.len() && j != i ==> s2[j] == s1[j],
    ensures
        count_false(s2) + 1 == count_false(s1),
    decreases s1.len(),
{
    if i == s1.len() - 1 {
        assert(s2.drop_last() =~= s1.drop_last());
    } else {
        lemma_count_false_set(s1.drop_last(), s2.drop_last(), i);
    }
}

/// The invariant of the search: the order holds distinct, visited files;
/// a visited file stands in the order or on the current search path; and
/// every dependency of an ordered file is ordered before it or reaches it
/// back through dependency edges (a cycle witness).
spec fn search_inv(
    files: Seq<LiveFile>,
    visited: Seq<bool>,
    order: Seq<usize>,
    path: Seq<int>,
) -> bool {
    &&& forall|t: int|
        0 <= t < order.len() ==> (#[trigger] order[t]) < files.len() && visited[order[t] as int]
    &&& forall|t1: int, t2: int| 0 <= t1 < t2 < order.len() ==> order[t1] != order[t2]
    &&& forall|x: int|
        0 <= x < files.len() && visited[x] ==> order.contains(x as usize) || path.contains(x)
    &&& forall|t: int, k: int|
        #![trigger dep_edge(files, order[t] as int, k)]
        0 <= t < order.len() && 0 <= k < files.len() && dep_edge(files, order[t] as int, k) ==> (
        exists|t2: int| 0 <= t2 < t && order[t2] == k as usize) || (exists|n: nat|
            1 <= n && reaches(files, k, order[t] as int, n))
}

/// Resolves a module identity to the latest file that declares it.
fn module_to_file_index(files: &Vec<LiveFile>, mid: LiveModuleId) -> (r: Option<usize>)
    ensures
        r matches Some(k) ==> spec_module_to_file(files@, mid) == Some(k as int) && k
            < files@.len(),
        r is None ==> spec_module_to_file(files@, mid) is None,
{
    let n = files.len();
    proof {
        assert(files@.subrange(0, n as int) =~= files@);
    }
    let mut i: usize = n;
    while i > 0
        invariant
            n == files@.len(),
            i <= n,
            spec_module_to_file(files@, mid) == spec_module_to_file(
                files@.subrange(0, i as int),
                mid,
            ),
        decreases i,
    {
        let ghost pre = files@.subrange(0, i as int);
        if module_eq(files[i - 1].module_id, mid) {
            proof {
                assert(pre[pre.len() - 1].module_id == mid);
            }
            return Some(i - 1);
        }
        proof {
            assert(pre[pre.len() - 1].module_id != mid);
            assert(pre.drop_last() =~= files@.subrange(0, i - 1));
        }
        i = i - 1;
    }
    proof {
        assert(files@.subrange(0, 0) =~= Seq::<LiveFile>::empty());
    }
    None
}

/// Visits a file depth first: marks it, visits its registered
/// dependencies, then appends it to the order.
fn visit(
    files: &Vec<LiveFile>,
    i: usize,
    visited: &mut Vec<bool>,
    order: &mut Vec<usize>,
    Ghost(path): Ghost<Seq<int>>,
)
    requires
        i < files@.len(),
        old(visited)@.len() == files@.len(),
        search_inv(files@, old(visited)@, old(order)@, path),
        forall|x: int|
            path.contains(x) ==> 0 <= x < files@.len() && (exists|n: nat|
                1 <= n && reaches(files@, x, i as int, n)),
    ensures
        final(visited)@.len() == files@.len(),
        forall|x: int|
            0 <= x < files@.len() && old(visited)@[x] ==> final(visited)@[x],
        final(visited)@[i as int],
        search_inv(files@, final(visited)@, final(order)@, path),
        final(order)@.len() >= old(order)@.len(),
        forall|t: int| 0 <= t < old(order)@.len() ==> final(order)@[t] == old(order)@[t],
        forall|t: int|
            old(order)@.len() <= t < final(order)@.len() ==> old(visited)@[final(order)@[t] as int]
                == false,
        final(order)@.contains(i) || path.contains(i as int),
    decreases count_false(old(visited)@),
{
    if visited[i] {
        return ;
    }
    let ghost visited0 = visited@;
    visited.set(i, true);
    proof {
        lemma_count_false_set(visited0, visited@, i as int);
        assert forall|x: int|
            0 <= x < files@.len() && visited@[x] implies order@.contains(x as usize)
            || path.push(i as int).contains(x) by {
            if x == i as int {
                assert(path.push(i as int)[path.len() as int] == i as int);
            } else {
                assert(visited0[x]);
                if path.contains(x) {
                    let w = choose|w: int| 0 <= w < path.len() && path[w] == x;
                    assert(path.push(i as int)[w] == x);
                }
            }
        }
        assert(search_inv(files@, visited@, order@, path.push(i as int)));
    }
    let nd = files[i].deps.len();
    let ghost count_at_entry = count_false(visited@);
    let mut d: usize = 0;
    while d < nd
        invariant
            i < files@.len(),
            nd == files@[i as int].deps@.len(),
            d <= nd,
            visited@.len() == files@.len(),
            visited@[i as int],
            count_false(visited@) <= count_at_entry,
            count_at_entry < count_false(old(visited)@),
            visited0 == old(visited)@,
            forall|x: int| 0 <= x < files@.len() && visited0[x] ==> visited@[x],
            search_inv(files@, visited@, order@, path.push(i as int)),
            !order@.contains(i),
            forall|x: int|
                path.contains(x) ==> 0 <= x < files@.len() && (exists|n: nat|
                    1 <= n && reaches(files@, x, i as int, n)),
            forall|t: int| 0 <= t < old(order)@.len() ==> order@[t] == old(order)@[t],
            order@.len() >= old(order)@.len(),
            forall|t: int|
                old(order)@.len() <= t < order@.len() ==> old(visited)@[order@[t] as int] == false,
            forall|d2: int|
                0 <= d2 < d ==> (spec_module_to_file(
                    files@,
                    (#[trigger] files@[i as int].deps@[d2]),
                ) matches Some(k) ==> visited@[k]),
        decreases nd - d,
    {
        let dep = files[i].deps[d];
        let ghost visited_mid = visited@;
        let ghost order_mid = order@;
        match module_to_file_index(files, dep) {
            Some(k) => {
                proof {
                    assert(dep_edge(files@, i as int, k as int)) by {
                        assert(spec_module_to_file(files@, files@[i as int].deps@[d as int])
                            == Some(k as int));
                    }
                    assert forall|x: int|
                        path.push(i as int).contains(x) implies 0 <= x < files@.len() && (exists|
                            n: nat,
                        |
                            1 <= n && reaches(files@, x, k as int, n)) by {
                        if x == i as int {
                            assert(reaches(files@, k as int, k as int, 0));
                            assert(reaches(files@, i as int, k as int, 1));
                        } else {
                            let w = choose|w: int|
                                0 <= w < path.push(i as int).len() && path.push(i as int)[w] == x;
                            if w < path.len() {
                                assert(path[w] == x);
                                assert(path.contains(x));
                                let n = choose|n: nat|
                                    1 <= n && reaches(files@, x, i as int, n);
                                lemma_reaches_append(files@, x, i as int, k as int, n);
                            } else {
                                assert(x == i as int);
                            }
                        }
                    }
                }
                visit(files, k, visited, order, Ghost(path.push(i as int)));
                proof {
                    lemma_count_false_monotone(visited_mid, visited@);
                    assert forall|t: int|
                        old(order)@.len() <= t < order@.len() implies old(visited)@[order@[t] as int]
                        == false by {
                        if t < order_mid.len() {
                            assert(order@[t] == order_mid[t]);
                        } else {
                            assert(order@[t] < files@.len());
                            assert(visited_mid[order@[t] as int] == false);
                            if visited0[order@[t] as int] {
                                assert(visited_mid[order@[t] as int]);
                            }
                        }
                    }
                    assert(!order@.contains(i)) by {
                        if order@.contains(i) {
                            let w = choose|w: int| 0 <= w < order@.len() && order@[w] == i;
                            if w < order_mid.len() {
                                assert(order_mid[w] == i);
                            } else {
                                assert(visited_mid[i as int]);
                            }
                        }
                    }
                    assert forall|d2: int| 0 <= d2 < d + 1 implies (spec_module_to_file(
                        files@,
                        (#[trigger] files@[i as int].deps@[d2]),
                    ) matches Some(k2) ==> visited@[k2]) by {
                        if d2 < d {
                            match spec_module_to_file(files@, files@[i as int].deps@[d2]) {
                                Some(k2) => {
                                    crate::registry::lemma_module_to_file_range(
                                        files@,
                                        files@[i as int].deps@[d2],
                                    );
                                    assert(visited_mid[k2]);
                                },
                                None => {},
                            }
                        }
                    }
                }
            },
            None => {},
        }
        d = d + 1;
    }
    let ghost order_before = order@;
    order.push(i);
    proof {
        assert(order@[order@.len() - 1] == i);
        assert forall|x: int|
            0 <= x < files@.len() && visited@[x] implies order@.contains(x as usize)
            || path.contains(x) by {
            if order_before.contains(x as usize) {
                let w = choose|w: int| 0 <= w < order_before.len() && order_before[w] == x as usize;
                assert(order@[w] == x as usize);
            } else if path.push(i as int).contains(x) {
                let w = choose|w: int|
                    0 <= w < path.push(i as int).len() && path.push(i as int)[w] == x;
                if w < path.len() {
                    assert(path.contains(x));
                } else {
                    assert(x == i as int);
                    assert(order@[order@.len() - 1] == i);
                }
            }
        }
        assert forall|t1: int, t2: int| 0 <= t1 < t2 < order@.len() implies order@[t1]
            != order@[t2] by {
            if t2 == order@.len() - 1 {
                assert(order@[t1] == order_before[t1]);
                if order@[t1] == i {
                    assert(order_before.contains(i));
                }
            } else {
                assert(order@[t1] == order_before[t1]);
                assert(order@[t2] == order_before[t2]);
            }
        }
        assert forall|t: int, k: int|
            #![trigger dep_edge(files@, order@[t] as int, k)]
            0 <= t < order@.len() && 0 <= k < files@.len() && dep_edge(
                files@,
                order@[t] as int,
                k,
            ) implies (exists|t2: int| 0 <= t2 < t && order@[t2] == k as usize) || (exists|n: nat|
            1 <= n && reaches(files@, k, order@[t] as int, n)) by {
            if t < order_before.len() {
                assert(order@[t] == order_before[t]);
                if exists|t2: int| 0 <= t2 < t && order_before[t2] == k as usize {
                    let t2 = choose|t2: int| 0 <= t2 < t && order_before[t2] == k as usize;
                    assert(order@[t2] == k as usize);
                }
            } else {
                assert(order@[t] == i);
                let dw = choose|dw: int|
                    0 <= dw < files@[i as int].deps@.len() && spec_module_to_file(
                        files@,
                        files@[i as int].deps@[dw],
                    ) == Some(k);
                assert(visited@[k]);
                if order_before.contains(k as usize) {
                    let t2 = choose|t2: int|
                        0 <= t2 < order_before.len() && order_before[t2] == k as usize;
                    assert(order@[t2] == k as usize);
                } else {
                    assert(path.push(i as int).contains(k as int));
                    let w = choose|w: int|
                        0 <= w < path.push(i as int).len() && path.push(i as int)[w] == k as int;
                    if w < path.len() {
                        assert(path.contains(k as int));
                        let n = choose|n: nat| 1 <= n && reaches(files@, k as int, i as int, n);
                        assert(reaches(files@, k, order@[t] as int, n));
                    } else {
                        assert(k as int == i as int);
                        assert(reaches(files@, k as int, k as int, 0));
                        assert(reaches(files@, i as int, k as int, 1));
                    }
                }
            }
        }
    }
}

/// What the computed order guarantees.
pub open spec fn dep_order_post(files: Seq<LiveFile>, order: Seq<usize>) -> bool {
    &&& forall|t: int| 0 <= t < order.len() ==> (#[trigger] order[t]) < files.len()
    &&& forall|t1: int, t2: int| 0 <= t1 < t2 < order.len() ==> order[t1] != order[t2]
    &&& forall|x: int| 0 <= x < files.len() ==> order.contains(#[trigger] (x as usize))
    &&& forall|t: int, k: int|
        #![trigger dep_edge(files, order[t] as int, k)]
        0 <= t < order.len() && 0 <= k < files.len() && dep_edge(files, order[t] as int, k) ==> (
        exists|t2: int| 0 <= t2 < t && order[t2] == k as usize) || (exists|n: nat|
            1 <= n && reaches(files, k, order[t] as int, n))
}

/// Computes the file visitation order: every registered dependency of a
/// file is ordered before it, except along dependency cycles, which stop
/// the search instead of raising an error.
pub fn compute_dep_order(files: &Vec<LiveFile>) -> (r: Vec<usize>)
    ensures
        dep_order_post(files@, r@),
{
    let n = files.len();
    let mut visited: Vec<bool> = Vec::new();
    let mut q: usize = 0;
    while q < n
        invariant
            q <= n,
            visited@.len() == q,
            forall|x: int| 0 <= x < q ==> visited@[x] == false,
        decreases n - q,
    {
        visited.push(false);
        q = q + 1;
    }
    let mut order: Vec<usize> = Vec::new();
    let mut i: usize = 0;
    while i < n
        invariant
            n == files@.len(),
            i <= n,
            visited@.len() == n,
            search_inv(files@, visited@, order@, Seq::empty()),
            forall|x: int| 0 <= x < i ==> visited@[x],
        decreases n - i,
    {
        visit(files, i, &mut visited, &mut order, Ghost(Seq::empty()));
        i = i + 1;
    }
    proof {
        assert forall|x: int| 0 <= x < files@.len() implies order@.contains(#[trigger] (x as usize)) by {
            assert(visited@[x]);
            assert(!Seq::<int>::empty().contains(x));
        }
    }
    order
}

/// With no cycle, every registered direct dependency of a file stands
/// before it in the order.
pub proof fn lemma_dep_order_direct(files: Seq<LiveFile>, order: Seq<usize>, t: int, k: int)
    requires
        dep_order_post(files, order),
        acyclic(files),
        0 <= t < order.len(),
        0 <= k < files.len(),
        dep_edge(files, order[t] as int, k),
    ensures
        exists|t2: int| 0 <= t2 < t && order[t2] == k as usize,
{
    if !(exists|t2: int| 0 <= t2 < t && order[t2] == k as usize) {
        let n = choose|n: nat| 1 <= n && reaches(files, k, order[t] as int, n);
        lemma_reaches_append(files, k, order[t] as int, k, n);
        assert(reaches(files, k, k, n + 1));
        assert(false);
    }
}

/// Law (dependency order is transitively respected): for all files `a`
/// depending, directly or through a chain of dependencies, on `b`, `b`
/// appears before `a` in the computed order, when no cycle exists.
pub proof fn lemma_dep_order_transitive(
    files: Seq<LiveFile>,
    order: Seq<usize>,
    a: int,
    b: int,
    n: nat,
)
    requires
        dep_order_post(files, order),
        acyclic(files),
        files.len() <= usize::MAX,
        0 <= a < files.len(),
        0 <= b < files.len(),
        1 <= n,
        reaches(files, a, b, n),
    ensures
        exists|ta: int, tb: int|
            0 <= tb < ta < order.len() && order[ta] == a as usize && order[tb] == b as usize,
    decreases n,
{
    assert(order.contains(a as usize));
    let ta = choose|ta: int| 0 <= ta < order.len() && order[ta] == a as usize;
    assert(order[ta] == a as usize);
    let m = choose|m: int|
        0 <= m < files.len() && dep_edge(files, a, m) && reaches(files, m, b, (n - 1) as nat);
    assert(order[ta] as int == a);
    lemma_dep_order_direct(files, order, ta, m);
    let tm = choose|tm: int| 0 <= tm < ta && order[tm] == m as usize;
    if n == 1 {
        assert(m == b);
        assert(0 <= tm < ta < order.len() && order[ta] == a as usize && order[tm] == b as usize);
    } else {
        lemma_dep_order_transitive(files, order, m, b, (n - 1) as nat);
        let (tm2, tb) = choose|tm2: int, tb: int|
            0 <= tb < tm2 < order.len() && order[tm2] == m as usize && order[tb] == b as usize;
        assert(tm2 == tm) by {
            if tm2 != tm {
                assert(order[tm2] == order[tm]);
            }
        }
        assert(0 <= tb < ta < order.len() && order[ta] == a as usize && order[tb] == b as usize);
    }
}

} // verus!
