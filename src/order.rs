//! Stable topological order over stages numbered by registration.
use vstd::prelude::*;

verus! {

/// Every dependency names a registered stage.
pub open spec fn deps_in_range(g: Seq<Seq<int>>) -> bool {
    forall|i: int, j: int|
        0 <= i < g.len() && 0 <= j < g[i].len() ==> 0 <= #[trigger] g[i][j] < g.len()
}

/// Stage `i` is not placed yet and all of its dependencies are.
pub open spec fn is_ready(g: Seq<Seq<int>>, placed: Seq<int>, i: int) -> bool {
    &&& !placed.contains(i)
    &&& forall|j: int| 0 <= j < g[i].len() ==> placed.contains(#[trigger] g[i][j])
}

/// The first ready stage at or after `from`, or `g.len()` if there is none.
pub open spec fn first_ready(g: Seq<Seq<int>>, placed: Seq<int>, from: int) -> int
    decreases g.len() - from,
{
    if from < 0 || from >= g.len() {
        g.len() as int
    } else if is_ready(g, placed, from) {
        from
    } else {
        first_ready(g, placed, from + 1)
    }
}

/// The order after `rounds` rounds of the stable sort: each round places
/// the earliest-registered ready stage, if there is one.
pub open spec fn order_after(g: Seq<Seq<int>>, rounds: nat) -> Seq<int>
    decreases rounds,
{
    if rounds == 0 {
        Seq::empty()
    } else {
        let p = order_after(g, (rounds - 1) as nat);
        let k = first_ready(g, p, 0);
        if k < g.len() {
            p.push(k)
        } else {
            p
        }
    }
}

/// The stable order: as many stages as can be placed, ties broken by
/// registration order. It covers every stage exactly when the graph has no
/// cycle.
pub open spec fn stable_order(g: Seq<Seq<int>>) -> Seq<int> {
    order_after(g, g.len())
}

/// `o` runs every stage once, each after all of its dependencies.
pub open spec fn is_topological(g: Seq<Seq<int>>, o: Seq<int>) -> bool {
    &&& o.len() == g.len()
    &&& o.no_duplicates()
    &&& forall|i: int| 0 <= i < g.len() ==> #[trigger] o.contains(i)
    &&& forall|p: int, j: int|
        0 <= p < o.len() && 0 <= j < g[o[p]].len() ==> #[trigger] o.subrange(0, p).contains(
            g[o[p]][j],
        )
}

/// Stages one dependency edge away from a stage of `from`.
pub open spec fn step_from(g: Seq<Seq<int>>, from: Set<int>) -> Set<int> {
    Set::new(
        |x: int|
            exists|m: int, j: int|
                from.contains(m) && 0 <= m < g.len() && 0 <= j < g[m].len() && #[trigger] g[m][j] == x,
    )
}

/// Stages reached from `src` by following between one and `k` dependency
/// edges.
pub open spec fn reach(g: Seq<Seq<int>>, src: int, k: nat) -> Set<int>
    decreases k,
{
    if k <= 1 {
        step_from(g, set![src])
    } else {
        reach(g, src, (k - 1) as nat).union(step_from(g, reach(g, src, (k - 1) as nat)))
    }
}

/// Stage `i` lies on a dependency cycle: following its dependencies leads
/// back to it. A shortest such path repeats no stage, so `g.len()` edges are
/// enough.
pub open spec fn on_cycle(g: Seq<Seq<int>>, i: int) -> bool {
    reach(g, i, g.len()).contains(i)
}

/// The stages among the first `n` that lie on a cycle, in registration order.
pub open spec fn cyclic_stages(g: Seq<Seq<int>>, n: int) -> Seq<int>
    decreases n,
{
    if n <= 0 {
        Seq::empty()
    } else if on_cycle(g, n - 1) {
        cyclic_stages(g, n - 1).push(n - 1)
    } else {
        cyclic_stages(g, n - 1)
    }
}

/// Integer view of a sequence of indices.
pub open spec fn as_ints(s: Seq<usize>) -> Seq<int> {
    Seq::new(s.len(), |i: int| s[i] as int)
}

/// Integer view of a dependency table.
pub open spec fn graph_of(deps: Seq<Vec<usize>>) -> Seq<Seq<int>> {
    Seq::new(deps.len(), |i: int| as_ints(deps[i]@))
}

proof fn lemma_first_ready_skip(g: Seq<Seq<int>>, placed: Seq<int>, i: int)
    requires
        0 <= i <= g.len(),
        forall|k: int| 0 <= k < i ==> !is_ready(g, placed, k),
    ensures
        first_ready(g, placed, 0) == first_ready(g, placed, i),
    decreases i,
{
    if i > 0 {
        lemma_first_ready_skip(g, placed, i - 1);
    }
}

proof fn lemma_first_ready_props(g: Seq<Seq<int>>, placed: Seq<int>, from: int)
    requires
        0 <= from,
    ensures
        first_ready(g, placed, from) < g.len() ==> is_ready(g, placed, first_ready(g, placed, from)),
        0 <= first_ready(g, placed, from) <= g.len(),
        first_ready(g, placed, from) >= g.len() ==> forall|k: int|
            from <= k < g.len() ==> !is_ready(g, placed, k),
    decreases g.len() - from,
{
    if from < g.len() && !is_ready(g, placed, from) {
        lemma_first_ready_props(g, placed, from + 1);
    }
}

/// Each round either places one new ready stage or changes nothing.
proof fn lemma_order_after_props(g: Seq<Seq<int>>, rounds: nat)
    ensures
        order_after(g, rounds).no_duplicates(),
        order_after(g, rounds).len() <= rounds,
        forall|p: int|
            0 <= p < order_after(g, rounds).len() ==> 0 <= #[trigger] order_after(g, rounds)[p]
                < g.len(),
        forall|p: int, j: int|
            0 <= p < order_after(g, rounds).len() && 0 <= j < g[order_after(g, rounds)[p]].len()
                ==> #[trigger] order_after(g, rounds).subrange(0, p).contains(
                g[order_after(g, rounds)[p]][j],
            ),
    decreases rounds,
{
    if rounds > 0 {
        let prev = order_after(g, (rounds - 1) as nat);
        lemma_order_after_props(g, (rounds - 1) as nat);
        let k = first_ready(g, prev, 0);
        lemma_first_ready_props(g, prev, 0);
        if k < g.len() {
            let cur = prev.push(k);
            assert(cur == order_after(g, rounds));
            assert(0 <= k < g.len());
            assert forall|p: int, j: int|
                0 <= p < cur.len() && 0 <= j < g[cur[p]].len() implies #[trigger] cur.subrange(
                0,
                p,
            ).contains(g[cur[p]][j]) by {
                if p < prev.len() {
                    assert(cur.subrange(0, p) == prev.subrange(0, p));
                    assert(prev.subrange(0, p).contains(g[prev[p]][j]));
                } else {
                    assert(cur.subrange(0, p) == prev);
                    assert(prev.contains(g[k][j]));
                }
            }
        }
    }
}

proof fn lemma_stuck_stays(g: Seq<Seq<int>>, r: nat, r2: nat)
    requires
        r <= r2,
        first_ready(g, order_after(g, r), 0) >= g.len(),
    ensures
        order_after(g, r2) == order_after(g, r),
    decreases r2,
{
    if r2 > r {
        lemma_stuck_stays(g, r, (r2 - 1) as nat);
    }
}

/// When the stable order covers every stage it is a topological order; when
/// it falls short, the graph has a cycle and no topological order exists.
pub proof fn lemma_stable_order_sound(g: Seq<Seq<int>>)
    requires
        deps_in_range(g),
    ensures
        stable_order(g).len() == g.len() ==> is_topological(g, stable_order(g)),
        stable_order(g).len() < g.len() ==> forall|o: Seq<int>| !is_topological(g, o),
{
    let s = stable_order(g);
    lemma_order_after_props(g, g.len());
    if s.len() == g.len() {
        let n = g.len() as int;
        vstd::set_lib::lemma_int_range(0, n);
        s.unique_seq_to_set();
        assert(s.to_set().subset_of(vstd::set_lib::set_int_range(0, n))) by {
            assert forall|x: int| s.to_set().contains(x) implies vstd::set_lib::set_int_range(
                0,
                n,
            ).contains(x) by {
                let p = choose|p: int| 0 <= p < s.len() && s[p] == x;
            }
        }
        vstd::set_lib::lemma_subset_equality(s.to_set(), vstd::set_lib::set_int_range(0, n));
        assert forall|i: int| 0 <= i < g.len() implies #[trigger] s.contains(i) by {
            assert(vstd::set_lib::set_int_range(0, n).contains(i));
            assert(s.to_set().contains(i));
        }
    } else {
        // Fewer rounds placed a stage than there were rounds: some round got stuck.
        lemma_stuck_somewhere(g, g.len());
        assert forall|o: Seq<int>| !is_topological(g, o) by {
            lemma_no_order_when_stuck(g, s, o);
        }
    }
}

proof fn lemma_stuck_somewhere(g: Seq<Seq<int>>, r: nat)
    requires
        order_after(g, r).len() < r,
    ensures
        first_ready(g, order_after(g, r), 0) >= g.len(),
    decreases r,
{
    let prev = order_after(g, (r - 1) as nat);
    lemma_order_after_props(g, (r - 1) as nat);
    if first_ready(g, prev, 0) >= g.len() {
        assert(order_after(g, r) == prev);
    } else {
        lemma_stuck_somewhere(g, (r - 1) as nat);
        assert(false);
    }
}

/// If no unplaced stage is ready, every unplaced stage waits on another
/// unplaced stage, so a topological order would have to run some unplaced
/// stage before the first of them.
proof fn lemma_no_order_when_stuck(g: Seq<Seq<int>>, s: Seq<int>, o: Seq<int>)
    requires
        deps_in_range(g),
        s.len() < g.len(),
        first_ready(g, s, 0) >= g.len(),
    ensures
        !is_topological(g, o),
{
    if is_topological(g, o) {
        lemma_first_ready_props(g, s, 0);
        // Every position of `o` holds a placed stage ...
        assert forall|q: int| 0 <= q < o.len() implies s.contains(#[trigger] o[q]) by {
            lemma_prefix_placed(g, s, o, q);
        }
        // ... so every stage is placed, yet fewer stages are placed than exist.
        let n = g.len() as int;
        let all = vstd::set_lib::set_int_range(0, n);
        vstd::set_lib::lemma_int_range(0, n);
        assert forall|x: int| all.contains(x) implies s.to_set().contains(x) by {
            assert(o.contains(x));
            let q = choose|q: int| 0 <= q < o.len() && o[q] == x;
            assert(s.contains(o[q]));
        }
        s.lemma_cardinality_of_set();
        vstd::set_lib::lemma_len_subset(all, s.to_set());
    }
}

proof fn lemma_prefix_placed(g: Seq<Seq<int>>, s: Seq<int>, o: Seq<int>, q: int)
    requires
        deps_in_range(g),
        forall|k: int| 0 <= k < g.len() ==> !is_ready(g, s, k),
        is_topological(g, o),
        0 <= q < o.len(),
    ensures
        s.contains(o[q]),
    decreases q,
{
    let x = o[q];
    assert(o.contains(x));
    assert(0 <= x < g.len()) by {
        assert(o.contains(x));
        // o holds g.len() distinct stages, all of them registered ones
        lemma_topological_in_range(g, o, q);
    }
    if !s.contains(x) {
        // x is not ready, so one of its dependencies is unplaced ...
        assert(!is_ready(g, s, x));
        let j = choose|j: int| 0 <= j < g[x].len() && !s.contains(#[trigger] g[x][j]);
        // ... and that dependency runs earlier in o.
        assert(o.subrange(0, q).contains(g[o[q]][j]));
        let q2 = choose|q2: int| 0 <= q2 < q && o.subrange(0, q)[q2] == g[x][j];
        assert(o[q2] == g[x][j]);
        lemma_prefix_placed(g, s, o, q2);
    }
}

proof fn lemma_topological_in_range(g: Seq<Seq<int>>, o: Seq<int>, q: int)
    requires
        is_topological(g, o),
        0 <= q < o.len(),
    ensures
        0 <= o[q] < g.len(),
{
    let n = g.len() as int;
    vstd::set_lib::lemma_int_range(0, n);
    o.unique_seq_to_set();
    assert(vstd::set_lib::set_int_range(0, n).subset_of(o.to_set()));
    vstd::set_lib::lemma_subset_equality(vstd::set_lib::set_int_range(0, n), o.to_set());
    assert(o.to_set().contains(o[q]));
}

/// The stable order depends on each stage's dependencies as a set: listing
/// them in another order, or more than once, changes nothing.
pub proof fn lemma_stable_order_deterministic(g1: Seq<Seq<int>>, g2: Seq<Seq<int>>)
    requires
        g1.len() == g2.len(),
        forall|i: int| 0 <= i < g1.len() ==> #[trigger] g1[i].to_set() == g2[i].to_set(),
    ensures
        stable_order(g1) == stable_order(g2),
{
    lemma_same_rounds(g1, g2, g1.len());
}

proof fn lemma_same_rounds(g1: Seq<Seq<int>>, g2: Seq<Seq<int>>, r: nat)
    requires
        g1.len() == g2.len(),
        forall|i: int| 0 <= i < g1.len() ==> #[trigger] g1[i].to_set() == g2[i].to_set(),
    ensures
        order_after(g1, r) == order_after(g2, r),
    decreases r,
{
    if r > 0 {
        lemma_same_rounds(g1, g2, (r - 1) as nat);
        let p = order_after(g1, (r - 1) as nat);
        lemma_same_first_ready(g1, g2, p, 0);
    }
}

proof fn lemma_same_first_ready(g1: Seq<Seq<int>>, g2: Seq<Seq<int>>, p: Seq<int>, from: int)
    requires
        g1.len() == g2.len(),
        forall|i: int| 0 <= i < g1.len() ==> #[trigger] g1[i].to_set() == g2[i].to_set(),
    ensures
        first_ready(g1, p, from) == first_ready(g2, p, from),
    decreases g1.len() - from,
{
    if 0 <= from < g1.len() {
        assert(is_ready(g1, p, from) == is_ready(g2, p, from)) by {
            let s1 = g1[from];
            let s2 = g2[from];
            assert(s1.to_set() == s2.to_set());
            if is_ready(g1, p, from) {
                assert forall|j: int| 0 <= j < s2.len() implies p.contains(#[trigger] s2[j]) by {
                    assert(s2.to_set().contains(s2[j]));
                    assert(s1.to_set().contains(s2[j]));
                    let j1 = choose|j1: int| 0 <= j1 < s1.len() && s1[j1] == s2[j];
                    assert(p.contains(s1[j1]));
                }
            }
            if is_ready(g2, p, from) {
                assert forall|j: int| 0 <= j < s1.len() implies p.contains(#[trigger] s1[j]) by {
                    assert(s1.to_set().contains(s1[j]));
                    assert(s2.to_set().contains(s1[j]));
                    let j2 = choose|j2: int| 0 <= j2 < s2.len() && s2[j2] == s1[j];
                    assert(p.contains(s2[j2]));
                }
            }
        }
        lemma_same_first_ready(g1, g2, p, from + 1);
    }
}

/// Whether every dependency in `deps` is marked in `placed`.
fn deps_placed(deps: &Vec<usize>, placed: &Vec<bool>) -> (r: bool)
    requires
        forall|j: int| 0 <= j < deps@.len() ==> #[trigger] deps@[j] < placed@.len(),
    ensures
        r == forall|j: int| 0 <= j < deps@.len() ==> placed@[#[trigger] deps@[j] as int],
{
    let mut j: usize = 0;
    while j < deps.len()
        invariant
            j <= deps@.len(),
            forall|j: int| 0 <= j < deps@.len() ==> #[trigger] deps@[j] < placed@.len(),
            forall|k: int| 0 <= k < j ==> placed@[#[trigger] deps@[k] as int],
        decreases deps@.len() - j,
    {
        if !placed[deps[j]] {
            return false;
        }
        j = j + 1;
    }
    true
}

/// The earliest-registered ready stage, or `deps.len()` if none is ready.
fn find_ready(deps: &Vec<Vec<usize>>, placed: &Vec<bool>, Ghost(order): Ghost<Seq<int>>) -> (r: usize)
    requires
        deps_in_range(graph_of(deps@)),
        placed@.len() == deps@.len(),
        forall|k: int| 0 <= k < deps@.len() ==> placed@[k] == order.contains(k),
    ensures
        r == first_ready(graph_of(deps@), order, 0),
{
    let ghost g = graph_of(deps@);
    let n = deps.len();
    let mut i: usize = 0;
    while i < n
        invariant
            n == deps@.len(),
            g == graph_of(deps@),
            deps_in_range(g),
            i <= n,
            placed@.len() == n,
            forall|k: int| 0 <= k < n ==> placed@[k] == order.contains(k),
            forall|k: int| 0 <= k < i ==> !is_ready(g, order, k),
        decreases n - i,
    {
        if !placed[i] {
            proof {
                assert forall|j: int| 0 <= j < deps@[i as int]@.len() implies #[trigger] deps@[i as int]@[j]
                    < placed@.len() by {
                    assert(g[i as int][j] == deps@[i as int]@[j] as int);
                }
            }
            let ok = deps_placed(&deps[i], placed);
            proof {
                assert(g[i as int] == as_ints(deps@[i as int]@));
                if ok {
                    assert forall|j: int| 0 <= j < g[i as int].len() implies order.contains(
                        #[trigger] g[i as int][j],
                    ) by {
                        assert(placed@[deps@[i as int]@[j] as int]);
                    }
                } else {
                    let j = choose|j: int|
                        0 <= j < deps@[i as int]@.len() && !placed@[#[trigger] deps@[i as int]@[j] as int];
                    assert(!order.contains(g[i as int][j]));
                }
            }
            if ok {
                proof {
                    lemma_first_ready_skip(g, order, i as int);
                }
                return i;
            }
        }
        i = i + 1;
    }
    proof {
        lemma_first_ready_skip(g, order, n as int);
    }
    n
}

/// Stable topological sort: round by round, the earliest-registered stage
/// whose dependencies are all placed is placed next. On a graph with a cycle
/// the result stops short of covering every stage.
pub fn stable_sort(deps: &Vec<Vec<usize>>) -> (r: Vec<usize>)
    requires
        deps_in_range(graph_of(deps@)),
    ensures
        as_ints(r@) == stable_order(graph_of(deps@)),
        r@.len() <= deps@.len(),
        forall|p: int| 0 <= p < r@.len() ==> #[trigger] r@[p] < deps@.len(),
{
    let ghost g = graph_of(deps@);
    let n = deps.len();
    let mut order: Vec<usize> = Vec::new();
    let mut placed: Vec<bool> = vec![false; n];
    let mut round: usize = 0;
    while round < n
        invariant
            n == deps@.len(),
            g == graph_of(deps@),
            deps_in_range(g),
            round <= n,
            as_ints(order@) == order_after(g, round as nat),
            placed@.len() == n,
            forall|k: int| 0 <= k < n ==> placed@[k] == as_ints(order@).contains(k),
        decreases n - round,
    {
        let k = find_ready(deps, &placed, Ghost(as_ints(order@)));
        if k >= n {
            proof {
                lemma_stuck_stays(g, round as nat, n as nat);
            }
            proof {
                lemma_order_after_props(g, n as nat);
                assert forall|p: int| 0 <= p < order@.len() implies #[trigger] order@[p] < deps@.len() by {
                    assert(as_ints(order@)[p] == order@[p] as int);
                }
            }
            return order;
        }
        proof {
            lemma_first_ready_props(g, as_ints(order@), 0);
        }
        let ghost before = as_ints(order@);
        order.push(k);
        placed.set(k, true);
        round = round + 1;
        proof {
            assert(as_ints(order@) == before.push(k as int));
            assert forall|x: int| 0 <= x < n implies placed@[x] == as_ints(order@).contains(x) by {
                if x == k as int {
                    assert(as_ints(order@)[before.len() as int] == x);
                } else {
                    if as_ints(order@).contains(x) {
                        let q = choose|q: int| 0 <= q < as_ints(order@).len() && as_ints(order@)[q] == x;
                        assert(before[q] == x);
                    }
                    if before.contains(x) {
                        let q = choose|q: int| 0 <= q < before.len() && before[q] == x;
                        assert(as_ints(order@)[q] == x);
                    }
                }
            }
        }
    }
    proof {
        lemma_order_after_props(g, n as nat);
        assert forall|p: int| 0 <= p < order@.len() implies #[trigger] order@[p] < deps@.len() by {
            assert(as_ints(order@)[p] == order@[p] as int);
        }
    }
    order
}

/// The marks after one more dependency edge: a stage is marked if `base`
/// marks it, or if a stage that `marks` marks depends on it.
fn step_marks(deps: &Vec<Vec<usize>>, base: &Vec<bool>, marks: &Vec<bool>) -> (r: Vec<bool>)
    requires
        deps_in_range(graph_of(deps@)),
        marks@.len() == deps@.len(),
        base@.len() == deps@.len(),
    ensures
        r@.len() == deps@.len(),
        forall|x: int|
            0 <= x < deps@.len() ==> #[trigger] r@[x] == (base@[x] || step_from(
                graph_of(deps@),
                Set::new(|m: int| 0 <= m < deps@.len() && marks@[m]),
            ).contains(x)),
{
    let ghost g = graph_of(deps@);
    let ghost from = Set::new(|m: int| 0 <= m < deps@.len() && marks@[m]);
    let n = deps.len();
    let mut next: Vec<bool> = Vec::new();
    let mut x: usize = 0;
    while x < n
        invariant
            n == deps@.len(),
            base@.len() == n,
            x <= n,
            next@ == base@.take(x as int),
        decreases n - x,
    {
        next.push(base[x]);
        x = x + 1;
        proof {
            assert(next@ =~= base@.take(x as int));
        }
    }
    proof {
        assert(next@ =~= base@);
    }
    let mut m: usize = 0;
    while m < n
        invariant
            n == deps@.len(),
            g == graph_of(deps@),
            deps_in_range(g),
            marks@.len() == n,
            base@.len() == n,
            next@.len() == n,
            from == Set::new(|m: int| 0 <= m < deps@.len() && marks@[m]),
            m <= n,
            forall|y: int|
                0 <= y < n ==> #[trigger] next@[y] == (base@[y] || exists|m2: int, j: int|
                    0 <= m2 < m && from.contains(m2) && 0 <= j < g[m2].len() && #[trigger] g[m2][j] == y),
        decreases n - m,
    {
        if marks[m] {
            let row = &deps[m];
            let mut j: usize = 0;
            while j < row.len()
                invariant
                    n == deps@.len(),
                    g == graph_of(deps@),
                    deps_in_range(g),
                    *row == deps@[m as int],
                    marks@.len() == n,
                    base@.len() == n,
                    next@.len() == n,
                    from == Set::new(|m: int| 0 <= m < deps@.len() && marks@[m]),
                    m < n,
                    marks@[m as int],
                    j <= row@.len(),
                    forall|y: int|
                        0 <= y < n ==> #[trigger] next@[y] == (base@[y] || (exists|m2: int, j2: int|
                            0 <= m2 < m && from.contains(m2) && 0 <= j2 < g[m2].len() && #[trigger] g[m2][j2]
                                == y) || (exists|j2: int| 0 <= j2 < j && #[trigger] g[m as int][j2] == y)),
                decreases row@.len() - j,
            {
                let d = row[j];
                proof {
                    assert(g[m as int][j as int] == d as int);
                    assert(0 <= g[m as int][j as int] < n);
                }
                next.set(d, true);
                j = j + 1;
                proof {
                    assert forall|y: int| 0 <= y < n implies #[trigger] next@[y] == (base@[y] || (exists|m2: int, j2: int|
                        0 <= m2 < m && from.contains(m2) && 0 <= j2 < g[m2].len() && #[trigger] g[m2][j2] == y)
                        || (exists|j2: int| 0 <= j2 < j && #[trigger] g[m as int][j2] == y)) by {
                        if y == d as int {
                            assert(g[m as int][j - 1] == y);
                        } else {
                            if exists|j2: int| 0 <= j2 < j && #[trigger] g[m as int][j2] == y {
                                let j2 = choose|j2: int| 0 <= j2 < j && #[trigger] g[m as int][j2] == y;
                                assert(j2 < j - 1);
                            }
                        }
                    }
                }
            }
            proof {
                assert forall|y: int| 0 <= y < n implies #[trigger] next@[y] == (base@[y] || exists|m2: int, j2: int|
                    0 <= m2 < m + 1 && from.contains(m2) && 0 <= j2 < g[m2].len() && #[trigger] g[m2][j2] == y) by {
                    if exists|m2: int, j2: int|
                        0 <= m2 < m + 1 && from.contains(m2) && 0 <= j2 < g[m2].len() && #[trigger] g[m2][j2] == y {
                        let (m2, j2) = choose|m2: int, j2: int|
                            0 <= m2 < m + 1 && from.contains(m2) && 0 <= j2 < g[m2].len() && #[trigger] g[m2][j2] == y;
                        if m2 == m {
                            assert(g[m as int][j2] == y);
                        }
                    }
                    if exists|j2: int| 0 <= j2 < row@.len() && #[trigger] g[m as int][j2] == y {
                        let j2 = choose|j2: int| 0 <= j2 < row@.len() && #[trigger] g[m as int][j2] == y;
                        assert(from.contains(m as int));
                        assert(g[m as int].len() == row@.len());
                    }
                }
            }
        } else {
            proof {
                assert forall|y: int| 0 <= y < n implies #[trigger] next@[y] == (base@[y] || exists|m2: int, j2: int|
                    0 <= m2 < m + 1 && from.contains(m2) && 0 <= j2 < g[m2].len() && #[trigger] g[m2][j2] == y) by {
                    if exists|m2: int, j2: int|
                        0 <= m2 < m + 1 && from.contains(m2) && 0 <= j2 < g[m2].len() && #[trigger] g[m2][j2] == y {
                        let (m2, j2) = choose|m2: int, j2: int|
                            0 <= m2 < m + 1 && from.contains(m2) && 0 <= j2 < g[m2].len() && #[trigger] g[m2][j2] == y;
                        assert(m2 != m);
                    }
                }
            }
        }
        m = m + 1;
    }
    proof {
        assert forall|y: int| 0 <= y < n implies #[trigger] next@[y] == (base@[y] || step_from(g, from).contains(y)) by {
            if step_from(g, from).contains(y) {
                let (m2, j2) = choose|m2: int, j2: int|
                    from.contains(m2) && 0 <= m2 < g.len() && 0 <= j2 < g[m2].len() && #[trigger] g[m2][j2] == y;
                assert(0 <= m2 < n);
            }
        }
    }
    next
}

/// Every stage reached lies in range.
proof fn lemma_reach_in_range(g: Seq<Seq<int>>, src: int, k: nat)
    requires
        deps_in_range(g),
    ensures
        forall|x: int| #[trigger] reach(g, src, k).contains(x) ==> 0 <= x < g.len(),
    decreases k,
{
    if k > 1 {
        lemma_reach_in_range(g, src, (k - 1) as nat);
    }
    assert forall|x: int| #[trigger] reach(g, src, k).contains(x) implies 0 <= x < g.len() by {
        if k <= 1 {
            let (m, j) = choose|m: int, j: int|
                set![src].contains(m) && 0 <= m < g.len() && 0 <= j < g[m].len() && #[trigger] g[m][j] == x;
        } else if step_from(g, reach(g, src, (k - 1) as nat)).contains(x) {
            let (m, j) = choose|m: int, j: int|
                reach(g, src, (k - 1) as nat).contains(m) && 0 <= m < g.len() && 0 <= j < g[m].len()
                    && #[trigger] g[m][j] == x;
        }
    }
}

/// Whether stage `i` lies on a dependency cycle; see [`on_cycle`].
pub fn stage_on_cycle(deps: &Vec<Vec<usize>>, i: usize) -> (r: bool)
    requires
        deps_in_range(graph_of(deps@)),
        i < deps@.len(),
    ensures
        r == on_cycle(graph_of(deps@), i as int),
{
    let ghost g = graph_of(deps@);
    let n = deps.len();
    let mut start: Vec<bool> = vec![false; n];
    start.set(i, true);
    proof {
        assert(Set::new(|m: int| 0 <= m < n && start@[m]) =~= set![i as int]);
    }
    let none: Vec<bool> = vec![false; n];
    let mut marks = step_marks(deps, &none, &start);
    let mut k: usize = 1;
    while k < n
        invariant
            n == deps@.len(),
            g == graph_of(deps@),
            deps_in_range(g),
            1 <= k <= n,
            i < n,
            marks@.len() == n,
            forall|x: int| 0 <= x < n ==> #[trigger] marks@[x] == reach(g, i as int, k as nat).contains(x),
        decreases n - k,
    {
        let ghost prev = marks@;
        marks = step_marks(deps, &marks, &marks);
        k = k + 1;
        proof {
            lemma_reach_in_range(g, i as int, (k - 1) as nat);
            let r = reach(g, i as int, (k - 1) as nat);
            assert(Set::new(|m: int| 0 <= m < n && prev[m]) =~= r);
        }
    }
    marks[i]
}

/// The stages that lie on a dependency cycle, in registration order.
pub fn cyclic_positions(deps: &Vec<Vec<usize>>) -> (r: Vec<usize>)
    requires
        deps_in_range(graph_of(deps@)),
    ensures
        as_ints(r@) == cyclic_stages(graph_of(deps@), deps@.len() as int),
        forall|p: int| 0 <= p < r@.len() ==> #[trigger] r@[p] < deps@.len(),
{
    let n = deps.len();
    let mut r: Vec<usize> = Vec::new();
    let mut i: usize = 0;
    while i < n
        invariant
            n == deps@.len(),
            deps_in_range(graph_of(deps@)),
            i <= n,
            as_ints(r@) == cyclic_stages(graph_of(deps@), i as int),
            forall|p: int| 0 <= p < r@.len() ==> #[trigger] r@[p] < i,
        decreases n - i,
    {
        if stage_on_cycle(deps, i) {
            r.push(i);
        }
        i = i + 1;
        proof {
            assert(as_ints(r@) =~= cyclic_stages(graph_of(deps@), i as int));
        }
    }
    r
}

/// A dependency of `x` that `s` leaves out.
spec fn next_unplaced(g: Seq<Seq<int>>, s: Seq<int>, x: int) -> int {
    let j = choose|j: int| 0 <= j < g[x].len() && !s.contains(#[trigger] g[x][j]);
    g[x][j]
}

/// Following unplaced dependencies `k` times from `x0`.
spec fn walk(g: Seq<Seq<int>>, s: Seq<int>, x0: int, k: nat) -> int
    decreases k,
{
    if k == 0 {
        x0
    } else {
        next_unplaced(g, s, walk(g, s, x0, (k - 1) as nat))
    }
}

proof fn lemma_walk_unplaced(g: Seq<Seq<int>>, s: Seq<int>, x0: int, k: nat)
    requires
        deps_in_range(g),
        forall|x: int| 0 <= x < g.len() ==> !is_ready(g, s, x),
        0 <= x0 < g.len(),
        !s.contains(x0),
    ensures
        0 <= walk(g, s, x0, k) < g.len(),
        !s.contains(walk(g, s, x0, k)),
    decreases k,
{
    if k > 0 {
        lemma_walk_unplaced(g, s, x0, (k - 1) as nat);
        let x = walk(g, s, x0, (k - 1) as nat);
        assert(!is_ready(g, s, x));
        assert(exists|j: int| 0 <= j < g[x].len() && !s.contains(#[trigger] g[x][j]));
    }
}

proof fn lemma_reach_grows(g: Seq<Seq<int>>, src: int, k: nat, k2: nat)
    requires
        1 <= k <= k2,
    ensures
        reach(g, src, k).subset_of(reach(g, src, k2)),
    decreases k2,
{
    if k < k2 {
        lemma_reach_grows(g, src, k, (k2 - 1) as nat);
    }
}

proof fn lemma_walk_reaches(g: Seq<Seq<int>>, s: Seq<int>, x0: int, a: nat, t: nat)
    requires
        deps_in_range(g),
        forall|x: int| 0 <= x < g.len() ==> !is_ready(g, s, x),
        0 <= x0 < g.len(),
        !s.contains(x0),
        t >= 1,
    ensures
        reach(g, walk(g, s, x0, a), t).contains(walk(g, s, x0, a + t)),
    decreases t,
{
    let src = walk(g, s, x0, a);
    let y = walk(g, s, x0, (a + t - 1) as nat);
    lemma_walk_unplaced(g, s, x0, (a + t - 1) as nat);
    assert(!is_ready(g, s, y));
    let j = choose|j: int| 0 <= j < g[y].len() && !s.contains(#[trigger] g[y][j]);
    assert(walk(g, s, x0, a + t) == g[y][j]);
    if t == 1 {
        assert(set![src].contains(y));
    } else {
        lemma_walk_reaches(g, s, x0, a, (t - 1) as nat);
        assert(reach(g, src, (t - 1) as nat).contains(y));
    }
}

/// When the stable order stops short, some stage lies on a cycle.
pub proof fn lemma_stuck_has_cycle(g: Seq<Seq<int>>)
    requires
        deps_in_range(g),
        stable_order(g).len() < g.len(),
    ensures
        cyclic_stages(g, g.len() as int).len() > 0,
{
    let s = stable_order(g);
    let n = g.len() as int;
    lemma_order_after_props(g, g.len());
    lemma_stuck_somewhere(g, g.len());
    lemma_first_ready_props(g, s, 0);
    // Some stage is unplaced.
    let all = vstd::set_lib::set_int_range(0, n);
    vstd::set_lib::lemma_int_range(0, n);
    s.lemma_cardinality_of_set();
    let x0 = if exists|x: int| 0 <= x < n && !s.contains(x) {
        choose|x: int| 0 <= x < n && !s.contains(x)
    } else {
        assert(all.subset_of(s.to_set()));
        vstd::set_lib::lemma_len_subset(all, s.to_set());
        0
    };
    // n + 1 steps of the walk repeat a stage.
    let w = Seq::new((n + 1) as nat, |k: int| walk(g, s, x0, k as nat));
    assert forall|k: int| 0 <= k < w.len() implies 0 <= #[trigger] w[k] < n by {
        lemma_walk_unplaced(g, s, x0, k as nat);
    }
    if w.no_duplicates() {
        w.unique_seq_to_set();
        assert(w.to_set().subset_of(all));
        vstd::set_lib::lemma_len_subset(w.to_set(), all);
    }
    let (a, b) = choose|a: int, b: int| 0 <= a < w.len() && 0 <= b < w.len() && a != b && w[a] == w[b];
    let (lo, hi) = if a < b { (a, b) } else { (b, a) };
    let x = w[lo];
    lemma_walk_reaches(g, s, x0, lo as nat, (hi - lo) as nat);
    assert(w[hi] == walk(g, s, x0, (lo + (hi - lo)) as nat));
    lemma_reach_grows(g, x, (hi - lo) as nat, g.len());
    assert(on_cycle(g, x));
    lemma_cyclic_nonempty(g, n, x);
}

proof fn lemma_cyclic_nonempty(g: Seq<Seq<int>>, m: int, x: int)
    requires
        0 <= x < m,
        on_cycle(g, x),
    ensures
        cyclic_stages(g, m).len() > 0,
    decreases m,
{
    if x < m - 1 {
        lemma_cyclic_nonempty(g, m - 1, x);
    }
}

} // verus!
