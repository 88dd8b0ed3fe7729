//! The open-boundary square lattice and its Newman-Watts shortcuts, as
//! adjacency lists: `g[i]` holds the neighbours of site `i` in increasing order.
use crate::rng::{lemire_draw, FastRng, RngState};
use vstd::arithmetic::div_mod::lemma_fundamental_div_mod_converse;
use vstd::prelude::*;

verus! {

/// The neighbours of site `(x, y)` on a `size` x `size` open-boundary square
/// lattice with sites numbered `y * size + x`: the sites below, left, right
/// and above, each where it exists, in that (increasing) order.
pub open spec fn lattice_neighbors(size: int, x: int, y: int) -> Seq<usize> {
    (if y > 0 { seq![((y - 1) * size + x) as usize] } else { Seq::<usize>::empty() })
    + (if x > 0 { seq![(y * size + x - 1) as usize] } else { Seq::<usize>::empty() })
    + (if x + 1 < size { seq![(y * size + x + 1) as usize] } else { Seq::<usize>::empty() })
    + (if y + 1 < size { seq![((y + 1) * size + x) as usize] } else { Seq::<usize>::empty() })
}

/// Site `idx` sits in column `idx % size` and row `idx / size`.
pub open spec fn site_neighbors(size: int, idx: int) -> Seq<usize> {
    lattice_neighbors(size, idx % size, idx / size)
}

/// Each entry is larger than the one before it.
pub open spec fn strictly_increasing(s: Seq<usize>) -> bool {
    forall|a: int, b: int| 0 <= a < b < s.len() ==> s[a] < s[b]
}

/// No entry is larger than one after it.
pub open spec fn nondecreasing(s: Seq<usize>) -> bool {
    forall|a: int, b: int| 0 <= a < b < s.len() ==> s[a] <= s[b]
}

/// `g[i]` lists `j`: an edge from `i` to `j`.
pub open spec fn has_edge(g: Seq<Vec<usize>>, i: int, j: int) -> bool {
    0 <= i < g.len() && 0 <= j <= usize::MAX && g[i]@.contains(j as usize)
}

/// A simple undirected graph: every list strictly increasing, every
/// neighbour a site other than the list's own, and every edge reciprocated.
pub open spec fn well_formed_graph(g: Seq<Vec<usize>>) -> bool {
    &&& forall|i: int| 0 <= i < g.len() ==> strictly_increasing(#[trigger] g[i]@)
    &&& forall|i: int, k: int|
        0 <= i < g.len() && 0 <= k < g[i]@.len() ==> {
            &&& (#[trigger] g[i]@[k]) < g.len()
            &&& g[i]@[k] != i
            &&& g[g[i]@[k] as int]@.contains(i as usize)
        }
}

/// The sum of the lengths of all lists (twice the number of edges of an
/// undirected graph).
pub open spec fn total_degree(g: Seq<Vec<usize>>) -> nat
    decreases g.len(),
{
    if g.len() == 0 {
        0
    } else {
        total_degree(g.drop_last()) + g.last()@.len()
    }
}

/// Column and row of site `(x, y)`'s index.
pub proof fn lemma_site_coords(size: int, x: int, y: int)
    requires
        0 <= x < size,
        0 <= y < size,
    ensures
        (y * size + x) % size == x,
        (y * size + x) / size == y,
        0 <= y * size + x < size * size,
{
    lemma_fundamental_div_mod_converse(y * size + x, size, y, x);
    assert(0 <= y * size + x < size * size) by (nonlinear_arith)
        requires
            0 <= x < size,
            0 <= y < size,
    ;
}

/// Every index below `size * size` is a site `(idx % size, idx / size)`.
pub proof fn lemma_site_decompose(size: int, idx: int)
    requires
        0 < size,
        0 <= idx < size * size,
    ensures
        0 <= idx % size < size,
        0 <= idx / size < size,
        idx == (idx / size) * size + idx % size,
{
    vstd::arithmetic::div_mod::lemma_fundamental_div_mod(idx, size);
    vstd::arithmetic::mul::lemma_mul_is_commutative(size, idx / size);
    vstd::arithmetic::div_mod::lemma_mod_bound(idx, size);
    vstd::arithmetic::div_mod::lemma_div_pos_is_pos(idx, size);
    let q = idx / size;
    let r = idx % size;
    if q >= size {
        assert(q * size >= size * size) by (nonlinear_arith)
            requires
                q >= size,
                size > 0,
        ;
    }
}

/// Joining two strictly increasing lists, all of whose entries in the first
/// are below all in the second, gives a strictly increasing list.
pub proof fn lemma_join_increasing(a: Seq<usize>, b: Seq<usize>)
    requires
        strictly_increasing(a),
        strictly_increasing(b),
        forall|p: int, q: int| 0 <= p < a.len() && 0 <= q < b.len() ==> a[p] < b[q],
    ensures
        strictly_increasing(a + b),
{
    assert forall|p: int, q: int| 0 <= p < q < (a + b).len() implies (a + b)[p] < (a + b)[q] by {
        if q < a.len() {
        } else if p < a.len() {
            assert((a + b)[q] == b[q - a.len()]);
        } else {
            assert((a + b)[q] == b[q - a.len()]);
            assert((a + b)[p] == b[p - a.len()]);
        }
    }
}

/// The square lattice of `system_size` x `system_size` sites with open
/// boundaries: `out[y * system_size + x]` lists the neighbours of `(x, y)`.
pub fn make_regular_lattice(system_size: usize) -> (out: Vec<Vec<usize>>)
    requires
        system_size > 0,
        system_size * system_size <= usize::MAX,
    ensures
        out@.len() == system_size * system_size,
        forall|idx: int|
            0 <= idx < out@.len() ==> (#[trigger] out@[idx])@ == site_neighbors(
                system_size as int,
                idx,
            ),
        well_formed_graph(out@),
        total_degree(out@) == 4 * system_size * (system_size - 1),
{
    let ghost size = system_size as int;
    let n = system_size * system_size;
    let mut out: Vec<Vec<usize>> = Vec::with_capacity(n);
    let mut k: usize = 0;
    while k < n
        invariant
            k <= n,
            out@.len() == k,
            forall|i: int| 0 <= i < k ==> (#[trigger] out@[i])@ == Seq::<usize>::empty(),
        decreases n - k,
    {
        out.push(Vec::with_capacity(4));
        k = k + 1;
    }
    assert(0 * size == 0);

    for y in 0..system_size
        invariant
            n == size * size,
            size == system_size,
            out@.len() == n,
            forall|i: int|
                0 <= i < y * size ==> (#[trigger] out@[i])@ == site_neighbors(size, i),
            forall|i: int| y * size <= i < n ==> (#[trigger] out@[i])@ == Seq::<usize>::empty(),
    {
        for x in 0..system_size
            invariant
                n == size * size,
                size == system_size,
                0 <= y < size,
                out@.len() == n,
                forall|i: int|
                    0 <= i < y * size + x ==> (#[trigger] out@[i])@ == site_neighbors(size, i),
                forall|i: int|
                    y * size + x <= i < n ==> (#[trigger] out@[i])@ == Seq::<usize>::empty(),
        {
            proof {
                lemma_site_coords(size, x as int, y as int);
                assert((y + 1) * size == y * size + size) by (nonlinear_arith);
                if y > 0 {
                    assert((y - 1) * size == y * size - size) by (nonlinear_arith);
                }
                if y + 1 < size {
                    lemma_site_coords(size, x as int, y + 1);
                }
            }
            let idx = y * system_size + x;
            let mut nbrs: Vec<usize> = Vec::with_capacity(4);

            if y > 0 {
                nbrs.push((y - 1) * system_size + x);
            }
            if x > 0 {
                nbrs.push(y * system_size + (x - 1));
            }
            if x + 1 < system_size {
                nbrs.push(y * system_size + (x + 1));
            }
            if y + 1 < system_size {
                nbrs.push((y + 1) * system_size + x);
            }
            assert(nbrs@ =~= lattice_neighbors(size, x as int, y as int));
            out[idx] = nbrs;
        }
        proof {
            assert((y + 1) * size == y * size + size) by (nonlinear_arith);
        }
    }
    proof {
        lemma_regular_lattice_well_formed(out@, size);
        lemma_regular_lattice_total_degree(out@, size);
    }
    out
}

/// The neighbours of `(x, y)` are sites of the lattice, so their indices are exact.
proof fn lemma_neighbor_bounds(size: int, x: int, y: int)
    requires
        0 <= x < size,
        0 <= y < size,
    ensures
        0 <= y * size + x < size * size,
        y > 0 ==> 0 <= (y - 1) * size + x < size * size,
        x > 0 ==> 0 <= y * size + x - 1 < size * size,
        x + 1 < size ==> 0 <= y * size + x + 1 < size * size,
        y + 1 < size ==> 0 <= (y + 1) * size + x < size * size,
        (y + 1) * size == y * size + size,
        (y - 1) * size == y * size - size,
{
    lemma_site_coords(size, x, y);
    if y > 0 {
        lemma_site_coords(size, x, y - 1);
    }
    if y + 1 < size {
        lemma_site_coords(size, x, y + 1);
    }
    assert((y + 1) * size == y * size + size) by (nonlinear_arith);
    assert((y - 1) * size == y * size - size) by (nonlinear_arith);
}

/// The lattice that `make_regular_lattice` builds is a simple undirected graph.
pub proof fn lemma_regular_lattice_well_formed(g: Seq<Vec<usize>>, size: int)
    requires
        size > 0,
        size * size <= usize::MAX,
        g.len() == size * size,
        forall|idx: int| 0 <= idx < g.len() ==> (#[trigger] g[idx])@ == site_neighbors(size, idx),
    ensures
        well_formed_graph(g),
{
    lemma_regular_lattice_sorted(g, size);
    lemma_regular_lattice_symmetric(g, size);
}

proof fn lemma_regular_lattice_sorted(g: Seq<Vec<usize>>, size: int)
    requires
        size > 0,
        size * size <= usize::MAX,
        g.len() == size * size,
        forall|idx: int| 0 <= idx < g.len() ==> (#[trigger] g[idx])@ == site_neighbors(size, idx),
    ensures
        forall|i: int| 0 <= i < g.len() ==> strictly_increasing(#[trigger] g[i]@),
{
    assert forall|i: int| 0 <= i < g.len() implies strictly_increasing(#[trigger] g[i]@) by {
        lemma_site_decompose(size, i);
        let x = i % size;
        let y = i / size;
        lemma_neighbor_bounds(size, x, y);
        let e = Seq::<usize>::empty();
        let s1 = if y > 0 { seq![((y - 1) * size + x) as usize] } else { e };
        let s2 = if x > 0 { seq![(y * size + x - 1) as usize] } else { e };
        let s3 = if x + 1 < size { seq![(y * size + x + 1) as usize] } else { e };
        let s4 = if y + 1 < size { seq![((y + 1) * size + x) as usize] } else { e };
        assert(lattice_neighbors(size, x, y) == s1 + s2 + s3 + s4);
        lemma_join_increasing(s1, s2);
        lemma_join_increasing(s1 + s2, s3);
        lemma_join_increasing(s1 + s2 + s3, s4);
    }
}

proof fn lemma_regular_lattice_symmetric(g: Seq<Vec<usize>>, size: int)
    requires
        size > 0,
        size * size <= usize::MAX,
        g.len() == size * size,
        forall|idx: int| 0 <= idx < g.len() ==> (#[trigger] g[idx])@ == site_neighbors(size, idx),
    ensures
        forall|i: int, k: int|
            0 <= i < g.len() && 0 <= k < g[i]@.len() ==> {
                &&& (#[trigger] g[i]@[k]) < g.len()
                &&& g[i]@[k] != i
                &&& g[g[i]@[k] as int]@.contains(i as usize)
            },
{
    assert forall|i: int, k: int| 0 <= i < g.len() && 0 <= k < g[i]@.len() implies {
        &&& (#[trigger] g[i]@[k]) < g.len()
        &&& g[i]@[k] != i
        &&& g[g[i]@[k] as int]@.contains(i as usize)
    } by {
        lemma_site_decompose(size, i);
        lemma_neighbor_reciprocated(size, i % size, i / size, k);
    }
}

/// The `k`-th neighbour of `(x, y)` is another site of the lattice, and lists
/// `(x, y)` among its own neighbours.
proof fn lemma_neighbor_reciprocated(size: int, x: int, y: int, k: int)
    requires
        0 <= x < size,
        0 <= y < size,
        size * size <= usize::MAX,
        0 <= k < lattice_neighbors(size, x, y).len(),
    ensures
        ({
            let i = y * size + x;
            let j = lattice_neighbors(size, x, y)[k] as int;
            &&& 0 <= j < size * size
            &&& j != i
            &&& site_neighbors(size, j).contains(i as usize)
        }),
{
    lemma_neighbor_bounds(size, x, y);
    let e = Seq::<usize>::empty();
    let s1 = if y > 0 { seq![((y - 1) * size + x) as usize] } else { e };
    let s2 = if x > 0 { seq![(y * size + x - 1) as usize] } else { e };
    let s3 = if x + 1 < size { seq![(y * size + x + 1) as usize] } else { e };
    let s4 = if y + 1 < size { seq![((y + 1) * size + x) as usize] } else { e };
    assert(lattice_neighbors(size, x, y) == s1 + s2 + s3 + s4);
    let j = lattice_neighbors(size, x, y)[k] as int;
    assert((y > 0 && j == (y - 1) * size + x) || (x > 0 && j == y * size + x - 1) || (x + 1
        < size && j == y * size + x + 1) || (y + 1 < size && j == (y + 1) * size + x));
    if y > 0 && j == (y - 1) * size + x {
        lemma_below_reciprocated(size, x, y);
    } else if x > 0 && j == y * size + x - 1 {
        lemma_left_reciprocated(size, x, y);
    } else if x + 1 < size && j == y * size + x + 1 {
        lemma_right_reciprocated(size, x, y);
    } else {
        lemma_above_reciprocated(size, x, y);
    }
}

proof fn lemma_below_reciprocated(size: int, x: int, y: int)
    requires
        0 <= x < size,
        0 < y < size,
        size * size <= usize::MAX,
    ensures
        site_neighbors(size, (y - 1) * size + x).contains((y * size + x) as usize),
{
    lemma_neighbor_bounds(size, x, y);
    lemma_neighbor_bounds(size, x, y - 1);
    lemma_site_coords(size, x, y - 1);
    let t = lattice_neighbors(size, x, y - 1);
    assert(t[t.len() - 1] == (y * size + x) as usize);
}

proof fn lemma_above_reciprocated(size: int, x: int, y: int)
    requires
        0 <= x < size,
        0 <= y < size - 1,
        size * size <= usize::MAX,
    ensures
        site_neighbors(size, (y + 1) * size + x).contains((y * size + x) as usize),
{
    lemma_neighbor_bounds(size, x, y);
    lemma_neighbor_bounds(size, x, y + 1);
    lemma_site_coords(size, x, y + 1);
    let t = lattice_neighbors(size, x, y + 1);
    assert(t[0] == (y * size + x) as usize);
}

proof fn lemma_left_reciprocated(size: int, x: int, y: int)
    requires
        0 < x < size,
        0 <= y < size,
        size * size <= usize::MAX,
    ensures
        site_neighbors(size, y * size + x - 1).contains((y * size + x) as usize),
{
    lemma_neighbor_bounds(size, x, y);
    lemma_neighbor_bounds(size, x - 1, y);
    lemma_site_coords(size, x - 1, y);
    let t = lattice_neighbors(size, x - 1, y);
    let p = if y > 0 { 1int } else { 0int };
    let p2 = if x - 1 > 0 { 1int } else { 0int };
    assert(t[p + p2] == (y * size + x) as usize);
}

proof fn lemma_right_reciprocated(size: int, x: int, y: int)
    requires
        0 <= x < size - 1,
        0 <= y < size,
        size * size <= usize::MAX,
    ensures
        site_neighbors(size, y * size + x + 1).contains((y * size + x) as usize),
{
    lemma_neighbor_bounds(size, x, y);
    lemma_neighbor_bounds(size, x + 1, y);
    lemma_site_coords(size, x + 1, y);
    let t = lattice_neighbors(size, x + 1, y);
    let p = if y > 0 { 1int } else { 0int };
    assert(t[p] == (y * size + x) as usize);
}

/// The number of lists entries `total_degree` counts, updated at one list.
pub proof fn lemma_total_degree_update(g: Seq<Vec<usize>>, k: int, v: Vec<usize>)
    requires
        0 <= k < g.len(),
    ensures
        total_degree(g.update(k, v)) == total_degree(g) - g[k]@.len() + v@.len(),
    decreases g.len(),
{
    let h = g.update(k, v);
    if k == g.len() - 1 {
        assert(h.drop_last() =~= g.drop_last());
    } else {
        assert(h.drop_last() =~= g.drop_last().update(k, v));
        lemma_total_degree_update(g.drop_last(), k, v);
    }
}

/// The degrees of a prefix of the lists add up to at most all of them.
pub proof fn lemma_total_degree_prefix(g: Seq<Vec<usize>>, k: int)
    requires
        0 <= k <= g.len(),
    ensures
        total_degree(g.take(k)) <= total_degree(g),
        k < g.len() ==> total_degree(g.take(k + 1)) == total_degree(g.take(k)) + g[k]@.len(),
    decreases g.len() - k,
{
    if k < g.len() {
        assert(g.take(k + 1).drop_last() =~= g.take(k));
        lemma_total_degree_prefix(g, k + 1);
    } else {
        assert(g.take(k) =~= g);
    }
}

/// The number of undirected edges, `total_degree / 2`, or `None` where the
/// sum of the list lengths does not fit in a `usize`.
pub fn count_edges(lattice: &Vec<Vec<usize>>) -> (r: Option<usize>)
    ensures
        r == (if total_degree(lattice@) <= usize::MAX {
            Some((total_degree(lattice@) / 2) as usize)
        } else {
            None
        }),
{
    let mut sum: usize = 0;
    let mut k: usize = 0;
    while k < lattice.len()
        invariant
            k <= lattice@.len(),
            sum == total_degree(lattice@.take(k as int)),
        decreases lattice@.len() - k,
    {
        proof {
            lemma_total_degree_prefix(lattice@, k as int);
        }
        match sum.checked_add(lattice[k].len()) {
            Some(s) => {
                sum = s;
            },
            None => {
                proof {
                    lemma_total_degree_prefix(lattice@, (k + 1) as int);
                }
                return None;
            },
        }
        k = k + 1;
    }
    proof {
        assert(lattice@.take(k as int) =~= lattice@);
    }
    Some(sum / 2)
}

/// The first position in nondecreasing `v` whose entry is not below `j`.
pub fn partition_point_below(v: &Vec<usize>, j: usize) -> (pos: usize)
    requires
        nondecreasing(v@),
    ensures
        pos <= v@.len(),
        forall|k: int| 0 <= k < pos ==> v@[k] < j,
        forall|k: int| pos <= k < v@.len() ==> v@[k] >= j,
{
    let mut lo: usize = 0;
    let mut hi: usize = v.len();
    while lo < hi
        invariant
            lo <= hi <= v@.len(),
            nondecreasing(v@),
            forall|k: int| 0 <= k < lo ==> v@[k] < j,
            forall|k: int| hi <= k < v@.len() ==> v@[k] >= j,
        decreases hi - lo,
    {
        let mid = lo + (hi - lo) / 2;
        if v[mid] < j {
            lo = mid + 1;
        } else {
            hi = mid;
        }
    }
    lo
}

/// Inserting `j` at its partition point keeps a list sorted, keeps it
/// strictly increasing when `j` was absent, and adds exactly `j`.
pub proof fn lemma_insert_at_partition_point(v: Seq<usize>, pos: int, j: usize)
    requires
        nondecreasing(v),
        0 <= pos <= v.len(),
        forall|k: int| 0 <= k < pos ==> v[k] < j,
        forall|k: int| pos <= k < v.len() ==> v[k] >= j,
    ensures
        nondecreasing(v.insert(pos, j)),
        strictly_increasing(v) && !v.contains(j) ==> strictly_increasing(v.insert(pos, j)),
        forall|x: usize|
            #![trigger v.insert(pos, j).contains(x)]
            #![trigger v.contains(x)]
            v.insert(pos, j).contains(x) <==> (v.contains(x) || x == j),
{
    v.insert_ensures(pos, j);
    let w = v.insert(pos, j);
    assert forall|a: int, b: int| 0 <= a < b < w.len() implies w[a] <= w[b] by {
        if b < pos {
        } else if b == pos {
        } else if a < pos {
            assert(w[b] == v[b - 1]);
        } else if a == pos {
            assert(w[b] == v[b - 1]);
        } else {
            assert(w[b] == v[b - 1]);
            assert(w[a] == v[a - 1]);
        }
    }
    if strictly_increasing(v) && !v.contains(j) {
        assert forall|a: int, b: int| 0 <= a < b < w.len() implies w[a] < w[b] by {
            if b < pos {
            } else if b == pos {
            } else if a < pos {
                assert(w[b] == v[b - 1]);
            } else if a == pos {
                assert(w[b] == v[b - 1]);
                assert(v[b - 1] != j);
            } else {
                assert(w[b] == v[b - 1]);
                assert(w[a] == v[a - 1]);
            }
        }
    }
    assert forall|x: usize| w.contains(x) <==> (v.contains(x) || x == j) by {
        if w.contains(x) {
            let a = choose|a: int| 0 <= a < w.len() && w[a] == x;
            if a < pos {
                assert(v[a] == x);
            } else if a > pos {
                assert(v[a - 1] == x);
            }
        }
        if v.contains(x) {
            let a = choose|a: int| 0 <= a < v.len() && v[a] == x;
            if a < pos {
                assert(w[a] == x);
            } else {
                assert(w[a + 1] == x);
            }
        }
        if x == j {
            assert(w[pos] == x);
        }
    }
}

/// Whether a request for `m_target` shortcuts is admissible: `N * (N - 1)`
/// and the list lengths fit in a `usize`, and the edges there are plus the
/// `m_target` new ones do not exceed `N * (N - 1) / 2`.
pub open spec fn shortcut_request_fits(g: Seq<Vec<usize>>, m_target: int) -> bool {
    let n = g.len() as int;
    &&& n * (n - 1) <= usize::MAX
    &&& total_degree(g) <= usize::MAX
    &&& total_degree(g) / 2 + m_target <= n * (n - 1) / 2
}

/// How many pairs the shortcut loop draws at most: `1024 * m_target`
/// (saturating at `usize::MAX`), and at least one.
pub open spec fn shortcut_attempt_limit(m_target: int) -> int {
    let l = if m_target * 1024 > usize::MAX { usize::MAX as int } else { m_target * 1024 };
    if l < 1 {
        1
    } else {
        l
    }
}

/// One pair of sites drawn uniformly from `[0, n)` from generator state `s`,
/// and the state after the two draws.
pub open spec fn pair_draw(s: RngState, n: int) -> (usize, usize, RngState) {
    let (a, s1) = lemire_draw(s, n as u64);
    let (b, s2) = lemire_draw(s1, n as u64);
    (a as usize, b as usize, s2)
}

/// The generator state after `k` pairs were drawn from state `s`.
pub open spec fn pairs_state(s: RngState, n: int, k: nat) -> RngState
    decreases k,
{
    if k == 0 {
        s
    } else {
        pair_draw(pairs_state(s, n, (k - 1) as nat), n).2
    }
}

/// The `t`-th pair of sites drawn from state `s` (counting from 0).
pub open spec fn drawn_pair(s: RngState, n: int, t: nat) -> (usize, usize) {
    let d = pair_draw(pairs_state(s, n, t), n);
    (d.0, d.1)
}

/// Whether the shortcut loop, started on graph `g` with generator state `s`
/// on `n` sites, has an edge from `a` to `b` after its first `t` pairs: the
/// edges of `g`, plus both directions of every drawn pair of two different
/// sites that was not yet an edge (in its drawn direction) when it was drawn.
pub open spec fn linked_after(g: Seq<Vec<usize>>, s: RngState, n: int, t: nat, a: int, b: int) -> bool
    decreases t,
{
    if t == 0 {
        has_edge(g, a, b)
    } else {
        let u = (t - 1) as nat;
        let p = drawn_pair(s, n, u);
        linked_after(g, s, n, u, a, b) || (p.0 != p.1 && !linked_after(
            g,
            s,
            n,
            u,
            p.0 as int,
            p.1 as int,
        ) && ((a == p.0 && b == p.1) || (a == p.1 && b == p.0)))
    }
}

/// Whether the `t`-th drawn pair is added as a shortcut: its two sites differ
/// and are not yet linked in the drawn direction.
pub open spec fn draw_is_new(g: Seq<Vec<usize>>, s: RngState, n: int, t: nat) -> bool {
    let p = drawn_pair(s, n, t);
    p.0 != p.1 && !linked_after(g, s, n, t, p.0 as int, p.1 as int)
}

/// How many of the first `t` drawn pairs are added as shortcuts.
pub open spec fn shortcuts_added(g: Seq<Vec<usize>>, s: RngState, n: int, t: nat) -> nat
    decreases t,
{
    if t == 0 {
        0
    } else {
        let u = (t - 1) as nat;
        shortcuts_added(g, s, n, u) + if draw_is_new(g, s, n, u) {
            1nat
        } else {
            0nat
        }
    }
}

/// The `t`-th pair drawn from state `s` links two sites that were not linked
/// yet: they differ, `g` has no edge between them in that direction, no
/// earlier pair was the same, and (where `g` is a simple undirected graph)
/// no earlier pair was the same in reverse.
pub open spec fn fresh_pair(g: Seq<Vec<usize>>, s: RngState, n: int, t: nat) -> bool {
    let p = drawn_pair(s, n, t);
    &&& p.0 != p.1
    &&& !has_edge(g, p.0 as int, p.1 as int)
    &&& forall|u: nat| u < t ==> #[trigger] drawn_pair(s, n, u) != p
    &&& well_formed_graph(g) ==> forall|u: nat| u < t ==> #[trigger] drawn_pair(s, n, u) != (p.1, p.0)
}

/// Adds up to `m_target` Newman-Watts shortcuts to `lattice`: it draws
/// ordered pairs of sites `(i, j)` uniformly until `m_target` shortcuts were
/// added or `1024 * m_target` pairs were drawn, and links `i` and `j` where
/// `i != j` and they were not yet neighbours, keeping each list sorted.
/// Returns the number of shortcuts added. (With rewiring probability `q` on
/// `N` sites, the Newman-Watts model asks for `round(q * 2N)` shortcuts.)
pub fn add_newman_watts_shortcuts(
    lattice: &mut Vec<Vec<usize>>,
    m_target: usize,
    rng: &mut FastRng,
) -> (added: usize)
    requires
        old(lattice)@.len() >= 1,
        forall|i: int| 0 <= i < old(lattice)@.len() ==> nondecreasing(#[trigger] old(lattice)@[i]@),
        old(lattice)@.len() > 1 ==> shortcut_request_fits(old(lattice)@, m_target as int),
    ensures
        final(lattice)@.len() == old(lattice)@.len(),
        added <= m_target,
        forall|i: int| 0 <= i < final(lattice)@.len() ==> nondecreasing(#[trigger] final(lattice)@[i]@),
        total_degree(final(lattice)@) == total_degree(old(lattice)@) + 2 * added,
        forall|a: int, b: int| #![trigger has_edge(final(lattice)@, a, b)]
            has_edge(old(lattice)@, a, b) ==> has_edge(final(lattice)@, a, b),
        forall|a: int, b: int| #![trigger has_edge(final(lattice)@, a, b)]
            has_edge(final(lattice)@, a, b) && !has_edge(old(lattice)@, a, b) ==> a != b
                && has_edge(final(lattice)@, b, a),
        well_formed_graph(old(lattice)@) ==> well_formed_graph(final(lattice)@),
        (m_target == 0 || old(lattice)@.len() == 1) ==> final(lattice)@ == old(lattice)@
            && final(rng)@ == old(rng)@ && added == 0,
        old(lattice)@.len() > 1 ==> exists|k: nat|
            {
                &&& k <= shortcut_attempt_limit(m_target as int)
                &&& #[trigger] pairs_state(old(rng)@, old(lattice)@.len() as int, k) == final(rng)@
                &&& (added == m_target || k == shortcut_attempt_limit(m_target as int))
                &&& added == shortcuts_added(old(lattice)@, old(rng)@, old(lattice)@.len() as int, k)
                &&& forall|t: nat|
                    t < k ==> #[trigger] shortcuts_added(
                        old(lattice)@,
                        old(rng)@,
                        old(lattice)@.len() as int,
                        t,
                    ) < m_target
                &&& forall|a: int, b: int|
                    #![trigger has_edge(final(lattice)@, a, b)]
                    has_edge(final(lattice)@, a, b) <==> linked_after(
                        old(lattice)@,
                        old(rng)@,
                        old(lattice)@.len() as int,
                        k,
                        a,
                        b,
                    )
                &&& (added == m_target && m_target > 0) ==> k > 0 && fresh_pair(
                    old(lattice)@,
                    old(rng)@,
                    old(lattice)@.len() as int,
                    (k - 1) as nat,
                )
                &&& forall|t: nat|
                    t < k ==> {
                        let p = #[trigger] drawn_pair(old(rng)@, old(lattice)@.len() as int, t);
                        p.0 != p.1 ==> has_edge(final(lattice)@, p.0 as int, p.1 as int)
                    }
                &&& forall|a: int, b: int|
                    #![trigger has_edge(final(lattice)@, a, b)]
                    has_edge(final(lattice)@, a, b) && !has_edge(old(lattice)@, a, b) ==> exists|
                        t: nat,
                    |
                        t < k && (#[trigger] drawn_pair(old(rng)@, old(lattice)@.len() as int, t)
                            == (a as usize, b as usize) || drawn_pair(
                            old(rng)@,
                            old(lattice)@.len() as int,
                            t,
                        ) == (b as usize, a as usize))
            },
{
    let n = lattice.len();
    if n <= 1 {
        return 0;
    }
    let ghost g0 = lattice@;
    let ghost r0 = rng@;
    let mut added: usize = 0;
    let mut attempts: usize = 0;
    let scaled: usize = if m_target > usize::MAX / 1024 {
        usize::MAX
    } else {
        m_target * 1024
    };
    let attempt_limit: usize = if scaled < 1 { 1 } else { scaled };

    while added < m_target && attempts < attempt_limit
        invariant
            n == lattice@.len(),
            n == g0.len(),
            n > 1,
            added <= m_target,
            attempts <= attempt_limit,
            forall|i: int| 0 <= i < n ==> nondecreasing(#[trigger] lattice@[i]@),
            total_degree(lattice@) == total_degree(g0) + 2 * added,
            total_degree(g0) <= usize::MAX,
            forall|a: int, b: int| #![trigger has_edge(lattice@, a, b)]
                has_edge(g0, a, b) ==> has_edge(lattice@, a, b),
            forall|a: int, b: int| #![trigger has_edge(lattice@, a, b)]
                has_edge(lattice@, a, b) && !has_edge(g0, a, b) ==> a != b && has_edge(
                    lattice@,
                    b,
                    a,
                ),
            well_formed_graph(g0) ==> well_formed_graph(lattice@),
            m_target == 0 ==> lattice@ == g0 && rng@ == r0,
            attempt_limit == shortcut_attempt_limit(m_target as int),
            rng@ == pairs_state(r0, n as int, attempts as nat),
            added == shortcuts_added(g0, r0, n as int, attempts as nat),
            forall|t: nat| t < attempts ==> #[trigger] shortcuts_added(g0, r0, n as int, t) < m_target,
            forall|a: int, b: int|
                #![trigger has_edge(lattice@, a, b)]
                #![trigger linked_after(g0, r0, n as int, attempts as nat, a, b)]
                has_edge(lattice@, a, b) <==> linked_after(g0, r0, n as int, attempts as nat, a, b),
            added == m_target && m_target > 0 ==> attempts > 0 && fresh_pair(
                g0,
                r0,
                n as int,
                (attempts - 1) as nat,
            ),
            forall|t: nat|
                t < attempts ==> {
                    let p = #[trigger] drawn_pair(r0, n as int, t);
                    p.0 != p.1 ==> has_edge(lattice@, p.0 as int, p.1 as int)
                },
            forall|a: int, b: int|
                #![trigger has_edge(lattice@, a, b)]
                has_edge(lattice@, a, b) && !has_edge(g0, a, b) ==> exists|t: nat|
                    t < attempts && (#[trigger] drawn_pair(r0, n as int, t) == (a as usize, b as usize)
                        || drawn_pair(r0, n as int, t) == (b as usize, a as usize)),
        decreases attempt_limit - attempts,
    {
        let ghost t_now = attempts as nat;
        let ghost s_before = rng@;
        attempts += 1;

        let i = rng.gen_usize_range(0, n);
        let j = rng.gen_usize_range(0, n);
        proof {
            assert(drawn_pair(r0, n as int, t_now) == (i, j));
            assert(rng@ == pairs_state(r0, n as int, attempts as nat));
        }
        proof {
            assert(shortcuts_added(g0, r0, n as int, t_now) < m_target);
        }
        if i == j {
            proof {
                lemma_shortcut_step(g0, r0, n as int, t_now);
            }
            continue;
        }
        let pos_i = partition_point_below(&lattice[i], j);
        if pos_i < lattice[i].len() && lattice[i][pos_i] == j {
            proof {
                assert(lattice@[i as int]@[pos_i as int] == j);
                assert(has_edge(lattice@, i as int, j as int));
                assert(linked_after(g0, r0, n as int, t_now, i as int, j as int));
                lemma_shortcut_step(g0, r0, n as int, t_now);
            }
            continue;
        }
        let ghost g1 = lattice@;
        proof {
            assert(!g1[i as int]@.contains(j)) by {
                if g1[i as int]@.contains(j) {
                    let a = choose|a: int| 0 <= a < g1[i as int]@.len() && g1[i as int]@[a] == j;
                    if a >= pos_i {
                        assert(g1[i as int]@[pos_i as int] <= g1[i as int]@[a]);
                    }
                }
            }
            lemma_insert_at_partition_point(g1[i as int]@, pos_i as int, j);
            assert(!has_edge(g0, i as int, j as int)) by {
                if has_edge(g0, i as int, j as int) {
                    assert(has_edge(g1, i as int, j as int));
                }
            }
            assert forall|u: nat| u < t_now implies #[trigger] drawn_pair(r0, n as int, u) != (i, j) by {
                if drawn_pair(r0, n as int, u) == (i, j) {
                    assert(has_edge(g1, i as int, j as int));
                }
            }
            if well_formed_graph(g0) {
                assert forall|u: nat| u < t_now implies #[trigger] drawn_pair(r0, n as int, u) != (
                    j,
                    i,
                ) by {
                    if drawn_pair(r0, n as int, u) == (j, i) {
                        assert(has_edge(g1, j as int, i as int));
                        let a = choose|a: int|
                            0 <= a < g1[j as int]@.len() && g1[j as int]@[a] == i;
                        assert(g1[i as int]@.contains(j));
                    }
                }
            }
            assert(fresh_pair(g0, r0, n as int, t_now));
        }
        lattice[i].insert(pos_i, j);
        let ghost g2 = lattice@;
        proof {
            lemma_total_degree_update(g1, i as int, g2[i as int]);
            assert(g2 == g1.update(i as int, g2[i as int]));
        }
        let pos_j = partition_point_below(&lattice[j], i);
        proof {
            lemma_insert_at_partition_point(g2[j as int]@, pos_j as int, i);
        }
        lattice[j].insert(pos_j, i);
        let ghost g3 = lattice@;
        proof {
            assert(g3[j as int]@ == g2[j as int]@.insert(pos_j as int, i));
            assert(g2[i as int]@ == g1[i as int]@.insert(pos_i as int, j));
            lemma_total_degree_update(g2, j as int, g3[j as int]);
            assert(g3 == g2.update(j as int, g3[j as int]));
            assert(total_degree(g3) <= total_degree(g0) + 2 * (added + 1));
            assert forall|a: int, b: int| #![trigger has_edge(g3, a, b)]
                has_edge(g3, a, b) <==> (has_edge(g1, a, b) || (a == i && b == j) || (a == j && b
                    == i)) by {
                if 0 <= b && b <= usize::MAX {
                    if a == i {
                        assert(g2[a]@.contains(b as usize) <==> (g1[a]@.contains(b as usize) || b
                            == j));
                    }
                    if a == j {
                        assert(g3[a]@.contains(b as usize) <==> (g2[a]@.contains(b as usize) || b
                            == i));
                    }
                }
            }
            if well_formed_graph(g0) {
                assert(well_formed_graph(g1));
                assert(!g1[j as int]@.contains(i)) by {
                    if g1[j as int]@.contains(i) {
                        let a = choose|a: int|
                            0 <= a < g1[j as int]@.len() && g1[j as int]@[a] == i;
                        assert(g1[i as int]@.contains(j));
                    }
                }
                assert(well_formed_graph(g3)) by {
                    assert forall|a: int, k: int|
                        0 <= a < g3.len() && 0 <= k < g3[a]@.len() implies {
                        &&& (#[trigger] g3[a]@[k]) < g3.len()
                        &&& g3[a]@[k] != a
                        &&& g3[g3[a]@[k] as int]@.contains(a as usize)
                    } by {
                        let b = g3[a]@[k] as int;
                        assert(g3[a]@.contains(b as usize));
                        assert(has_edge(g3, a, b));
                        if a != i && a != j {
                            assert(g1[a]@.contains(b as usize));
                            assert(has_edge(g1, b, a));
                        } else if a == i && b != j {
                            assert(has_edge(g1, a, b));
                            assert(has_edge(g1, b, a));
                        } else if a == j && b != i {
                            assert(has_edge(g1, a, b));
                            assert(has_edge(g1, b, a));
                        }
                        assert(has_edge(g3, b, a));
                    }
                }
            }
        }
        proof {
            assert(!has_edge(g1, i as int, j as int));
            assert(!linked_after(g0, r0, n as int, t_now, i as int, j as int));
            lemma_shortcut_step(g0, r0, n as int, t_now);
            assert forall|a: int, b: int|
                #![trigger has_edge(g3, a, b)]
                #![trigger linked_after(g0, r0, n as int, t_now + 1, a, b)]
                has_edge(g3, a, b) <==> linked_after(g0, r0, n as int, t_now + 1, a, b) by {
                assert(has_edge(g1, a, b) <==> linked_after(g0, r0, n as int, t_now, a, b));
            }
        }
        added += 1;
    }
    added
}

/// One more drawn pair: the edges after `t + 1` pairs are those after `t`,
/// plus both directions of pair `t` where it is added; the count of added
/// pairs grows by one exactly where pair `t` is added.
pub proof fn lemma_shortcut_step(g: Seq<Vec<usize>>, s: RngState, n: int, t: nat)
    ensures
        shortcuts_added(g, s, n, t + 1) == shortcuts_added(g, s, n, t) + if draw_is_new(g, s, n, t) {
            1nat
        } else {
            0nat
        },
        forall|a: int, b: int|
            #![trigger linked_after(g, s, n, t + 1, a, b)]
            linked_after(g, s, n, t + 1, a, b) == (linked_after(g, s, n, t, a, b) || (draw_is_new(
                g,
                s,
                n,
                t,
            ) && ((a == drawn_pair(s, n, t).0 && b == drawn_pair(s, n, t).1) || (a == drawn_pair(
                s,
                n,
                t,
            ).1 && b == drawn_pair(s, n, t).0)))),
{
    assert(((t + 1) as nat - 1) as nat == t);
}

/// The number of neighbours that site `(x, y)` shares its energy among when it
/// topples: its `degree` neighbours plus one lost across each boundary of the
/// lattice that it touches (once per axis).
pub open spec fn effective_neighbor_count(degree: int, x: int, y: int, size: int) -> int {
    degree + (if x == 0 || x == size - 1 { 1int } else { 0int }) + (if y == 0 || y == size - 1 {
        1int
    } else {
        0int
    })
}

/// What each entry of an effective-neighbour table holds: the length of the
/// site's neighbour list plus one for each lattice boundary it touches, one
/// for a first or last column and one for a first or last row (so an
/// interior site counts exactly its neighbours, shortcuts included).
pub proof fn law_eff_num_table_entry(
    neighbors: Seq<Vec<usize>>,
    system_size: int,
    table: Seq<u16>,
    idx: int,
)
    requires
        system_size > 0,
        table.len() == system_size * system_size,
        neighbors.len() >= table.len(),
        0 <= idx < table.len(),
        neighbors[idx]@.len() + 2 <= u16::MAX,
        forall|k: int|
            0 <= k < table.len() ==> #[trigger] table[k] == effective_neighbor_count(
                neighbors[k]@.len() as int,
                k % system_size,
                k / system_size,
                system_size,
            ) as u16,
    ensures
        table[idx] == neighbors[idx]@.len() + (if idx % system_size == 0 || idx % system_size
            == system_size - 1 {
            1int
        } else {
            0int
        }) + (if idx / system_size == 0 || idx / system_size == system_size - 1 {
            1int
        } else {
            0int
        }),
        (0 < idx % system_size < system_size - 1 && 0 < idx / system_size < system_size - 1)
            ==> table[idx] == neighbors[idx]@.len(),
{
    assert(table[idx] == effective_neighbor_count(
        neighbors[idx]@.len() as int,
        idx % system_size,
        idx / system_size,
        system_size,
    ) as u16);
}

/// Two tables for the same lattice whose neighbour lists differ at site
/// `idx` by one entry differ at `idx` by exactly one.
pub proof fn law_eff_num_table_one_more_neighbor(
    fewer: Seq<Vec<usize>>,
    more: Seq<Vec<usize>>,
    system_size: int,
    table_fewer: Seq<u16>,
    table_more: Seq<u16>,
    idx: int,
)
    requires
        system_size > 0,
        table_fewer.len() == system_size * system_size,
        table_more.len() == system_size * system_size,
        fewer.len() >= table_fewer.len(),
        more.len() >= table_more.len(),
        0 <= idx < table_fewer.len(),
        more[idx]@.len() == fewer[idx]@.len() + 1,
        more[idx]@.len() + 2 <= u16::MAX,
        forall|k: int|
            0 <= k < table_fewer.len() ==> #[trigger] table_fewer[k] == effective_neighbor_count(
                fewer[k]@.len() as int,
                k % system_size,
                k / system_size,
                system_size,
            ) as u16,
        forall|k: int|
            0 <= k < table_more.len() ==> #[trigger] table_more[k] == effective_neighbor_count(
                more[k]@.len() as int,
                k % system_size,
                k / system_size,
                system_size,
            ) as u16,
    ensures
        table_more[idx] == table_fewer[idx] + 1,
{
    law_eff_num_table_entry(fewer, system_size, table_fewer, idx);
    law_eff_num_table_entry(more, system_size, table_more, idx);
}

/// The effective neighbour count of every site, `neighbors[idx].len()` plus
/// one for each lattice boundary the site touches, as a `u16` (truncated).
pub fn build_eff_num_table(neighbors: &Vec<Vec<usize>>, system_size: usize) -> (table: Vec<u16>)
    requires
        system_size > 0,
        system_size * system_size <= usize::MAX,
        neighbors@.len() >= system_size * system_size,
        forall|idx: int|
            0 <= idx < system_size * system_size ==> (#[trigger] neighbors@[idx])@.len() + 2
                <= usize::MAX,
    ensures
        table@.len() == system_size * system_size,
        forall|idx: int|
            0 <= idx < table@.len() ==> #[trigger] table@[idx] == effective_neighbor_count(
                neighbors@[idx]@.len() as int,
                idx % system_size as int,
                idx / system_size as int,
                system_size as int,
            ) as u16,
{
    let num_of_sites = system_size * system_size;
    let mut table: Vec<u16> = Vec::with_capacity(num_of_sites);
    let mut idx: usize = 0;
    while idx < num_of_sites
        invariant
            num_of_sites == system_size * system_size,
            system_size > 0,
            neighbors@.len() >= num_of_sites,
            forall|t: int| 0 <= t < num_of_sites ==> (#[trigger] neighbors@[t])@.len() + 2 <= usize::MAX,
            idx <= num_of_sites,
            table@.len() == idx,
            forall|t: int|
                0 <= t < idx ==> #[trigger] table@[t] == effective_neighbor_count(
                    neighbors@[t]@.len() as int,
                    t % system_size as int,
                    t / system_size as int,
                    system_size as int,
                ) as u16,
        decreases num_of_sites - idx,
    {
        let mut n = neighbors[idx].len();
        let x = idx % system_size;
        let y = idx / system_size;
        if x == 0 || x == system_size - 1 {
            n += 1;
        }
        if y == 0 || y == system_size - 1 {
            n += 1;
        }
        table.push(n as u16);
        idx = idx + 1;
    }
    table
}

/// On the plain lattice of side at least 2, every site shares its energy
/// among exactly four neighbours, real or lost across the boundary.
pub proof fn lemma_regular_lattice_effective_count(g: Seq<Vec<usize>>, size: int, idx: int)
    requires
        size >= 2,
        g.len() == size * size,
        0 <= idx < g.len(),
        g[idx]@ == site_neighbors(size, idx),
    ensures
        effective_neighbor_count(g[idx]@.len() as int, idx % size, idx / size, size) == 4,
{
    lemma_site_decompose(size, idx);
    let x = idx % size;
    let y = idx / size;
    let e = Seq::<usize>::empty();
    let s1 = if y > 0 { seq![((y - 1) * size + x) as usize] } else { e };
    let s2 = if x > 0 { seq![(y * size + x - 1) as usize] } else { e };
    let s3 = if x + 1 < size { seq![(y * size + x + 1) as usize] } else { e };
    let s4 = if y + 1 < size { seq![((y + 1) * size + x) as usize] } else { e };
    assert(lattice_neighbors(size, x, y) == s1 + s2 + s3 + s4);
}

/// The summed degrees of sites `(0, y)` to `(x - 1, y)` of the lattice.
pub open spec fn row_degree_prefix(size: int, y: int, x: int) -> int
    decreases x,
{
    if x <= 0 {
        0
    } else {
        row_degree_prefix(size, y, x - 1) + lattice_neighbors(size, x - 1, y).len()
    }
}

/// The summed degrees of all sites in rows `0` to `y - 1` of the lattice.
pub open spec fn rows_degree(size: int, y: int) -> int
    decreases y,
{
    if y <= 0 {
        0
    } else {
        rows_degree(size, y - 1) + row_degree_prefix(size, y - 1, size)
    }
}

/// The degree of site `(x, y)`: one per neighbouring site that exists.
proof fn lemma_lattice_degree(size: int, x: int, y: int)
    ensures
        lattice_neighbors(size, x, y).len() == (if y > 0 { 1int } else { 0int }) + (if x > 0 {
            1int
        } else {
            0int
        }) + (if x + 1 < size { 1int } else { 0int }) + (if y + 1 < size { 1int } else { 0int }),
{
}

/// Closed form of a row's partial degree sum.
proof fn lemma_row_degree_prefix(size: int, y: int, x: int)
    requires
        0 <= x <= size,
        0 <= y < size,
    ensures
        row_degree_prefix(size, y, x) == x * ((if y > 0 { 1int } else { 0int }) + (if y + 1 < size {
            1int
        } else {
            0int
        })) + (if x > 0 { x - 1 } else { 0 }) + (if x < size - 1 { x } else { size - 1 }),
    decreases x,
{
    if x > 0 {
        lemma_row_degree_prefix(size, y, x - 1);
        lemma_lattice_degree(size, x - 1, y);
        let c = (if y > 0 { 1int } else { 0int }) + (if y + 1 < size { 1int } else { 0int });
        assert(x * c == (x - 1) * c + c) by (nonlinear_arith);
        assert(row_degree_prefix(size, y, x) == row_degree_prefix(size, y, x - 1)
            + lattice_neighbors(size, x - 1, y).len());
        let d = lattice_neighbors(size, x - 1, y).len() as int;
        assert(d == c + (if x - 1 > 0 { 1int } else { 0int }) + (if x < size { 1int } else { 0int }));
        let p = row_degree_prefix(size, y, x - 1);
        assert(p == (x - 1) * c + (if x - 1 > 0 { x - 2 } else { 0 }) + (if x - 1 < size - 1 { x - 1 } else { size - 1 }));
        assert(row_degree_prefix(size, y, x) == x * c + (if x > 0 { x - 1 } else { 0 }) + (if x < size - 1 { x } else { size - 1 }));
    } else {
        assert(row_degree_prefix(size, y, x) == 0);
        assert(x * ((if y > 0 { 1int } else { 0int }) + (if y + 1 < size { 1int } else { 0int })) == 0);
    }
}

/// Closed form of the degree sum over the first `y` rows.
proof fn lemma_rows_degree(size: int, y: int)
    requires
        0 <= y <= size,
        size > 0,
    ensures
        rows_degree(size, y) == y * (2 * (size - 1)) + size * ((if y > 0 { y - 1 } else { 0 }) + (
        if y < size - 1 { y } else { size - 1 })),
    decreases y,
{
    if y > 0 {
        lemma_rows_degree(size, y - 1);
        lemma_row_degree_prefix(size, y - 1, size);
        let a = if y - 1 > 0 { y - 2 } else { 0 };
        let b = if y - 1 < size - 1 { y - 1 } else { size - 1 };
        let a2 = if y > 0 { y - 1 } else { 0 };
        let b2 = if y < size - 1 { y } else { size - 1 };
        let c = (if y - 1 > 0 { 1int } else { 0int }) + (if y < size { 1int } else { 0int });
        assert(a2 + b2 == a + b + c);
        assert(y * (2 * (size - 1)) + size * (a2 + b2) == (y - 1) * (2 * (size - 1)) + size * (a
            + b) + size * c + 2 * (size - 1)) by (nonlinear_arith)
            requires
                a2 + b2 == a + b + c,
        ;
        assert(size * c == c * size) by (nonlinear_arith);
        assert(rows_degree(size, y) == rows_degree(size, y - 1) + row_degree_prefix(size, y - 1, size));
        assert(row_degree_prefix(size, y - 1, size) == size * c + 2 * (size - 1));
    } else {
        let m = (if y > 0 { y - 1 } else { 0 }) + (if y < size - 1 { y } else { size - 1 });
        assert(m == 0);
        assert(y * (2 * (size - 1)) + size * m == 0) by (nonlinear_arith)
            requires
                y == 0,
                m == 0,
        ;
        assert(rows_degree(size, y) == 0);
    }
}

/// The degrees of the first `k` sites of the lattice add up to the full rows
/// before site `k` and the part of its row before it.
proof fn lemma_lattice_degree_prefix(g: Seq<Vec<usize>>, size: int, k: int)
    requires
        size > 0,
        size * size <= usize::MAX,
        g.len() == size * size,
        forall|idx: int| 0 <= idx < g.len() ==> (#[trigger] g[idx])@ == site_neighbors(size, idx),
        0 <= k <= size * size,
    ensures
        total_degree(g.take(k)) == rows_degree(size, k / size) + row_degree_prefix(
            size,
            k / size,
            k % size,
        ),
    decreases k,
{
    if k == 0 {
        assert(g.take(0) =~= Seq::<Vec<usize>>::empty());
        assert(0int / size == 0 && 0int % size == 0) by (nonlinear_arith)
            requires
                size > 0,
        ;
    } else {
        lemma_lattice_degree_prefix(g, size, k - 1);
        lemma_total_degree_prefix(g, k - 1);
        lemma_site_decompose(size, k - 1);
        let y = (k - 1) / size;
        let x = (k - 1) % size;
        assert(g[k - 1]@.len() == lattice_neighbors(size, x, y).len());
        assert((y + 1) * size == y * size + size) by (nonlinear_arith);
        if x + 1 < size {
            lemma_fundamental_div_mod_converse(k, size, y, x + 1);
        } else {
            lemma_fundamental_div_mod_converse(k, size, y + 1, 0);
            assert(rows_degree(size, y + 1) == rows_degree(size, y) + row_degree_prefix(size, y, size));
        }
    }
}

/// The plain lattice has `2 * size * (size - 1)` edges: its degrees add up to
/// `4 * size * (size - 1)`.
pub proof fn lemma_regular_lattice_total_degree(g: Seq<Vec<usize>>, size: int)
    requires
        size > 0,
        size * size <= usize::MAX,
        g.len() == size * size,
        forall|idx: int| 0 <= idx < g.len() ==> (#[trigger] g[idx])@ == site_neighbors(size, idx),
    ensures
        total_degree(g) == 4 * size * (size - 1),
{
    lemma_lattice_degree_prefix(g, size, size * size);
    assert(g.take(size * size) =~= g);
    lemma_fundamental_div_mod_converse(size * size, size, size, 0);
    lemma_rows_degree(size, size);
    assert(size * (2 * (size - 1)) + size * ((size - 1) + (size - 1)) == 4 * size * (size - 1))
        by (nonlinear_arith);
}

} // verus!
