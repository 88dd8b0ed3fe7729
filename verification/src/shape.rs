//! Accumulation of average avalanche shapes: avalanches are sorted into
//! duration windows around target durations, and their per-generation
//! toppling counts are summed per window.
use vstd::prelude::*;

verus! {

/// Lower end of the window around `target`: `target - half_width`, at least 0.
pub open spec fn window_lo(target: u64, half_width: u64) -> int {
    if target >= half_width {
        target - half_width
    } else {
        0
    }
}

/// Duration `d` falls in the window of half-width `half_width` around `target`.
pub open spec fn in_window(target: u64, half_width: u64, d: int) -> bool {
    window_lo(target, half_width) <= d <= target + half_width
}

/// A non-negative duration falls in a target's window exactly when it lies
/// within `half_width` of the target.
pub proof fn law_in_window_distance(target: u64, half_width: u64, d: int)
    requires
        d >= 0,
    ensures
        in_window(target, half_width, d) <==> (target - half_width <= d && d - target <= half_width),
{
}

/// Lexicographic order on (group, target) positions.
pub open spec fn pair_lt(a: (usize, usize), b: (usize, usize)) -> bool {
    a.0 < b.0 || (a.0 == b.0 && a.1 < b.1)
}

/// Positions in strictly increasing lexicographic order.
pub open spec fn pairs_increasing(s: Seq<(usize, usize)>) -> bool {
    forall|a: int, b: int| 0 <= a < b < s.len() ==> pair_lt(s[a], s[b])
}

/// `p` names a target: group `p.0`, position `p.1` in it.
pub open spec fn valid_pair(groups: Seq<Vec<u64>>, p: (usize, usize)) -> bool {
    p.0 < groups.len() && p.1 < groups[p.0 as int]@.len()
}

/// The target at position `p`.
pub open spec fn target_at(groups: Seq<Vec<u64>>, p: (usize, usize)) -> u64 {
    groups[p.0 as int]@[p.1 as int]
}

/// Target groups the accumulator accepts: at least one group, none empty (and
/// no more of either than a vector holds), and every window end `target + half_width` below `usize::MAX`.
pub open spec fn groups_fit(groups: Seq<Vec<u64>>, half_width: u64) -> bool {
    &&& 0 < groups.len() <= usize::MAX
    &&& forall|g: int|
        0 <= g < groups.len() ==> 0 < (#[trigger] groups[g])@.len() <= usize::MAX
    &&& forall|g: int, i: int|
        0 <= g < groups.len() && 0 <= i < groups[g]@.len() ==> (#[trigger] groups[g]@[i]) as int
            + half_width < usize::MAX
}

/// `table[d]` lists, in lexicographic order, exactly the targets whose
/// window holds duration `d`, and the table reaches past every window.
pub open spec fn window_table_exact(
    groups: Seq<Vec<u64>>,
    half_width: u64,
    table: Seq<Vec<(usize, usize)>>,
) -> bool {
    &&& forall|d: int| 0 <= d < table.len() ==> pairs_increasing(#[trigger] table[d]@)
    &&& forall|d: int, p: (usize, usize)|
        0 <= d < table.len() ==> (#[trigger] table[d]@.contains(p) <==> (valid_pair(groups, p)
            && in_window(target_at(groups, p), half_width, d)))
    &&& forall|p: (usize, usize)|
        valid_pair(groups, p) ==> target_at(groups, p) + half_width < table.len()
}

/// Appends `p` to the lists of every duration in `[lo, hi]`.
fn add_to_window(table: &mut Vec<Vec<(usize, usize)>>, p: (usize, usize), lo: u64, hi: u64)
    requires
        lo <= hi,
        hi < old(table)@.len(),
    ensures
        final(table)@.len() == old(table)@.len(),
        forall|d: int|
            0 <= d < final(table)@.len() ==> (#[trigger] final(table)@[d])@ == if lo <= d <= hi {
                old(table)@[d]@.push(p)
            } else {
                old(table)@[d]@
            },
{
    let ghost t0 = table@;
    assert(t0.len() == table.len());
    let mut d: u64 = lo;
    while d <= hi
        invariant
            t0.len() <= usize::MAX,
            lo <= d <= hi + 1,
            hi < table@.len(),
            table@.len() == t0.len(),
            forall|e: int|
                0 <= e < table@.len() ==> (#[trigger] table@[e])@ == if lo <= e < d {
                    t0[e]@.push(p)
                } else {
                    t0[e]@
                },
        decreases hi + 1 - d,
    {
        table[d as usize].push(p);
        d = d + 1;
    }
}

/// The table of targets whose window holds each duration, from duration 0
/// to the highest window end.
pub fn build_window_table(groups: &Vec<Vec<u64>>, half_width: u64) -> (table: Vec<Vec<(usize, usize)>>)
    requires
        groups_fit(groups@, half_width),
    ensures
        window_table_exact(groups@, half_width, table@),
{
    let mut max_hi: u64 = 0;
    for gi in 0..groups.len()
        invariant
            groups_fit(groups@, half_width),
            forall|p: (usize, usize)|
                valid_pair(groups@, p) && p.0 < gi ==> target_at(groups@, p) + half_width <= max_hi,
            max_hi < usize::MAX,
    {
        let row_len = groups[gi].len();
        for i in 0..row_len
            invariant
                groups_fit(groups@, half_width),
                0 <= gi < groups@.len(),
                row_len == groups@[gi as int]@.len(),
                forall|p: (usize, usize)|
                    valid_pair(groups@, p) && (p.0 < gi || (p.0 == gi && p.1 < i)) ==> target_at(
                        groups@,
                        p,
                    ) + half_width <= max_hi,
                max_hi < usize::MAX,
        {
            assert(groups@[gi as int]@[i as int] + half_width < usize::MAX);
            let hi = groups[gi][i] + half_width;
            if hi > max_hi {
                max_hi = hi;
            }
        }
    }

    let mut table: Vec<Vec<(usize, usize)>> = Vec::new();
    let mut k: u64 = 0;
    while k <= max_hi
        invariant
            k <= max_hi + 1,
            max_hi < usize::MAX,
            table@.len() == k,
            forall|e: int| 0 <= e < k ==> (#[trigger] table@[e])@ == Seq::<(usize, usize)>::empty(),
        decreases max_hi + 1 - k,
    {
        table.push(Vec::new());
        k = k + 1;
    }

    for gi in 0..groups.len()
        invariant
            groups_fit(groups@, half_width),
            table@.len() == max_hi + 1,
            forall|p: (usize, usize)|
                valid_pair(groups@, p) ==> target_at(groups@, p) + half_width <= max_hi,
            forall|d: int| 0 <= d < table@.len() ==> pairs_increasing(#[trigger] table@[d]@),
            forall|d: int, q: (usize, usize)|
                0 <= d < table@.len() && #[trigger] table@[d]@.contains(q) ==> q.0 < gi,
            forall|d: int, q: (usize, usize)|
                0 <= d < table@.len() ==> (#[trigger] table@[d]@.contains(q) <==> (valid_pair(
                    groups@,
                    q,
                ) && q.0 < gi && in_window(target_at(groups@, q), half_width, d))),
    {
        let row_len = groups[gi].len();
        for i in 0..row_len
            invariant
                groups_fit(groups@, half_width),
                0 <= gi < groups@.len(),
                row_len == groups@[gi as int]@.len(),
                table@.len() == max_hi + 1,
                forall|p: (usize, usize)|
                    valid_pair(groups@, p) ==> target_at(groups@, p) + half_width <= max_hi,
                forall|d: int| 0 <= d < table@.len() ==> pairs_increasing(#[trigger] table@[d]@),
                forall|d: int, q: (usize, usize)|
                    0 <= d < table@.len() && #[trigger] table@[d]@.contains(q) ==> pair_lt(
                        q,
                        (gi, i),
                    ),
                forall|d: int, q: (usize, usize)|
                    0 <= d < table@.len() ==> (#[trigger] table@[d]@.contains(q) <==> (valid_pair(
                        groups@,
                        q,
                    ) && pair_lt(q, (gi, i)) && in_window(target_at(groups@, q), half_width, d))),
        {
            let target = groups[gi][i];
            assert(valid_pair(groups@, (gi, i)));
            let lo = if target >= half_width {
                target - half_width
            } else {
                0
            };
            let ghost t1 = table@;
            add_to_window(&mut table, (gi, i), lo, target + half_width);
            proof {
                assert forall|d: int| 0 <= d < table@.len() implies pairs_increasing(
                    #[trigger] table@[d]@,
                ) by {
                    if lo <= d <= target + half_width {
                        assert forall|a: int, b: int|
                            0 <= a < b < table@[d]@.len() implies pair_lt(
                            table@[d]@[a],
                            table@[d]@[b],
                        ) by {
                            if b == t1[d]@.len() {
                                assert(t1[d]@.contains(t1[d]@[a]));
                            }
                        }
                    }
                }
                assert forall|d: int, q: (usize, usize)|
                    0 <= d < table@.len() implies (#[trigger] table@[d]@.contains(q) <==> (
                    valid_pair(groups@, q) && pair_lt(q, (gi, (i + 1) as usize)) && in_window(
                        target_at(groups@, q),
                        half_width,
                        d,
                    ))) by {
                    if lo <= d <= target + half_width {
                        assert(table@[d]@ == t1[d]@.push((gi, i)));
                        if table@[d]@.contains(q) && q != (gi, i) {
                            let a = choose|a: int| 0 <= a < table@[d]@.len() && table@[d]@[a] == q;
                            assert(t1[d]@[a] == q);
                            assert(t1[d]@.contains(q));
                        }
                        if q == (gi, i) {
                            assert(table@[d]@[t1[d]@.len() as int] == q);
                        }
                        if t1[d]@.contains(q) {
                            let a = choose|a: int| 0 <= a < t1[d]@.len() && t1[d]@[a] == q;
                            assert(table@[d]@[a] == q);
                        }
                    }
                }
                assert forall|d: int, q: (usize, usize)|
                    0 <= d < table@.len() && #[trigger] table@[d]@.contains(q) implies pair_lt(
                    q,
                    (gi, (i + 1) as usize),
                ) by {
                    assert(table@[d]@.contains(q) <==> (valid_pair(groups@, q) && pair_lt(
                        q,
                        (gi, (i + 1) as usize),
                    ) && in_window(target_at(groups@, q), half_width, d)));
                }
            }
        }
        proof {
            assert forall|d: int, q: (usize, usize)|
                0 <= d < table@.len() implies (#[trigger] table@[d]@.contains(q) <==> (valid_pair(
                groups@,
                q,
            ) && q.0 < gi + 1 && in_window(target_at(groups@, q), half_width, d))) by {
                if valid_pair(groups@, q) && q.0 == gi {
                    assert(pair_lt(q, (gi, groups@[gi as int]@.len() as usize)));
                }
            }
        }
    }
    table
}

/// Adds `shape[t]` to `row[t]` for every `t < used`, saturating at `u64::MAX`.
fn add_shape_prefix(row: &mut Vec<u64>, shape: &Vec<u64>, used: usize)
    requires
        used <= old(row)@.len(),
        used <= shape@.len(),
    ensures
        final(row)@.len() == old(row)@.len(),
        forall|t: int|
            0 <= t < final(row)@.len() ==> #[trigger] final(row)@[t] == if t < used {
                old(row)@[t].saturating_add(shape@[t])
            } else {
                old(row)@[t]
            },
{
    let ghost r0 = row@;
    for t in 0..used
        invariant
            used <= r0.len(),
            used <= shape@.len(),
            row@.len() == r0.len(),
            forall|e: int|
                0 <= e < row@.len() ==> #[trigger] row@[e] == if e < t {
                    r0[e].saturating_add(shape@[e])
                } else {
                    r0[e]
                },
    {
        let v = row[t].saturating_add(shape[t]);
        row[t] = v;
    }
}

/// The first `len` entries of `shape`, as a new vector.
fn prefix_copy(shape: &Vec<u64>, len: usize) -> (r: Vec<u64>)
    requires
        len <= shape@.len(),
    ensures
        r@ == shape@.take(len as int),
{
    let mut r: Vec<u64> = Vec::with_capacity(len);
    for t in 0..len
        invariant
            len <= shape@.len(),
            r@ == shape@.take(t as int),
    {
        r.push(shape[t]);
        assert(r@ =~= shape@.take(t + 1));
    }
    r
}

/// The first `k + 1` entries hold `q` exactly when the first `k` do or entry
/// `k` is `q`.
pub proof fn lemma_take_next_contains<A>(s: Seq<A>, k: int, q: A)
    requires
        0 <= k < s.len(),
    ensures
        s.take(k + 1).contains(q) <==> (s.take(k).contains(q) || s[k] == q),
{
    let t = s.take(k + 1);
    if t.contains(q) {
        let a = choose|a: int| 0 <= a < t.len() && t[a] == q;
        if a < k {
            assert(s.take(k)[a] == q);
        }
    }
    if s.take(k).contains(q) {
        let a = choose|a: int| 0 <= a < k && s.take(k)[a] == q;
        assert(s.take(k + 1)[a] == q);
    }
    if s[k] == q {
        assert(s.take(k + 1)[k] == q);
    }
}

/// `sums` with `shape[t]` added (saturating) for every `t < used`.
pub open spec fn add_prefix(sums: Seq<u64>, shape: Seq<u64>, used: int) -> Seq<u64> {
    Seq::new(sums.len(), |t: int| if t < used { sums[t].saturating_add(shape[t]) } else { sums[t] })
}

/// The smaller of two integers.
pub open spec fn min_int(a: int, b: int) -> int {
    if a < b {
        a
    } else {
        b
    }
}

/// Sums of the per-generation toppling counts of avalanches, per target
/// duration: an avalanche of duration `d` is counted for every target whose
/// window holds `d`, and its first `min(target, d)` generations are added to
/// that target's sums. The first few avalanches of exactly each group's first
/// target are also kept whole, as raw samples.
pub struct ShapeAccumulator {
    groups: Vec<Vec<u64>>,
    half_width: u64,
    max_samples: usize,
    table: Vec<Vec<(usize, usize)>>,
    counts: Vec<Vec<u64>>,
    sums: Vec<Vec<Vec<u64>>>,
    samples: Vec<Vec<Vec<u64>>>,
    records: u64,
}

impl ShapeAccumulator {
    /// The target durations, group by group.
    pub closed spec fn target_groups(&self) -> Seq<Vec<u64>> {
        self.groups@
    }

    /// Half-width of the duration window around each target.
    pub closed spec fn window_half_width(&self) -> u64 {
        self.half_width
    }

    /// How many raw samples each group keeps at most.
    pub closed spec fn sample_limit(&self) -> usize {
        self.max_samples
    }

    /// How many avalanches were recorded.
    pub closed spec fn recorded(&self) -> u64 {
        self.records
    }

    /// How many recorded avalanches fell in the window of target `(g, i)`.
    pub closed spec fn count_of(&self, g: int, i: int) -> u64 {
        self.counts@[g]@[i]
    }

    /// The summed toppling counts of generation `t` for target `(g, i)`.
    pub closed spec fn sums_of(&self, g: int, i: int) -> Seq<u64> {
        self.sums@[g]@[i]@
    }

    /// The raw samples of group `g`.
    pub closed spec fn samples_of(&self, g: int) -> Seq<Vec<u64>> {
        self.samples@[g]@
    }

    /// The internal tables agree with the targets.
    pub closed spec fn wf(&self) -> bool {
        &&& groups_fit(self.groups@, self.half_width)
        &&& window_table_exact(self.groups@, self.half_width, self.table@)
        &&& self.counts@.len() == self.groups@.len()
        &&& self.sums@.len() == self.groups@.len()
        &&& self.samples@.len() == self.groups@.len()
        &&& forall|g: int|
            0 <= g < self.groups@.len() ==> (#[trigger] self.counts@[g])@.len()
                == self.groups@[g]@.len()
        &&& forall|g: int|
            0 <= g < self.groups@.len() ==> (#[trigger] self.sums@[g])@.len()
                == self.groups@[g]@.len()
        &&& forall|g: int|
            0 <= g < self.groups@.len() ==> (#[trigger] self.samples@[g])@.len()
                <= self.max_samples
        &&& forall|g: int, i: int|
            0 <= g < self.groups@.len() && 0 <= i < self.groups@[g]@.len() ==> (
            #[trigger] self.sums@[g]@[i])@.len() == self.groups@[g]@[i] && self.counts@[g]@[i]
                <= self.records
    }

    /// An empty accumulator for the target groups `groups`, with windows of
    /// half-width `half_width`, keeping up to `max_samples` raw samples per group.
    pub fn new(groups: Vec<Vec<u64>>, half_width: u64, max_samples: usize) -> (acc: Self)
        requires
            groups_fit(groups@, half_width),
        ensures
            acc.wf(),
            acc.target_groups() == groups@,
            acc.window_half_width() == half_width,
            acc.sample_limit() == max_samples,
            acc.recorded() == 0,
            forall|g: int, i: int|
                0 <= g < groups@.len() && 0 <= i < groups@[g]@.len() ==> #[trigger] acc.count_of(
                    g,
                    i,
                ) == 0 && acc.sums_of(g, i) == Seq::new(groups@[g]@[i] as nat, |t: int| 0u64),
            forall|g: int| 0 <= g < groups@.len() ==> #[trigger] acc.samples_of(g).len() == 0,
    {
        let table = build_window_table(&groups, half_width);
        let mut counts: Vec<Vec<u64>> = Vec::new();
        let mut sums: Vec<Vec<Vec<u64>>> = Vec::new();
        let mut samples: Vec<Vec<Vec<u64>>> = Vec::new();
        for gi in 0..groups.len()
            invariant
                groups_fit(groups@, half_width),
                counts@.len() == gi,
                sums@.len() == gi,
                samples@.len() == gi,
                forall|g: int|
                    0 <= g < gi ==> (#[trigger] counts@[g])@ == Seq::new(
                        groups@[g]@.len(),
                        |i: int| 0u64,
                    ),
                forall|g: int| 0 <= g < gi ==> (#[trigger] sums@[g])@.len() == groups@[g]@.len(),
                forall|g: int| 0 <= g < gi ==> (#[trigger] samples@[g])@.len() == 0,
                forall|g: int, i: int|
                    0 <= g < gi && 0 <= i < groups@[g]@.len() ==> (#[trigger] sums@[g]@[i])@
                        == Seq::new(groups@[g]@[i] as nat, |t: int| 0u64),
        {
            let row_len = groups[gi].len();
            let mut crow: Vec<u64> = Vec::new();
            let mut srow: Vec<Vec<u64>> = Vec::new();
            for i in 0..row_len
                invariant
                    groups_fit(groups@, half_width),
                    0 <= gi < groups@.len(),
                    row_len == groups@[gi as int]@.len(),
                    crow@ == Seq::new(i as nat, |k: int| 0u64),
                    srow@.len() == i,
                    forall|k: int|
                        0 <= k < i ==> (#[trigger] srow@[k])@ == Seq::new(
                            groups@[gi as int]@[k] as nat,
                            |t: int| 0u64,
                        ),
            {
                assert(groups@[gi as int]@[i as int] + half_width < usize::MAX);
                let len = groups[gi][i] as usize;
                let mut zeros: Vec<u64> = Vec::with_capacity(len);
                for t in 0..len
                    invariant
                        zeros@ == Seq::new(t as nat, |k: int| 0u64),
                {
                    zeros.push(0);
                    assert(zeros@ =~= Seq::new((t + 1) as nat, |k: int| 0u64));
                }
                srow.push(zeros);
                crow.push(0);
                assert(crow@ =~= Seq::new((i + 1) as nat, |k: int| 0u64));
            }
            counts.push(crow);
            sums.push(srow);
            samples.push(Vec::new());
        }
        assert forall|g: int, i: int|
            0 <= g < groups@.len() && 0 <= i < groups@[g]@.len() implies (
            #[trigger] sums@[g]@[i])@.len() == groups@[g]@[i] && counts@[g]@[i] <= 0 by {
            assert(counts@[g]@[i] == 0);
        }
        let acc = ShapeAccumulator {
            groups,
            half_width,
            max_samples,
            table,
            counts,
            sums,
            samples,
            records: 0,
        };
        acc
    }

    /// Records an avalanche of `duration` generations whose toppling counts
    /// per generation are `shape`: every target whose window holds
    /// `duration` counts it and adds its first `min(target, duration)`
    /// generations to its sums; every group whose first target equals
    /// `duration` keeps it whole as a raw sample while it has room.
    pub fn record(&mut self, shape: &Vec<u64>, duration: u64)
        requires
            old(self).wf(),
            old(self).recorded() < u64::MAX,
            shape@.len() == duration,
        ensures
            final(self).wf(),
            final(self).target_groups() == old(self).target_groups(),
            final(self).window_half_width() == old(self).window_half_width(),
            final(self).sample_limit() == old(self).sample_limit(),
            final(self).recorded() == old(self).recorded() + 1,
            forall|g: int, i: int|
                0 <= g < old(self).target_groups().len() && 0 <= i < old(
                    self,
                ).target_groups()[g]@.len() ==> {
                    let target = old(self).target_groups()[g]@[i];
                    let hit = in_window(target, old(self).window_half_width(), duration as int);
                    &&& #[trigger] final(self).count_of(g, i) == old(self).count_of(g, i) + if hit {
                        1int
                    } else {
                        0int
                    }
                    &&& final(self).sums_of(g, i) == if hit {
                        add_prefix(
                            old(self).sums_of(g, i),
                            shape@,
                            min_int(target as int, duration as int),
                        )
                    } else {
                        old(self).sums_of(g, i)
                    }
                },
            forall|g: int|
                0 <= g < old(self).target_groups().len() ==> if old(self).samples_of(g).len()
                    < old(self).sample_limit() && duration == old(self).target_groups()[g]@[0] {
                    &&& (#[trigger] final(self).samples_of(g)).len() == old(self).samples_of(g).len()
                        + 1
                    &&& final(self).samples_of(g).drop_last() == old(self).samples_of(g)
                    &&& final(self).samples_of(g).last()@ == shape@.take(duration as int)
                } else {
                    final(self).samples_of(g) == old(self).samples_of(g)
                },
    {
        let ghost s0 = *self;
        assert(shape@.len() == shape.len());
        let d = duration as usize;
        if d < self.table.len() {
            let ghost entries = self.table@[d as int]@;
            let n_entries = self.table[d].len();
            let mut k: usize = 0;
            while k < n_entries
                invariant
                    k <= n_entries,
                    s0.wf(),
                    s0.records < u64::MAX,
                    shape@.len() == duration,
                    d == duration,
                    d < s0.table@.len(),
                    entries == s0.table@[d as int]@,
                    n_entries == entries.len(),
                    self.groups == s0.groups,
                    self.half_width == s0.half_width,
                    self.max_samples == s0.max_samples,
                    self.table == s0.table,
                    self.samples == s0.samples,
                    self.records == s0.records,
                    self.counts@.len() == s0.counts@.len(),
                    self.sums@.len() == s0.sums@.len(),
                    forall|g: int|
                        0 <= g < self.groups@.len() ==> (#[trigger] self.counts@[g])@.len()
                            == self.groups@[g]@.len(),
                    forall|g: int|
                        0 <= g < self.groups@.len() ==> (#[trigger] self.sums@[g])@.len()
                            == self.groups@[g]@.len(),
                    forall|g: int, i: int|
                        0 <= g < self.groups@.len() && 0 <= i < self.groups@[g]@.len() ==> {
                            let hit = entries.take(k as int).contains((g as usize, i as usize));
                            &&& #[trigger] self.counts@[g]@[i] == s0.counts@[g]@[i] + if hit {
                                1int
                            } else {
                                0int
                            }
                            &&& self.sums@[g]@[i]@ == if hit {
                                add_prefix(
                                    s0.sums@[g]@[i]@,
                                    shape@,
                                    min_int(self.groups@[g]@[i] as int, duration as int),
                                )
                            } else {
                                s0.sums@[g]@[i]@
                            }
                        },
                decreases n_entries - k,
            {
                let ghost sk = *self;
                let p = self.table[d][k];
                let gi = p.0;
                let ti = p.1;
                proof {
                    assert(entries.contains(p));
                    assert(valid_pair(self.groups@, p));
                    assert(!entries.take(k as int).contains(p)) by {
                        if entries.take(k as int).contains(p) {
                            let a = choose|a: int| 0 <= a < k && entries.take(k as int)[a] == p;
                            assert(pair_lt(entries[a], entries[k as int]));
                        }
                    }
                    assert(self.counts@[gi as int]@[ti as int] == s0.counts@[gi as int]@[ti as int]);
                    assert(s0.counts@[gi as int]@[ti as int] <= s0.records);
                }
                let target = self.groups[gi][ti];
                let c = self.counts[gi][ti];
                self.counts[gi][ti] = c + 1;
                let used: usize = if (target as usize) < d {
                    target as usize
                } else {
                    d
                };
                proof {
                    assert(target + s0.half_width < usize::MAX);
                    assert(self.sums@[gi as int]@[ti as int]@ == s0.sums@[gi as int]@[ti as int]@);
                    assert(s0.sums@[gi as int]@[ti as int]@.len() == target);
                }
                let ghost before = self.sums@[gi as int]@[ti as int]@;
                add_shape_prefix(&mut self.sums[gi][ti], shape, used);
                proof {
                    assert(self.sums@[gi as int]@[ti as int]@ =~= add_prefix(before, shape@, used as int));
                    assert forall|g: int, j: int|
                        0 <= g < self.groups@.len() && 0 <= j < self.groups@[g]@.len() implies {
                            let hit = entries.take(k + 1).contains((g as usize, j as usize));
                            &&& #[trigger] self.counts@[g]@[j] == s0.counts@[g]@[j] + if hit {
                                1int
                            } else {
                                0int
                            }
                            &&& self.sums@[g]@[j]@ == if hit {
                                add_prefix(
                                    s0.sums@[g]@[j]@,
                                    shape@,
                                    min_int(self.groups@[g]@[j] as int, duration as int),
                                )
                            } else {
                                s0.sums@[g]@[j]@
                            }
                        } by {
                        let q = (g as usize, j as usize);
                        lemma_take_next_contains(entries, k as int, q);
                        assert(entries[k as int] == p);
                        if g == gi as int && j == ti as int {
                            assert(self.counts@[g]@[j] == c + 1);
                            assert(sk.counts@[g]@[j] == s0.counts@[g]@[j]);
                        } else {
                            if g == gi as int {
                                assert(self.counts@[g]@[j] == sk.counts@[g]@[j]);
                                assert(self.sums@[g]@[j] == sk.sums@[g]@[j]);
                            } else {
                                assert(self.counts@[g] == sk.counts@[g]);
                                assert(self.sums@[g] == sk.sums@[g]);
                            }
                            assert(sk.counts@[g]@[j] == s0.counts@[g]@[j] + if entries.take(
                                k as int,
                            ).contains(q) {
                                1int
                            } else {
                                0int
                            });
                        }
                    }
                }
                k = k + 1;
            }
            proof {
                assert(entries.take(n_entries as int) == entries);
                assert forall|g: int, i: int|
                    0 <= g < s0.groups@.len() && 0 <= i < s0.groups@[g]@.len() implies (
                    entries.contains((g as usize, i as usize)) <==> in_window(
                        s0.groups@[g]@[i],
                        s0.half_width,
                        duration as int,
                    )) by {
                    assert(target_at(s0.groups@, (g as usize, i as usize)) == s0.groups@[g]@[i]);
                    assert(s0.table@[d as int]@.contains((g as usize, i as usize)) <==> (valid_pair(
                        s0.groups@,
                        (g as usize, i as usize),
                    ) && in_window(target_at(s0.groups@, (g as usize, i as usize)), s0.half_width, d as int)));
                }
            }
        } else {
            proof {
                assert forall|g: int, i: int|
                    0 <= g < s0.groups@.len() && 0 <= i < s0.groups@[g]@.len() implies !in_window(
                    s0.groups@[g]@[i],
                    s0.half_width,
                    duration as int,
                ) by {
                    assert(valid_pair(s0.groups@, (g as usize, i as usize)));
                    assert(target_at(s0.groups@, (g as usize, i as usize)) == s0.groups@[g]@[i]);
                }
            }
        }
        let ghost s1 = *self;
        let n_groups = self.groups.len();
        for gi in 0..n_groups
            invariant
                s0.wf(),
                shape@.len() == duration,
                n_groups == s0.groups@.len(),
                self.groups == s0.groups,
                self.half_width == s0.half_width,
                self.max_samples == s0.max_samples,
                self.table == s0.table,
                self.counts == s1.counts,
                self.sums == s1.sums,
                self.records == s0.records,
                self.samples@.len() == n_groups,
                forall|g: int|
                    0 <= g < n_groups ==> if g < gi && s0.samples@[g]@.len() < s0.max_samples
                        && duration == s0.groups@[g]@[0] {
                        &&& (#[trigger] self.samples@[g])@.len() == s0.samples@[g]@.len() + 1
                        &&& self.samples@[g]@.drop_last() == s0.samples@[g]@
                        &&& self.samples@[g]@.last()@ == shape@.take(duration as int)
                    } else {
                        self.samples@[g] == s0.samples@[g]
                    },
        {
            let first = self.groups[gi][0];
            if self.samples[gi].len() < self.max_samples && duration == first {
                let len = first as usize;
                let v = prefix_copy(shape, len);
                self.samples[gi].push(v);
            }
        }
        self.records = self.records + 1;
        proof {
            assert forall|g: int, i: int|
                0 <= g < self.groups@.len() && 0 <= i < self.groups@[g]@.len() implies (
                #[trigger] self.sums@[g]@[i])@.len() == self.groups@[g]@[i] && self.counts@[g]@[i]
                    <= self.records by {
                assert(self.counts@[g]@[i] == s1.counts@[g]@[i]);
                assert(self.sums@[g]@[i] == s1.sums@[g]@[i]);
                assert(s0.sums@[g]@[i]@.len() == s0.groups@[g]@[i]);
                assert(s0.counts@[g]@[i] <= s0.records);
            }
            assert forall|g: int|
                0 <= g < self.groups@.len() implies (#[trigger] self.samples@[g])@.len()
                    <= self.max_samples by {
                assert(s0.samples@[g]@.len() <= s0.max_samples);
            }
        }
    }

    /// Summed toppling counts per generation, per target.
    pub fn sums(&self) -> (r: &Vec<Vec<Vec<u64>>>)
        ensures
            forall|g: int, i: int|
                0 <= g < r@.len() && 0 <= i < r@[g]@.len() ==> (#[trigger] r@[g]@[i])@
                    == self.sums_of(g, i),
            self.wf() ==> r@.len() == self.target_groups().len() && forall|g: int|
                0 <= g < r@.len() ==> (#[trigger] r@[g])@.len() == self.target_groups()[g]@.len(),
    {
        &self.sums
    }

    /// Avalanche counts per target.
    pub fn counts(&self) -> (r: &Vec<Vec<u64>>)
        ensures
            forall|g: int, i: int|
                0 <= g < r@.len() && 0 <= i < r@[g]@.len() ==> #[trigger] r@[g]@[i]
                    == self.count_of(g, i),
            self.wf() ==> r@.len() == self.target_groups().len() && forall|g: int|
                0 <= g < r@.len() ==> (#[trigger] r@[g])@.len() == self.target_groups()[g]@.len(),
    {
        &self.counts
    }

    /// Raw samples per group.
    pub fn samples(&self) -> (r: &Vec<Vec<Vec<u64>>>)
        ensures
            forall|g: int| 0 <= g < r@.len() ==> (#[trigger] r@[g])@ == self.samples_of(g),
            self.wf() ==> r@.len() == self.target_groups().len(),
    {
        &self.samples
    }

    /// How many avalanches were recorded.
    pub fn num_recorded(&self) -> (r: u64)
        ensures
            r == self.recorded(),
    {
        self.records
    }
}

} // verus!
