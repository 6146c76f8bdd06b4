use vstd::prelude::*;

verus! {

// ---- Which inputs a measure is defined on ----

/// Whether a measure between two sample sets is defined: both hold samples
/// and there is at least one bin. Where it is not, the measure is 0.
pub fn measurable(a_len: usize, b_len: usize, bins: usize) -> (r: bool)
    ensures
        r == (a_len > 0 && b_len > 0 && bins > 0),
{
    a_len > 0 && b_len > 0 && bins > 0
}

/// The number of aligned sample pairs that mutual information reads from two
/// series: the shorter length, or `None` when either series is empty or
/// there are no bins (the measure is then 0).
pub fn paired_len(x_len: usize, y_len: usize, bins: usize) -> (r: Option<usize>)
    ensures
        r == (if x_len == 0 || y_len == 0 || bins == 0 {
            None
        } else {
            Some(if x_len <= y_len { x_len } else { y_len })
        }),
{
    if x_len == 0 || y_len == 0 || bins == 0 {
        None
    } else if x_len <= y_len {
        Some(x_len)
    } else {
        Some(y_len)
    }
}

// ---- One-dimensional histograms ----

/// The bin a sample falls in: an index past the last bin is clamped to it,
/// and a sample outside the binned range (`None`) falls in no bin.
pub open spec fn bin_of(idx: Option<usize>, bins: nat) -> Option<nat> {
    match idx {
        Some(i) => Some(if i < bins { i as nat } else { (bins - 1) as nat }),
        None => None,
    }
}

/// How many samples fall in bin `b`.
pub open spec fn count_in_bin(s: Seq<Option<usize>>, bins: nat, b: nat) -> nat
    decreases s.len(),
{
    if s.len() == 0 {
        0
    } else {
        count_in_bin(s.drop_last(), bins, b) + if bin_of(s.last(), bins) == Some(b) {
            1nat
        } else {
            0nat
        }
    }
}

/// How many samples fall in some bin.
pub open spec fn placed(s: Seq<Option<usize>>) -> nat
    decreases s.len(),
{
    if s.len() == 0 {
        0
    } else {
        placed(s.drop_last()) + if s.last() is Some {
            1nat
        } else {
            0nat
        }
    }
}

/// The sum of a sequence of counts.
pub open spec fn total(s: Seq<usize>) -> nat
    decreases s.len(),
{
    if s.len() == 0 {
        0
    } else {
        total(s.drop_last()) + s.last() as nat
    }
}

proof fn lemma_total_update(s: Seq<usize>, b: int, v: usize)
    requires
        0 <= b < s.len(),
    ensures
        total(s.update(b, v)) + s[b] == total(s) + v,
    decreases s.len(),
{
    if b < s.len() - 1 {
        lemma_total_update(s.drop_last(), b, v);
        assert(s.update(b, v).drop_last() =~= s.drop_last().update(b, v));
    } else {
        assert(s.update(b, v).drop_last() =~= s.drop_last());
    }
}

proof fn lemma_total_zeros(n: nat)
    ensures
        total(Seq::new(n, |i: int| 0usize)) == 0,
    decreases n,
{
    if n > 0 {
        lemma_total_zeros((n - 1) as nat);
        assert(Seq::new(n, |i: int| 0usize).drop_last() =~= Seq::new((n - 1) as nat, |i: int| 0usize));
    }
}

proof fn lemma_count_in_bin_bounded(s: Seq<Option<usize>>, bins: nat, b: nat)
    ensures
        count_in_bin(s, bins, b) <= s.len(),
    decreases s.len(),
{
    if s.len() > 0 {
        lemma_count_in_bin_bounded(s.drop_last(), bins, b);
    }
}

/// Counts the samples in each of `bins` bins, given the bin index of each
/// sample. An index past the last bin counts in the last bin; a sample
/// without an index counts nowhere. The counts add up to the number of
/// samples that have an index, so the normalized histogram has total mass 1.
pub fn bin_counts(indices: &[Option<usize>], bins: usize) -> (counts: Vec<usize>)
    requires
        bins > 0,
    ensures
        counts@.len() == bins,
        forall|b: int| 0 <= b < bins ==> #[trigger] counts@[b] == count_in_bin(indices@, bins as nat, b as nat),
        forall|b: int| 0 <= b < bins - 1 ==> #[trigger] counts@[b] == with_index(indices@, b as nat),
        counts@[bins - 1] == with_index_from(indices@, (bins - 1) as nat),
        total(counts@) == placed(indices@),
{
    let mut counts: Vec<usize> = Vec::new();
    let mut b: usize = 0;
    while b < bins
        invariant
            b <= bins,
            counts@ =~= Seq::new(b as nat, |i: int| 0usize),
        decreases bins - b,
    {
        counts.push(0);
        b = b + 1;
    }
    proof {
        lemma_total_zeros(bins as nat);
    }
    let mut j: usize = 0;
    while j < indices.len()
        invariant
            j <= indices@.len(),
            counts@.len() == bins,
            bins > 0,
            forall|k: int| 0 <= k < bins ==> #[trigger] counts@[k] == count_in_bin(indices@.take(j as int), bins as nat, k as nat),
            total(counts@) == placed(indices@.take(j as int)),
        decreases indices@.len() - j,
    {
        let ghost before = counts@;
        let ghost prefix = indices@.take(j as int);
        let ghost next = indices@.take(j + 1);
        assert(next.drop_last() =~= prefix);
        assert(next.last() == indices@[j as int]);
        match indices[j] {
            Some(i) => {
                let k: usize = if i < bins { i } else { bins - 1 };
                proof {
                    lemma_count_in_bin_bounded(prefix, bins as nat, k as nat);
                    lemma_total_update(before, k as int, (before[k as int] + 1) as usize);
                }
                let c: usize = counts[k];
                counts.set(k, c + 1);
            },
            None => {},
        }
        assert forall|k: int| 0 <= k < bins implies #[trigger] counts@[k] == count_in_bin(next, bins as nat, k as nat) by {}
        j = j + 1;
    }
    assert(indices@.take(indices@.len() as int) =~= indices@);
    proof {
        law_bin_counts_clamp_into_last(indices@, bins as nat);
        assert forall|b: int| 0 <= b < bins - 1 implies #[trigger] counts@[b] == with_index(indices@, b as nat) by {
            assert(count_in_bin(indices@, bins as nat, b as nat) == with_index(indices@, b as nat));
        }
    }
    counts
}

/// Whether some bin, up to the shorter of the two histograms, holds
/// samples of `p` but none of `q`.
pub open spec fn outside_support(p: Seq<usize>, q: Seq<usize>) -> bool {
    exists|b: int| 0 <= b < p.len() && b < q.len() && #[trigger] p[b] > 0 && q[b] == 0
}

/// Whether some bin holds samples of `p` but none of `q`: there the
/// divergence of `p` from `q` is unbounded, and it is reported clamped.
/// Bins are compared up to the shorter of the two histograms.
pub fn mass_outside_support(p: &[usize], q: &[usize]) -> (r: bool)
    ensures
        r == outside_support(p@, q@),
{
    let mut b: usize = 0;
    while b < p.len() && b < q.len()
        invariant
            b <= p@.len(),
            b <= q@.len(),
            forall|k: int| 0 <= k < b ==> !(#[trigger] p@[k] > 0 && q@[k] == 0),
        decreases p@.len() - b,
    {
        if p[b] > 0 && q[b] == 0 {
            return true;
        }
        b = b + 1;
    }
    false
}


/// Law: a histogram never has mass outside its own support, so the
/// divergence of a distribution from itself is never reported clamped.
pub proof fn law_no_mass_outside_own_support(p: Seq<usize>)
    ensures
        !outside_support(p, p),
{
}

/// Law: any bin, up to the last one both histograms have, in which `p`
/// holds samples and `q` none makes the divergence clamped.
pub proof fn law_uncovered_bin_clamps(p: Seq<usize>, q: Seq<usize>, b: int)
    requires
        0 <= b < p.len(),
        b < q.len(),
        p[b] > 0,
        q[b] == 0,
    ensures
        outside_support(p, q),
{
    assert(p[b] > 0);
}

/// Law: the divergence is clamped only where some bin that both
/// histograms have holds samples of `p` and none of `q`.
pub proof fn law_clamp_has_uncovered_bin(p: Seq<usize>, q: Seq<usize>)
    requires
        outside_support(p, q),
    ensures
        exists|b: int| 0 <= b < p.len() && b < q.len() && p[b] != 0 && #[trigger] q[b] == 0,
{
    let b: int = choose|b: int| 0 <= b < p.len() && b < q.len() && #[trigger] p[b] > 0 && q[b] == 0;
    assert(q[b] == 0);
}

/// The number of samples whose bin index is exactly `i`.
pub open spec fn with_index(s: Seq<Option<usize>>, i: nat) -> nat
    decreases s.len(),
{
    if s.len() == 0 {
        0
    } else {
        with_index(s.drop_last(), i) + if s.last() == Some(i as usize) && i <= usize::MAX {
            1nat
        } else {
            0nat
        }
    }
}

/// The number of samples whose bin index is at least `lo`.
pub open spec fn with_index_from(s: Seq<Option<usize>>, lo: nat) -> nat
    decreases s.len(),
{
    if s.len() == 0 {
        0
    } else {
        with_index_from(s.drop_last(), lo) + if s.last() matches Some(i) && i >= lo {
            1nat
        } else {
            0nat
        }
    }
}

/// Law: every bin but the last counts exactly the samples with that index;
/// the last bin counts every sample whose index is the last bin's or past
/// it. An index past the last bin adds to no other bin.
pub proof fn law_bin_counts_clamp_into_last(s: Seq<Option<usize>>, bins: nat)
    requires
        0 < bins,
    ensures
        forall|b: nat| b + 1 < bins ==> #[trigger] count_in_bin(s, bins, b) == with_index(s, b),
        count_in_bin(s, bins, (bins - 1) as nat) == with_index_from(s, (bins - 1) as nat),
    decreases s.len(),
{
    if s.len() > 0 {
        law_bin_counts_clamp_into_last(s.drop_last(), bins);
        assert forall|b: nat| b + 1 < bins implies #[trigger] count_in_bin(s, bins, b) == with_index(s, b) by {
            assert(count_in_bin(s.drop_last(), bins, b) == with_index(s.drop_last(), b));
        }
    }
}

// ---- Joint histograms ----

/// A cell of a joint histogram: one bin index per dimension (a
/// two-dimensional cell has `z == 0`).
#[derive(Debug, Clone, Copy, PartialEq, Eq, Structural)]
pub struct Cell {
    pub x: usize,
    pub y: usize,
    pub z: usize,
}

/// The order of cells: by `x`, then `y`, then `z`.
pub open spec fn cell_lt(a: Cell, b: Cell) -> bool {
    a.x < b.x || (a.x == b.x && (a.y < b.y || (a.y == b.y && a.z < b.z)))
}

/// Whether cell `a` comes before cell `b`.
fn cell_less(a: Cell, b: Cell) -> (r: bool)
    ensures
        r == cell_lt(a, b),
{
    a.x < b.x || (a.x == b.x && (a.y < b.y || (a.y == b.y && a.z < b.z)))
}

/// Adds one sample in cell `c` to a list of (cell, count) entries ordered
/// by cell: the count of the entry for `c` grows by one, or, where there is
/// none, an entry `(c, 1)` goes in its place in the order.
pub open spec fn bump(t: Seq<(Cell, nat)>, c: Cell) -> Seq<(Cell, nat)>
    decreases t.len(),
{
    if t.len() == 0 {
        seq![(c, 1nat)]
    } else if t[0].0 == c {
        seq![(c, t[0].1 + 1)] + t.drop_first()
    } else if cell_lt(c, t[0].0) {
        seq![(c, 1nat)] + t
    } else {
        seq![t[0]] + bump(t.drop_first(), c)
    }
}

/// The sparse joint histogram of a sequence of cells: each occupied cell
/// once, in cell order, with its number of samples.
pub open spec fn tally(s: Seq<Cell>) -> Seq<(Cell, nat)>
    decreases s.len(),
{
    if s.len() == 0 {
        Seq::empty()
    } else {
        bump(tally(s.drop_last()), s.last())
    }
}

/// The number of samples in cell `c`.
pub open spec fn occurrences(s: Seq<Cell>, c: Cell) -> nat
    decreases s.len(),
{
    if s.len() == 0 {
        0
    } else {
        occurrences(s.drop_last(), c) + if s.last() == c {
            1nat
        } else {
            0nat
        }
    }
}

/// The sum of the counts of a sparse histogram.
pub open spec fn tally_total(t: Seq<(Cell, nat)>) -> nat
    decreases t.len(),
{
    if t.len() == 0 {
        0
    } else {
        t[0].1 + tally_total(t.drop_first())
    }
}

/// Whether the entries of a sparse histogram are in strictly increasing
/// cell order (so each cell appears at most once).
pub open spec fn ordered(t: Seq<(Cell, nat)>) -> bool {
    forall|i: int, j: int| 0 <= i < j < t.len() ==> cell_lt(#[trigger] t[i].0, #[trigger] t[j].0)
}

/// Whether an exec list of entries is the spec histogram `t`.
pub open spec fn entries_match(e: Seq<(Cell, usize)>, t: Seq<(Cell, nat)>) -> bool {
    &&& e.len() == t.len()
    &&& forall|i: int| 0 <= i < e.len() ==> (#[trigger] e[i]).0 == t[i].0 && e[i].1 as nat == t[i].1
}

/// The place of cell `c` in entries: the number of leading entries whose
/// cells come before `c`.
pub open spec fn insert_pos(t: Seq<(Cell, nat)>, c: Cell) -> int
    decreases t.len(),
{
    if t.len() == 0 {
        0
    } else if cell_lt(t[0].0, c) {
        1 + insert_pos(t.drop_first(), c)
    } else {
        0
    }
}

proof fn lemma_insert_pos(t: Seq<(Cell, nat)>, c: Cell)
    ensures
        0 <= insert_pos(t, c) <= t.len(),
        forall|k: int| 0 <= k < insert_pos(t, c) ==> cell_lt((#[trigger] t[k]).0, c),
        insert_pos(t, c) < t.len() ==> !cell_lt(t[insert_pos(t, c)].0, c),
    decreases t.len(),
{
    if t.len() > 0 && cell_lt(t[0].0, c) {
        let r = t.drop_first();
        lemma_insert_pos(r, c);
        assert forall|k: int| 0 <= k < insert_pos(t, c) implies cell_lt((#[trigger] t[k]).0, c) by {
            if k > 0 {
                assert(t[k] == r[k - 1]);
            }
        }
        if insert_pos(t, c) < t.len() {
            assert(t[insert_pos(t, c)] == r[insert_pos(r, c)]);
        }
    }
}

/// Adding a sample at place `i`: where the entry there is for `c`, its
/// count grows; otherwise `(c, 1)` is inserted there.
proof fn lemma_bump_at(t: Seq<(Cell, nat)>, c: Cell, i: int)
    requires
        0 <= i <= t.len(),
        forall|k: int| 0 <= k < i ==> cell_lt((#[trigger] t[k]).0, c),
        i < t.len() ==> !cell_lt(t[i].0, c),
    ensures
        i < t.len() && t[i].0 == c ==> bump(t, c) == t.update(i, (c, t[i].1 + 1)),
        !(i < t.len() && t[i].0 == c) ==> bump(t, c) == t.insert(i, (c, 1nat)),
    decreases t.len(),
{
    if i == 0 {
        if t.len() == 0 {
            assert(bump(t, c) =~= t.insert(i, (c, 1nat)));
        } else if t[0].0 == c {
            assert(bump(t, c) =~= t.update(i, (c, t[i].1 + 1)));
        } else {
            assert(cell_lt(c, t[0].0));
            assert(bump(t, c) =~= t.insert(i, (c, 1nat)));
        }
    } else {
        let r = t.drop_first();
        assert(cell_lt(t[0].0, c));
        assert forall|k: int| 0 <= k < i - 1 implies cell_lt((#[trigger] r[k]).0, c) by {
            assert(r[k] == t[k + 1]);
        }
        lemma_bump_at(r, c, i - 1);
        if i < t.len() && t[i].0 == c {
            assert(bump(t, c) =~= t.update(i, (c, t[i].1 + 1)));
        } else {
            assert(bump(t, c) =~= t.insert(i, (c, 1nat)));
        }
    }
}

/// Counts samples per occupied cell, listing the cells in cell order.
pub fn tally_cells(cells: &[Cell]) -> (entries: Vec<(Cell, usize)>)
    ensures
        is_histogram(entries@, cells@),
        entries_total(entries@) == cells@.len(),
        entries_match(entries@, tally(cells@)),
{
    let mut entries: Vec<(Cell, usize)> = Vec::new();
    let mut j: usize = 0;
    while j < cells.len()
        invariant
            j <= cells@.len(),
            entries_match(entries@, tally(cells@.take(j as int))),
            forall|i: int| 0 <= i < entries@.len() ==> (#[trigger] entries@[i]).1 <= j,
        decreases cells@.len() - j,
    {
        let c = cells[j];
        let ghost t = tally(cells@.take(j as int));
        assert(cells@.take(j + 1).drop_last() =~= cells@.take(j as int));
        assert(cells@.take(j + 1).last() == c);
        let mut i: usize = 0;
        while i < entries.len() && cell_less(entries[i].0, c)
            invariant
                i <= entries@.len(),
                entries_match(entries@, t),
                forall|k: int| 0 <= k < i ==> cell_lt((#[trigger] t[k]).0, c),
            decreases entries@.len() - i,
        {
            i = i + 1;
        }
        proof {
            lemma_bump_at(t, c, i as int);
        }
        if i < entries.len() && entries[i].0 == c {
            let n: usize = entries[i].1;
            entries.set(i, (c, n + 1));
            assert(entries_match(entries@, tally(cells@.take(j + 1))));
        } else {
            entries.insert(i, (c, 1));
            assert(entries_match(entries@, tally(cells@.take(j + 1))));
        }
        j = j + 1;
    }
    assert(cells@.take(cells@.len() as int) =~= cells@);
    proof {
        law_tally_counts(cells@);
        law_tally_total(cells@);
        lemma_matching_entries(entries@, cells@);
    }
    entries
}

proof fn lemma_tally_total_insert(t: Seq<(Cell, nat)>, i: int, e: (Cell, nat))
    requires
        0 <= i <= t.len(),
    ensures
        tally_total(t.insert(i, e)) == tally_total(t) + e.1,
    decreases t.len(),
{
    if i == 0 {
        assert(t.insert(i, e).drop_first() =~= t);
    } else {
        lemma_tally_total_insert(t.drop_first(), i - 1, e);
        assert(t.insert(i, e).drop_first() =~= t.drop_first().insert(i - 1, e));
    }
}

proof fn lemma_tally_total_update(t: Seq<(Cell, nat)>, i: int, e: (Cell, nat))
    requires
        0 <= i < t.len(),
    ensures
        tally_total(t.update(i, e)) + t[i].1 == tally_total(t) + e.1,
    decreases t.len(),
{
    if i > 0 {
        lemma_tally_total_update(t.drop_first(), i - 1, e);
        assert(t.update(i, e).drop_first() =~= t.drop_first().update(i - 1, e));
    } else {
        assert(t.update(i, e).drop_first() =~= t.drop_first());
    }
}

proof fn lemma_bump_total(t: Seq<(Cell, nat)>, c: Cell)
    ensures
        tally_total(bump(t, c)) == tally_total(t) + 1,
{
    lemma_insert_pos(t, c);
    let i = insert_pos(t, c);
    lemma_bump_at(t, c, i);
    if i < t.len() && t[i].0 == c {
        lemma_tally_total_update(t, i, (c, t[i].1 + 1));
    } else {
        lemma_tally_total_insert(t, i, (c, 1nat));
    }
}

/// Law: a joint histogram accounts for every sample exactly once: its
/// counts add up to the number of samples (the probabilities derived from
/// it sum to 1).
pub proof fn law_tally_total(s: Seq<Cell>)
    ensures
        tally_total(tally(s)) == s.len(),
    decreases s.len(),
{
    if s.len() > 0 {
        law_tally_total(s.drop_last());
        lemma_bump_total(tally(s.drop_last()), s.last());
    }
}

/// Law: a joint histogram lists its cells in strictly increasing order (so
/// each at most once), each occupied cell with the number of samples in it,
/// and no empty cell.
pub proof fn law_tally_counts(s: Seq<Cell>)
    ensures
        ordered(tally(s)),
        forall|i: int| 0 <= i < tally(s).len() ==> (#[trigger] tally(s)[i]).1 == occurrences(s, tally(s)[i].0),
        forall|c: Cell| occurrences(s, c) > 0 <==> exists|i: int| 0 <= i < tally(s).len() && (#[trigger] tally(s)[i]).0 == c,
    decreases s.len(),
{
    if s.len() > 0 {
        let p = s.drop_last();
        let c = s.last();
        let t = tally(p);
        law_tally_counts(p);
        lemma_insert_pos(t, c);
        let i = insert_pos(t, c);
        lemma_bump_at(t, c, i);
        let u = tally(s);
        assert forall|d: Cell| #[trigger] occurrences(s, d) == occurrences(p, d) + (if d == c { 1nat } else { 0nat }) by {}
        if i < t.len() && t[i].0 == c {
            assert(u == t.update(i, (c, t[i].1 + 1)));
            assert forall|a: int, b: int| 0 <= a < b < u.len() implies cell_lt(#[trigger] u[a].0, #[trigger] u[b].0) by {
                assert(u[a].0 == t[a].0 && u[b].0 == t[b].0);
            }
            assert forall|k: int| 0 <= k < u.len() implies (#[trigger] u[k]).1 == occurrences(s, u[k].0) by {
                if k != i {
                    assert(u[k] == t[k]);
                    if t[k].0 == c {
                        if k < i {
                            assert(cell_lt(t[k].0, t[i].0));
                        } else {
                            assert(cell_lt(t[i].0, t[k].0));
                        }
                    }
                }
            }
            assert forall|d: Cell| occurrences(s, d) > 0 <==> exists|k: int| 0 <= k < u.len() && (#[trigger] u[k]).0 == d by {
                if occurrences(s, d) > 0 {
                    if d == c {
                        assert(u[i].0 == d);
                    } else {
                        assert(occurrences(p, d) > 0);
                        let k: int = choose|k: int| 0 <= k < t.len() && (#[trigger] t[k]).0 == d;
                        assert(u[k].0 == d);
                    }
                }
                if exists|k: int| 0 <= k < u.len() && (#[trigger] u[k]).0 == d {
                    let k: int = choose|k: int| 0 <= k < u.len() && (#[trigger] u[k]).0 == d;
                    if k != i {
                        assert(t[k].0 == d);
                    }
                }
            }
        } else {
            assert(u == t.insert(i, (c, 1nat)));
            // `c` is in no entry of `t`: entries before `i` come before it,
            // entries from `i` on come after it.
            assert forall|k: int| 0 <= k < t.len() implies (#[trigger] t[k]).0 != c by {
                if k >= i {
                    assert(cell_lt(c, t[i].0));
                    if k > i {
                        assert(cell_lt(t[i].0, t[k].0));
                    }
                }
            }
            assert(occurrences(p, c) == 0);
            assert forall|a: int, b: int| 0 <= a < b < u.len() implies cell_lt(#[trigger] u[a].0, #[trigger] u[b].0) by {
                if i < t.len() {
                    assert(cell_lt(c, t[i].0));
                }
                if a < i && b == i {
                } else if a < i && b > i {
                    assert(u[b] == t[b - 1]);
                } else if a == i && b > i {
                    assert(u[b] == t[b - 1]);
                    if b - 1 > i {
                        assert(cell_lt(t[i].0, t[b - 1].0));
                    }
                } else if a > i {
                    assert(u[a] == t[a - 1] && u[b] == t[b - 1]);
                }
            }
            assert forall|k: int| 0 <= k < u.len() implies (#[trigger] u[k]).1 == occurrences(s, u[k].0) by {
                if k < i {
                    assert(u[k] == t[k]);
                } else if k > i {
                    assert(u[k] == t[k - 1]);
                }
            }
            assert forall|d: Cell| occurrences(s, d) > 0 <==> exists|k: int| 0 <= k < u.len() && (#[trigger] u[k]).0 == d by {
                if occurrences(s, d) > 0 {
                    if d == c {
                        assert(u[i].0 == d);
                    } else {
                        let k: int = choose|k: int| 0 <= k < t.len() && (#[trigger] t[k]).0 == d;
                        if k < i {
                            assert(u[k].0 == d);
                        } else {
                            assert(u[k + 1].0 == d);
                        }
                    }
                }
                if exists|k: int| 0 <= k < u.len() && (#[trigger] u[k]).0 == d {
                    let k: int = choose|k: int| 0 <= k < u.len() && (#[trigger] u[k]).0 == d;
                    if k < i {
                        assert(t[k].0 == d);
                    } else if k > i {
                        assert(t[k - 1].0 == d);
                    }
                }
            }
        }
    }
}

/// Whether `e` is the joint histogram of the samples `s`: its cells in
/// strictly increasing order, each with the number of samples in it, and
/// exactly the occupied cells listed.
pub open spec fn is_histogram(e: Seq<(Cell, usize)>, s: Seq<Cell>) -> bool {
    &&& forall|i: int, j: int| 0 <= i < j < e.len() ==> cell_lt(#[trigger] e[i].0, #[trigger] e[j].0)
    &&& forall|i: int| 0 <= i < e.len() ==> (#[trigger] e[i]).1 as nat == occurrences(s, e[i].0)
    &&& forall|c: Cell| occurrences(s, c) > 0 <==> exists|i: int| 0 <= i < e.len() && (#[trigger] e[i]).0 == c
}

/// The sum of the counts of a list of entries.
pub open spec fn entries_total(e: Seq<(Cell, usize)>) -> nat
    decreases e.len(),
{
    if e.len() == 0 {
        0
    } else {
        e[0].1 as nat + entries_total(e.drop_first())
    }
}

proof fn lemma_entries_total(e: Seq<(Cell, usize)>, t: Seq<(Cell, nat)>)
    requires
        entries_match(e, t),
    ensures
        entries_total(e) == tally_total(t),
    decreases e.len(),
{
    if e.len() > 0 {
        assert(e[0].1 as nat == t[0].1);
        assert forall|i: int| 0 <= i < e.drop_first().len() implies (#[trigger] e.drop_first()[i]).0
            == t.drop_first()[i].0 && e.drop_first()[i].1 as nat == t.drop_first()[i].1 by {
            assert(e.drop_first()[i] == e[i + 1]);
        }
        lemma_entries_total(e.drop_first(), t.drop_first());
    }
}

proof fn lemma_matching_entries(e: Seq<(Cell, usize)>, s: Seq<Cell>)
    requires
        entries_match(e, tally(s)),
        ordered(tally(s)),
        forall|i: int| 0 <= i < tally(s).len() ==> (#[trigger] tally(s)[i]).1 == occurrences(s, tally(s)[i].0),
        forall|c: Cell| occurrences(s, c) > 0 <==> exists|i: int| 0 <= i < tally(s).len() && (#[trigger] tally(s)[i]).0 == c,
        tally_total(tally(s)) == s.len(),
    ensures
        is_histogram(e, s),
        entries_total(e) == s.len(),
{
    let t = tally(s);
    assert forall|i: int, j: int| 0 <= i < j < e.len() implies cell_lt(#[trigger] e[i].0, #[trigger] e[j].0) by {
        assert(e[i].0 == t[i].0 && e[j].0 == t[j].0);
    }
    assert forall|i: int| 0 <= i < e.len() implies (#[trigger] e[i]).1 as nat == occurrences(s, e[i].0) by {
        assert(e[i].0 == t[i].0);
    }
    assert forall|c: Cell| occurrences(s, c) > 0 <==> exists|i: int| 0 <= i < e.len() && (#[trigger] e[i]).0 == c by {
        if occurrences(s, c) > 0 {
            let i: int = choose|i: int| 0 <= i < t.len() && (#[trigger] t[i]).0 == c;
            assert(e[i].0 == c);
        }
        if exists|i: int| 0 <= i < e.len() && (#[trigger] e[i]).0 == c {
            let i: int = choose|i: int| 0 <= i < e.len() && (#[trigger] e[i]).0 == c;
            assert(t[i].0 == c);
        }
    }
    lemma_entries_total(e, t);
}

/// A cell with its first two coordinates exchanged.
pub open spec fn transpose(c: Cell) -> Cell {
    Cell { x: c.y, y: c.x, z: c.z }
}

proof fn lemma_occurrences_transpose(s: Seq<Cell>, c: Cell)
    ensures
        occurrences(s.map_values(|d: Cell| transpose(d)), transpose(c)) == occurrences(s, c),
    decreases s.len(),
{
    if s.len() > 0 {
        assert(s.map_values(|d: Cell| transpose(d)).drop_last() =~= s.drop_last().map_values(|d: Cell| transpose(d)));
        lemma_occurrences_transpose(s.drop_last(), c);
    }
}

/// The bin of a raw (floored) coordinate: below 0 is bin 0, past the last
/// bin is the last bin.
pub open spec fn clamped(raw: int, bins: nat) -> nat {
    if raw < 0 {
        0
    } else if raw >= bins {
        (bins - 1) as nat
    } else {
        raw as nat
    }
}

/// Clamps a raw (floored) coordinate into `0..bins`.
pub fn clamp_bin(raw: isize, bins: usize) -> (b: usize)
    requires
        0 < bins <= isize::MAX,
    ensures
        b == clamped(raw as int, bins as nat),
        b < bins,
{
    if raw < 0 {
        0
    } else if raw as usize >= bins {
        bins - 1
    } else {
        raw as usize
    }
}

/// The shorter of two lengths.
pub open spec fn shorter(a: nat, b: nat) -> nat {
    if a <= b {
        a
    } else {
        b
    }
}

/// The cells of the pairs `(xs[i], ys[i])` for `i` below the shorter length.
pub open spec fn cells_2d(xs: Seq<isize>, ys: Seq<isize>, bins: nat) -> Seq<Cell> {
    Seq::new(
        shorter(xs.len(), ys.len()),
        |i: int| Cell { x: clamped(xs[i] as int, bins) as usize, y: clamped(ys[i] as int, bins) as usize, z: 0 },
    )
}

/// The cells of the triples `(xs[i], ys[i], zs[i])` for `i` below the
/// shortest length.
pub open spec fn cells_3d(xs: Seq<isize>, ys: Seq<isize>, zs: Seq<isize>, bins: nat) -> Seq<Cell> {
    Seq::new(
        shorter(shorter(xs.len(), ys.len()), zs.len()),
        |i: int|
            Cell {
                x: clamped(xs[i] as int, bins) as usize,
                y: clamped(ys[i] as int, bins) as usize,
                z: clamped(zs[i] as int, bins) as usize,
            },
    )
}

/// The sparse two-dimensional histogram of the pairs `(xs[i], ys[i])`,
/// given the raw (floored) bin coordinates of each sample. Each coordinate
/// is clamped into `0..bins`; only the pairs up to the shorter series count.
/// Without samples or without bins the histogram is empty.
pub fn joint_counts_2d(xs: &[isize], ys: &[isize], bins: usize) -> (entries: Vec<(Cell, usize)>)
    requires
        bins <= isize::MAX,
    ensures
        xs@.len() == 0 || ys@.len() == 0 || bins == 0 ==> entries@.len() == 0,
        xs@.len() > 0 && ys@.len() > 0 && bins > 0 ==> is_histogram(entries@, cells_2d(xs@, ys@, bins as nat)),
        forall|k: int| 0 <= k < entries@.len() ==> (#[trigger] entries@[k]).0.x < bins && entries@[k].0.y < bins
            && entries@[k].0.z == 0,
        xs@.len() > 0 && ys@.len() > 0 && bins > 0 ==> entries_total(entries@) == shorter(xs@.len(), ys@.len()),
        xs@.len() > 0 && ys@.len() > 0 && bins > 0 ==> entries_match(entries@, tally(cells_2d(xs@, ys@, bins as nat))),
{
    if xs.len() == 0 || ys.len() == 0 || bins == 0 {
        return Vec::new();
    }
    let n: usize = if xs.len() <= ys.len() { xs.len() } else { ys.len() };
    let mut cells: Vec<Cell> = Vec::new();
    let mut i: usize = 0;
    while i < n
        invariant
            i <= n,
            n == shorter(xs@.len(), ys@.len()),
            0 < bins <= isize::MAX,
            cells@ =~= cells_2d(xs@, ys@, bins as nat).take(i as int),
        decreases n - i,
    {
        cells.push(Cell { x: clamp_bin(xs[i], bins), y: clamp_bin(ys[i], bins), z: 0 });
        i = i + 1;
    }
    assert(cells@ =~= cells_2d(xs@, ys@, bins as nat));
    let entries = tally_cells(&cells);
    proof {
        law_cells_2d_in_grid(xs@, ys@, bins as nat);
        law_histogram_cells_are_sample_cells(entries@, cells@);
        assert forall|k: int| 0 <= k < entries@.len() implies (#[trigger] entries@[k]).0.x < bins
            && entries@[k].0.y < bins && entries@[k].0.z == 0 by {
            let j: int = choose|j: int| 0 <= j < cells@.len() && cells@[j] == entries@[k].0;
            assert(grid_bin(xs@[j] as int, cells_2d(xs@, ys@, bins as nat)[j].x as nat, bins as nat));
        }
    }
    entries
}

/// The sparse three-dimensional histogram of the triples
/// `(xs[i], ys[i], zs[i])`, given the raw (floored) bin coordinates of each
/// sample. Each coordinate is clamped into `0..bins`; only the triples up to
/// the shortest series count. Without samples or without bins the histogram
/// is empty.
pub fn joint_counts_3d(xs: &[isize], ys: &[isize], zs: &[isize], bins: usize) -> (entries: Vec<(Cell, usize)>)
    requires
        bins <= isize::MAX,
    ensures
        xs@.len() == 0 || ys@.len() == 0 || zs@.len() == 0 || bins == 0 ==> entries@.len() == 0,
        xs@.len() > 0 && ys@.len() > 0 && zs@.len() > 0 && bins > 0 ==> is_histogram(
            entries@,
            cells_3d(xs@, ys@, zs@, bins as nat),
        ),
        forall|k: int| 0 <= k < entries@.len() ==> (#[trigger] entries@[k]).0.x < bins && entries@[k].0.y < bins
            && entries@[k].0.z < bins,
        xs@.len() > 0 && ys@.len() > 0 && zs@.len() > 0 && bins > 0 ==> entries_total(entries@)
            == shorter(shorter(xs@.len(), ys@.len()), zs@.len()),
        xs@.len() > 0 && ys@.len() > 0 && zs@.len() > 0 && bins > 0 ==> entries_match(
            entries@,
            tally(cells_3d(xs@, ys@, zs@, bins as nat)),
        ),
{
    if xs.len() == 0 || ys.len() == 0 || zs.len() == 0 || bins == 0 {
        return Vec::new();
    }
    let m: usize = if xs.len() <= ys.len() { xs.len() } else { ys.len() };
    let n: usize = if m <= zs.len() { m } else { zs.len() };
    let mut cells: Vec<Cell> = Vec::new();
    let mut i: usize = 0;
    while i < n
        invariant
            i <= n,
            n == shorter(shorter(xs@.len(), ys@.len()), zs@.len()),
            0 < bins <= isize::MAX,
            cells@ =~= cells_3d(xs@, ys@, zs@, bins as nat).take(i as int),
        decreases n - i,
    {
        cells.push(Cell { x: clamp_bin(xs[i], bins), y: clamp_bin(ys[i], bins), z: clamp_bin(zs[i], bins) });
        i = i + 1;
    }
    assert(cells@ =~= cells_3d(xs@, ys@, zs@, bins as nat));
    let entries = tally_cells(&cells);
    proof {
        law_cells_3d_in_grid(xs@, ys@, zs@, bins as nat);
        law_histogram_cells_are_sample_cells(entries@, cells@);
        assert forall|k: int| 0 <= k < entries@.len() implies (#[trigger] entries@[k]).0.x < bins
            && entries@[k].0.y < bins && entries@[k].0.z < bins by {
            let j: int = choose|j: int| 0 <= j < cells@.len() && cells@[j] == entries@[k].0;
            assert(grid_bin(xs@[j] as int, cells_3d(xs@, ys@, zs@, bins as nat)[j].x as nat, bins as nat));
        }
    }
    entries
}


/// The bin of one raw coordinate, as a grid of `bins` bins places it.
pub open spec fn grid_bin(raw: int, b: nat, bins: nat) -> bool {
    &&& b < bins
    &&& 0 <= raw < bins ==> b == raw
    &&& raw < 0 ==> b == 0
    &&& raw >= bins ==> b == bins - 1
}

/// Law: each two-dimensional sample cell lies inside the grid: a raw
/// coordinate below 0 lands in bin 0, one at or past `bins` in the last
/// bin, and any other in its own bin. There is one cell per aligned pair.
pub proof fn law_cells_2d_in_grid(xs: Seq<isize>, ys: Seq<isize>, bins: nat)
    requires
        bins > 0,
    ensures
        cells_2d(xs, ys, bins).len() == if xs.len() <= ys.len() { xs.len() } else { ys.len() },
        forall|i: int| 0 <= i < cells_2d(xs, ys, bins).len() ==> {
            &&& grid_bin(xs[i] as int, (#[trigger] cells_2d(xs, ys, bins)[i]).x as nat, bins)
            &&& grid_bin(ys[i] as int, cells_2d(xs, ys, bins)[i].y as nat, bins)
            &&& cells_2d(xs, ys, bins)[i].z == 0
        },
{
}

/// Law: each three-dimensional sample cell lies inside the grid, each
/// coordinate placed as in two dimensions; one cell per aligned triple.
pub proof fn law_cells_3d_in_grid(xs: Seq<isize>, ys: Seq<isize>, zs: Seq<isize>, bins: nat)
    requires
        bins > 0,
    ensures
        cells_3d(xs, ys, zs, bins).len() == shorter(shorter(xs.len(), ys.len()), zs.len()),
        forall|i: int| 0 <= i < cells_3d(xs, ys, zs, bins).len() ==> {
            &&& grid_bin(xs[i] as int, (#[trigger] cells_3d(xs, ys, zs, bins)[i]).x as nat, bins)
            &&& grid_bin(ys[i] as int, cells_3d(xs, ys, zs, bins)[i].y as nat, bins)
            &&& grid_bin(zs[i] as int, cells_3d(xs, ys, zs, bins)[i].z as nat, bins)
        },
{
}

proof fn lemma_occupied_cell_occurs(s: Seq<Cell>, c: Cell)
    requires
        occurrences(s, c) > 0,
    ensures
        s.contains(c),
    decreases s.len(),
{
    if s.last() != c {
        lemma_occupied_cell_occurs(s.drop_last(), c);
        let j: int = choose|j: int| 0 <= j < s.len() - 1 && s.drop_last()[j] == c;
        assert(s[j] == c);
    } else {
        assert(s[s.len() - 1] == c);
    }
}

/// Law: every cell a histogram lists is the cell of some sample.
pub proof fn law_histogram_cells_are_sample_cells(e: Seq<(Cell, usize)>, s: Seq<Cell>)
    requires
        is_histogram(e, s),
    ensures
        forall|k: int| 0 <= k < e.len() ==> s.contains((#[trigger] e[k]).0),
{
    assert forall|k: int| 0 <= k < e.len() implies s.contains((#[trigger] e[k]).0) by {
        assert(e[k].0 == e[k].0);
        assert(occurrences(s, e[k].0) > 0);
        lemma_occupied_cell_occurs(s, e[k].0);
    }
}

/// Whether every entry `(c, n)` of `t` has an entry `(transpose(c), n)` in `u`.
pub open spec fn transposed_entries(t: Seq<(Cell, nat)>, u: Seq<(Cell, nat)>) -> bool {
    forall|i: int| 0 <= i < t.len() ==> u.contains((transpose((#[trigger] t[i]).0), t[i].1))
}

/// Law: each cell of the joint histogram of `(ys, xs)` holds the samples of
/// the transposed cell of the joint histogram of `(xs, ys)`, and the two
/// histograms hold the same entries up to transposition; so mutual
/// information, which reads the joint counts, does not depend on the order
/// of its two arguments.
pub proof fn law_joint_counts_symmetric(xs: Seq<isize>, ys: Seq<isize>, bins: nat)
    ensures
        forall|c: Cell| #[trigger] occurrences(cells_2d(ys, xs, bins), transpose(c)) == occurrences(cells_2d(xs, ys, bins), c),
        transposed_entries(tally(cells_2d(xs, ys, bins)), tally(cells_2d(ys, xs, bins))),
        transposed_entries(tally(cells_2d(ys, xs, bins)), tally(cells_2d(xs, ys, bins))),
{
    let a = cells_2d(xs, ys, bins);
    let b = cells_2d(ys, xs, bins);
    assert(b =~= a.map_values(|c: Cell| transpose(c)));
    assert forall|c: Cell| #[trigger] occurrences(b, transpose(c)) == occurrences(a, c) by {
        lemma_occurrences_transpose(a, c);
    }
    law_tally_counts(a);
    law_tally_counts(b);
    let ta = tally(a);
    let tb = tally(b);
    assert forall|i: int| 0 <= i < ta.len() implies tb.contains((transpose((#[trigger] ta[i]).0), ta[i].1)) by {
        let c = ta[i].0;
        assert(occurrences(a, c) > 0);
        assert(occurrences(b, transpose(c)) > 0);
        let j: int = choose|j: int| 0 <= j < tb.len() && (#[trigger] tb[j]).0 == transpose(c);
        assert(tb[j] == (transpose(c), ta[i].1));
    }
    assert forall|j: int| 0 <= j < tb.len() implies ta.contains((transpose((#[trigger] tb[j]).0), tb[j].1)) by {
        let d = tb[j].0;
        assert(transpose(transpose(d)) == d);
        assert(occurrences(b, transpose(transpose(d))) == occurrences(a, transpose(d)));
        assert(occurrences(a, transpose(d)) > 0);
        let i: int = choose|i: int| 0 <= i < ta.len() && (#[trigger] ta[i]).0 == transpose(d);
        assert(ta[i] == (transpose(d), tb[j].1));
    }
    assert(transposed_entries(ta, tb));
    assert(transposed_entries(tb, ta));
}

// ---- Time-series alignment for transfer entropy ----

/// The three aligned series that transfer entropy from a source to a target
/// reads, for a lag `l` and `n` aligned steps: `current[k]` is
/// `target[k + l]`, `past[k]` is `target[k]` and `source_past[k]` is
/// `source[k]`.
pub struct LaggedSeries<T> {
    pub current: Vec<T>,
    pub past: Vec<T>,
    pub source_past: Vec<T>,
}

/// Whether transfer entropy is defined on series of these lengths: the lag
/// is at least 1, there are bins, and each series holds at least `lag + 2`
/// samples. Where it is not, transfer entropy is 0.
pub open spec fn lag_defined(source_len: nat, target_len: nat, lag: nat, bins: nat) -> bool {
    source_len >= lag + 2 && target_len >= lag + 2 && bins > 0 && lag > 0
}

/// Aligns a source and a target series at the given lag: the target's value
/// at each step with its own value and the source's value `lag` steps
/// earlier, over every step that both series cover. `None` where transfer
/// entropy is not defined.
pub fn lagged_series<T: Copy>(source: &[T], target: &[T], lag: usize, bins: usize) -> (r: Option<LaggedSeries<T>>)
    requires
        lag <= usize::MAX - 2,
    ensures
        r is None <==> !lag_defined(source@.len(), target@.len(), lag as nat, bins as nat),
        r matches Some(s) ==> {
            let n: int = shorter(source@.len(), target@.len()) - lag;
            &&& s.current@ == target@.subrange(lag as int, lag + n)
            &&& s.past@ == target@.subrange(0, n)
            &&& s.source_past@ == source@.subrange(0, n)
        },
{
    if source.len() < lag + 2 || target.len() < lag + 2 || bins == 0 || lag == 0 {
        return None;
    }
    let shortest: usize = if source.len() <= target.len() { source.len() } else { target.len() };
    let n: usize = shortest - lag;
    let mut current: Vec<T> = Vec::new();
    let mut past: Vec<T> = Vec::new();
    let mut source_past: Vec<T> = Vec::new();
    let mut k: usize = 0;
    while k < n
        invariant
            k <= n,
            n + lag == shortest,
            shortest == shorter(source@.len(), target@.len()),
            current@ =~= target@.subrange(lag as int, lag + k),
            past@ =~= target@.subrange(0, k as int),
            source_past@ =~= source@.subrange(0, k as int),
        decreases n - k,
    {
        current.push(target[lag + k]);
        past.push(target[k]);
        source_past.push(source[k]);
        k = k + 1;
    }
    Some(LaggedSeries { current, past, source_past })
}

} // verus!
