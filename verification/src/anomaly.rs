use vstd::prelude::*;

verus! {

/// Whether `m` is an `n` by `n` matrix.
pub open spec fn is_square<T>(m: Seq<Vec<T>>, n: nat) -> bool {
    &&& m.len() == n
    &&& forall|i: int| 0 <= i < n ==> (#[trigger] m[i])@.len() == n
}

/// The causality matrix of `n` metric series: entry `(i, j)` is the
/// directed influence of series `i` on series `j` (its transfer entropy),
/// and the diagonal holds `none`, since no series is measured against
/// itself. `influence(i, j)` is asked once for each ordered pair of distinct
/// series, row by row.
pub fn causality_matrix<T: Copy>(n: usize, none: T, influence: impl Fn(usize, usize) -> T) -> (m: Vec<
    Vec<T>,
>)
    requires
        forall|i: usize, j: usize| i < n && j < n && i != j ==> call_requires(influence, (i, j)),
    ensures
        is_square(m@, n as nat),
        forall|i: int| 0 <= i < n ==> (#[trigger] m@[i])@[i] == none,
        forall|i: int, j: int|
            0 <= i < n && 0 <= j < n && i != j ==> call_ensures(influence, (i as usize, j as usize), #[trigger] m@[i]@[j]),
{
    let mut m: Vec<Vec<T>> = Vec::new();
    let mut i: usize = 0;
    while i < n
        invariant
            i <= n,
            m@.len() == i,
            forall|a: usize, b: usize| a < n && b < n && a != b ==> call_requires(influence, (a, b)),
            forall|a: int| 0 <= a < i ==> (#[trigger] m@[a])@.len() == n,
            forall|a: int| 0 <= a < i ==> (#[trigger] m@[a])@[a] == none,
            forall|a: int, b: int|
                0 <= a < i && 0 <= b < n && a != b ==> call_ensures(influence, (a as usize, b as usize), #[trigger] m@[a]@[b]),
        decreases n - i,
    {
        let mut row: Vec<T> = Vec::new();
        let mut j: usize = 0;
        while j < n
            invariant
                i < n,
                j <= n,
                row@.len() == j,
                forall|a: usize, b: usize| a < n && b < n && a != b ==> call_requires(influence, (a, b)),
                i < j ==> row@[i as int] == none,
                forall|b: int| 0 <= b < j && b != i ==> call_ensures(influence, (i, b as usize), #[trigger] row@[b]),
            decreases n - j,
        {
            if i == j {
                row.push(none);
            } else {
                let v = influence(i, j);
                row.push(v);
            }
            j = j + 1;
        }
        m.push(row);
        i = i + 1;
    }
    m
}

/// The correlation matrix of `n` metric series: entry `(i, j)` is the
/// mutual information of series `i` and `j`, and the diagonal holds each
/// series' own information (its entropy). The matrix is symmetric: each
/// unordered pair is measured once, by `mutual(i, j)` with `i < j`, and the
/// value is mirrored.
pub fn correlation_matrix<T: Copy>(
    n: usize,
    own: impl Fn(usize) -> T,
    mutual: impl Fn(usize, usize) -> T,
) -> (m: Vec<Vec<T>>)
    requires
        forall|i: usize| i < n ==> call_requires(own, (i,)),
        forall|i: usize, j: usize| i < j < n ==> call_requires(mutual, (i, j)),
    ensures
        is_square(m@, n as nat),
        forall|i: int| 0 <= i < n ==> call_ensures(own, (i as usize,), (#[trigger] m@[i])@[i]),
        forall|i: int, j: int| 0 <= i < j < n ==> call_ensures(mutual, (i as usize, j as usize), #[trigger] m@[i]@[j]),
        forall|i: int, j: int| 0 <= i < n && 0 <= j < n ==> #[trigger] m@[i]@[j] == m@[j]@[i],
{
    let mut m: Vec<Vec<T>> = Vec::new();
    let mut i: usize = 0;
    while i < n
        invariant
            i <= n,
            m@.len() == i,
            forall|a: usize| a < n ==> call_requires(own, (a,)),
            forall|a: usize, b: usize| a < b < n ==> call_requires(mutual, (a, b)),
            forall|a: int| 0 <= a < i ==> (#[trigger] m@[a])@.len() == n,
            forall|a: int| 0 <= a < i ==> call_ensures(own, (a as usize,), (#[trigger] m@[a])@[a]),
            forall|a: int, b: int| 0 <= a < i && a < b < n ==> call_ensures(mutual, (a as usize, b as usize), #[trigger] m@[a]@[b]),
            forall|a: int, b: int| 0 <= a < i && 0 <= b < i ==> #[trigger] m@[a]@[b] == m@[b]@[a],
        decreases n - i,
    {
        let mut row: Vec<T> = Vec::new();
        let mut j: usize = 0;
        while j < n
            invariant
                i < n,
                j <= n,
                m@.len() == i,
                row@.len() == j,
                forall|a: usize| a < n ==> call_requires(own, (a,)),
                forall|a: usize, b: usize| a < b < n ==> call_requires(mutual, (a, b)),
                forall|a: int| 0 <= a < i ==> (#[trigger] m@[a])@.len() == n,
                i < j ==> call_ensures(own, (i,), row@[i as int]),
                forall|b: int| i < b < j ==> call_ensures(mutual, (i, b as usize), #[trigger] row@[b]),
                forall|b: int| 0 <= b < j && b < i ==> #[trigger] row@[b] == m@[b]@[i as int],
            decreases n - j,
        {
            if j < i {
                let v = m[j][i];
                row.push(v);
            } else if j == i {
                let v = own(i);
                row.push(v);
            } else {
                let v = mutual(i, j);
                row.push(v);
            }
            j = j + 1;
        }
        m.push(row);
        i = i + 1;
    }
    m
}

} // verus!
