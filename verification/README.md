# iii_observability

Information-theoretic observability for services, with its discrete core
verified in Verus.

- `src/` is the verified library:
  - `info`: when a measure is defined, histogram bin counts, sparse joint
    histograms (2-D and 3-D), the clamp that gives the KL divergence its
    bound, and the lag alignment that transfer entropy reads;
  - `anomaly`: the layout of the causality matrix (directed, zero diagonal)
    and of the correlation matrix (symmetric, entropy on the diagonal);
  - `metrics`: a service's metrics collector over a crackle-runtime kiln
    (record a fired snapshot, cool, count, reset), with the kiln's profile;
  - `phase`: SRE states, pattern kinds, the aggregate state of a set of
    patterns and its printed report (`=== SYSTEM STATE: ... ===`, then
    `Patterns detected:` and one line per pattern).
- `app/` holds what works in floating point (the divergences, entropies,
  mutual information, transfer entropy and anomaly scores), the metric
  snapshot task that crackle-runtime fires (recorded with
  `RecordSnapshot::record_snapshot`), and the conversion of crackle-runtime
  patterns for the phase detector.
- `tests/` exercises the library.
