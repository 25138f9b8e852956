use vstd::prelude::*;

use crate::data_structures::cache::Cache;
use crate::stats::observation::Observation;

verus! {

/// The time bucket an observation falls in, if it was given one.
#[derive(Debug, Clone, Copy, PartialEq, Eq, Structural)]
pub enum Stratified {
    Time { bucket: u32 },
    Unstratified,
}

/// Sorts observations into fixed-width time buckets counted from the
/// earliest timestamp seen so far.
pub struct Stratifier {
    cache: Cache<u64>,
}

/// The observation with its bucket set to `bucket`.
pub open spec fn with_bucket<T>(obs: Observation<T>, bucket: u32) -> Observation<T> {
    Observation { stratified: Stratified::Time { bucket }, ..obs }
}

/// The bucket of timestamp `ts` for windows of width `window` counted from
/// `origin`, cut to 32 bits.
pub open spec fn bucket_of(ts: u64, origin: u64, window: u64) -> u32 {
    ((ts - origin) / (window as int)) as u32
}

/// Whether `new` comes before `current`.
fn is_earlier(current: &u64, new: &u64) -> (r: bool)
    ensures
        r == (*new < *current),
{
    *new < *current
}

impl Stratifier {
    /// The earliest timestamp seen so far.
    pub closed spec fn origin(&self) -> Option<u64> {
        self.cache@
    }

    pub fn new() -> (r: Self)
        ensures
            r.origin() is None,
    {
        Self { cache: Cache::new() }
    }

    /// Takes in the timestamps of all of `matrix`, then buckets every
    /// observation in it from the earliest timestamp seen.
    pub fn stratify_many<T>(&mut self, matrix: &mut Vec<Vec<Observation<T>>>, window_timeframe_ms: u64)
        requires
            window_timeframe_ms > 0,
        ensures
            final(matrix)@.len() == old(matrix)@.len(),
            (forall|i: int| 0 <= i < old(matrix)@.len() ==> #[trigger] old(matrix)@[i]@.len() == 0)
                ==> final(self).origin() == old(self).origin(),
            final(self).origin() is Some || forall|i: int|
                0 <= i < old(matrix)@.len() ==> #[trigger] old(matrix)@[i]@.len() == 0,
            final(self).origin() matches Some(o) ==> {
                &&& (old(self).origin() matches Some(c) ==> o <= c)
                &&& forall|i: int, j: int|
                    0 <= i < old(matrix)@.len() && 0 <= j < old(matrix)@[i]@.len() ==> o
                        <= #[trigger] old(matrix)@[i]@[j].ts
                &&& old(self).origin() == Some(o) || exists|i: int, j: int|
                    0 <= i < old(matrix)@.len() && 0 <= j < old(matrix)@[i]@.len()
                        && #[trigger] old(matrix)@[i]@[j].ts == o
            },
            forall|i: int|
                0 <= i < old(matrix)@.len() ==> #[trigger] final(matrix)@[i]@.len() == old(
                    matrix,
                )@[i]@.len(),
            forall|i: int, j: int|
                0 <= i < old(matrix)@.len() && 0 <= j < old(matrix)@[i]@.len() ==> #[trigger]
                final(matrix)@[i]@[j] == with_bucket(
                    old(matrix)@[i]@[j],
                    bucket_of(old(matrix)@[i]@[j].ts, final(self).origin()->0, window_timeframe_ms),
                ),
    {
        let ghost m0 = matrix@.map_values(|row: Vec<Observation<T>>| row@);
        // earliest timestamp of the whole batch
        let mut batch_min: Option<u64> = None;
        let rows = matrix.len();
        let mut i: usize = 0;
        while i < rows
            invariant
                rows == matrix@.len(),
                i <= rows,
                batch_min matches Some(b) ==> (forall|a: int, c: int|
                    0 <= a < i && 0 <= c < matrix@[a]@.len() ==> b <= #[trigger] matrix@[a]@[c].ts)
                    && exists|a: int, c: int|
                    0 <= a < i && 0 <= c < matrix@[a]@.len() && #[trigger] matrix@[a]@[c].ts == b,
                batch_min is None ==> forall|a: int| 0 <= a < i ==> #[trigger] matrix@[a]@.len() == 0,
            decreases rows - i,
        {
            let cols = matrix[i].len();
            let mut j: usize = 0;
            while j < cols
                invariant
                    rows == matrix@.len(),
                    i < rows,
                    cols == matrix@[i as int]@.len(),
                    j <= cols,
                    batch_min matches Some(b) ==> (forall|a: int, c: int|
                        (0 <= a < i && 0 <= c < matrix@[a]@.len()) || (a == i && 0 <= c < j)
                        ==> b <= #[trigger] matrix@[a]@[c].ts) && exists|a: int, c: int|
                        ((0 <= a < i && 0 <= c < matrix@[a]@.len()) || (a == i && 0 <= c < j))
                        && #[trigger] matrix@[a]@[c].ts == b,
                    batch_min is None ==> j == 0 && forall|a: int|
                        0 <= a < i ==> #[trigger] matrix@[a]@.len() == 0,
                decreases cols - j,
            {
                let ts = matrix[i][j].ts;
                match batch_min {
                    Some(b) => {
                        if ts < b {
                            batch_min = Some(ts);
                        }
                    },
                    None => {
                        batch_min = Some(ts);
                    },
                }
                j = j + 1;
            }
            i = i + 1;
        }
        if let Some(batch_min) = batch_min {
            self.cache.write_if(batch_min, is_earlier);
        }
        let ghost origin = self.cache@;
        let mut i: usize = 0;
        while i < rows
            invariant
                rows == matrix@.len(),
                i <= rows,
                self.cache@ == origin,
                origin is Some || forall|a: int| 0 <= a < rows ==> #[trigger] m0[a].len() == 0,
                origin matches Some(o) ==> forall|a: int, c: int|
                    0 <= a < rows && 0 <= c < m0[a].len() ==> o <= #[trigger] m0[a][c].ts,
                m0.len() == rows,
                forall|a: int| 0 <= a < rows ==> #[trigger] matrix@[a]@.len() == m0[a].len(),
                forall|a: int| i <= a < rows ==> #[trigger] matrix@[a]@ == m0[a],
                forall|a: int, c: int|
                    0 <= a < i && 0 <= c < m0[a].len() ==> #[trigger] matrix@[a]@[c] == with_bucket(
                        m0[a][c],
                        bucket_of(m0[a][c].ts, origin->0, window_timeframe_ms),
                    ),
                window_timeframe_ms > 0,
            decreases rows - i,
        {
            let cols = matrix[i].len();
            let mut j: usize = 0;
            while j < cols
                invariant
                    rows == matrix@.len(),
                    i < rows,
                    j <= cols,
                    cols == m0[i as int].len(),
                    self.cache@ == origin,
                    origin is Some || forall|a: int| 0 <= a < rows ==> #[trigger] m0[a].len() == 0,
                    origin matches Some(o) ==> forall|a: int, c: int|
                        0 <= a < rows && 0 <= c < m0[a].len() ==> o <= #[trigger] m0[a][c].ts,
                    m0.len() == rows,
                    forall|a: int| 0 <= a < rows ==> #[trigger] matrix@[a]@.len() == m0[a].len(),
                    forall|a: int| i < a < rows ==> #[trigger] matrix@[a]@ == m0[a],
                    forall|c: int| j <= c < cols ==> #[trigger] matrix@[i as int]@[c] == m0[i as int][c],
                    forall|c: int|
                        0 <= c < j ==> #[trigger] matrix@[i as int]@[c] == with_bucket(
                            m0[i as int][c],
                            bucket_of(m0[i as int][c].ts, origin->0, window_timeframe_ms),
                        ),
                    forall|a: int, c: int|
                        0 <= a < i && 0 <= c < m0[a].len() ==> #[trigger] matrix@[a]@[c]
                            == with_bucket(
                            m0[a][c],
                            bucket_of(m0[a][c].ts, origin->0, window_timeframe_ms),
                        ),
                    window_timeframe_ms > 0,
                decreases cols - j,
            {
                self.stratify(&mut matrix[i][j], window_timeframe_ms);
                j = j + 1;
            }
            i = i + 1;
        }
    }

    /// Buckets `obs` from the earliest timestamp seen, `obs` included.
    pub fn stratify<T>(&mut self, obs: &mut Observation<T>, window_timeframe_ms: u64)
        requires
            window_timeframe_ms > 0,
        ensures
            final(self).origin() == Some(
                match old(self).origin() {
                    Some(c) => if c <= old(obs).ts {
                        c
                    } else {
                        old(obs).ts
                    },
                    None => old(obs).ts,
                },
            ),
            *final(obs) == with_bucket(
                *old(obs),
                bucket_of(old(obs).ts, final(self).origin()->0, window_timeframe_ms),
            ),
    {
        let min = match self.cache.read() {
            Some(cached) if *cached <= obs.ts => *cached,
            _ => obs.ts,
        };
        self.cache.write_if(min, is_earlier);

        obs.stratify(Stratified::Time { bucket: ((obs.ts - min) / window_timeframe_ms) as u32 });
    }
}

} // verus!
