use vstd::prelude::*;

use crate::common::{OrderbookSnapshot, SharedStr};
use crate::data_structures::indexed_matrix::IndexedMatrix;
use crate::stats::observation::{Observation, Timescale};
use crate::stats::stratify::{bucket_of, with_bucket, Stratified, Stratifier};
use crate::stats::TransportMsg;
use vstd::std_specs::convert::FromSpec;

verus! {

/// The observation a book summary becomes: its timestamp in milliseconds
/// and its mid price as the value.
pub open spec fn observation_of(data: OrderbookSnapshot) -> Observation<Option<u16>> {
    Observation {
        id: data.id,
        ts: data.ts / 1_000_000,
        timescale: Timescale::Nano,
        value: data.mid,
        stratified: Stratified::Unstratified,
    }
}

/// A book summary becomes an observation of the same book that carries the
/// summary's mid price as its value, its timestamp taken from nanoseconds
/// to milliseconds; the conversion of a summary into an observation keeps
/// the book, the mid price and the timestamp.
pub proof fn lemma_observation_keeps_mid(data: OrderbookSnapshot)
    ensures
        observation_of(data).value == data.mid,
        observation_of(data).id == data.id,
        observation_of(data).ts == data.ts / 1_000_000,
        <Observation<Option<u16>> as FromSpec<OrderbookSnapshot>>::from_spec(data).value
            == data.mid,
        <Observation<Option<u16>> as FromSpec<OrderbookSnapshot>>::from_spec(data).id
            == data.id,
        <Observation<Option<u16>> as FromSpec<OrderbookSnapshot>>::from_spec(data).ts
            == data.ts,
{
}

/// Collects the observations of every book, one row per book.
pub struct StatsEngine {
    matrix: IndexedMatrix<Observation<Option<u16>>>,
    stratifier: Stratifier,
}

impl StatsEngine {
    /// The rows of observations, by book.
    pub closed spec fn rows(&self) -> Map<Seq<char>, Seq<Observation<Option<u16>>>> {
        self.matrix.rows()
    }

    /// The earliest timestamp seen, in milliseconds.
    pub closed spec fn origin(&self) -> Option<u64> {
        self.stratifier.origin()
    }

    /// A row can be given to a new book.
    pub closed spec fn has_room(&self) -> bool {
        self.matrix.has_room()
    }

    /// The matrix is well formed, from `new` on.
    #[verifier::type_invariant]
    closed spec fn wf(&self) -> bool {
        self.matrix.wf()
    }

    pub fn new() -> (r: Self)
        ensures
            r.has_room(),
            r.rows() == Map::<Seq<char>, Seq<Observation<Option<u16>>>>::empty(),
            r.origin() is None,
    {
        Self { matrix: IndexedMatrix::new(100), stratifier: Stratifier::new() }
    }

    /// Whether data for the book `id` can be taken in: the book has a row,
    /// or one can be made.
    pub fn can_take(&self, id: &SharedStr) -> (r: bool)
        ensures
            r == (self.rows().contains_key(id@) || self.has_room()),
    {
        proof {
            use_type_invariant(self);
        }
        self.matrix.get(id).is_some() || self.matrix.has_room_for_new_key()
    }

    /// The summary as an observation in milliseconds, bucketed in windows
    /// of 100 seconds from the earliest timestamp seen.
    fn preprocess(&mut self, data: OrderbookSnapshot) -> (r: Observation<Option<u16>>)
        ensures
            final(self).matrix == old(self).matrix,
            final(self).origin() == Some(
                match old(self).origin() {
                    Some(c) => if c <= data.ts / 1_000_000 {
                        c
                    } else {
                        (data.ts / 1_000_000) as u64
                    },
                    None => (data.ts / 1_000_000) as u64,
                },
            ),
            r == with_bucket(
                observation_of(data),
                bucket_of((data.ts / 1_000_000) as u64, final(self).origin()->0, 100_000),
            ),
    {
        proof {
            use_type_invariant(&*self);
        }
        let mut obs: Observation<Option<u16>> = data.into();
        match obs.timescale {
            Timescale::Nano => obs.ts = obs.ts / 1_000_000,
            _ => {},
        }
        let mut stratifier = Stratifier::new();
        std::mem::swap(&mut stratifier, &mut self.stratifier);
        stratifier.stratify(&mut obs, 100_000);
        self.stratifier = stratifier;
        obs
    }

    /// Takes in one message: data is bucketed and appended to the row of
    /// its book; a removal drops the row of its book.
    pub fn handle(&mut self, msg: TransportMsg<SharedStr, OrderbookSnapshot>)
        requires
            msg matches TransportMsg::HandleData(data) ==> old(self).rows().contains_key(data.id@)
                || old(self).has_room(),
        ensures
            msg matches TransportMsg::RemoveData(key) ==> final(self).rows() == old(
                self,
            ).rows().remove(key@) && final(self).origin() == old(self).origin(),
            msg matches TransportMsg::HandleData(data) ==> final(self).origin() == Some(
                match old(self).origin() {
                    Some(c) => if c <= data.ts / 1_000_000 {
                        c
                    } else {
                        (data.ts / 1_000_000) as u64
                    },
                    None => (data.ts / 1_000_000) as u64,
                },
            ),
            msg matches TransportMsg::HandleData(data) ==> {
                let obs = with_bucket(
                    observation_of(data),
                    bucket_of((data.ts / 1_000_000) as u64, final(self).origin()->0, 100_000),
                );
                final(self).rows() == old(self).rows().insert(
                    data.id@,
                    if old(self).rows().contains_key(data.id@) {
                        old(self).rows()[data.id@].push(obs)
                    } else {
                        seq![obs]
                    },
                )
            },
            msg matches TransportMsg::HandleData(data) ==> {
                &&& final(self).rows().contains_key(data.id@)
                &&& final(self).rows()[data.id@].last().value == data.mid
                &&& final(self).rows()[data.id@].last().id@ == data.id@
                &&& final(self).rows()[data.id@].last().ts == data.ts / 1_000_000
            },
    {
        proof {
            use_type_invariant(&*self);
        }
        match msg {
            TransportMsg::HandleData(data) => {
                let obs = self.preprocess(data);
                let mut matrix = IndexedMatrix::new(0);
                std::mem::swap(&mut matrix, &mut self.matrix);
                matrix.push(&obs.id.clone(), obs);
                self.matrix = matrix;
            },
            TransportMsg::RemoveData(index) => {
                let mut matrix = IndexedMatrix::new(0);
                std::mem::swap(&mut matrix, &mut self.matrix);
                matrix.remove(&index);
                self.matrix = matrix;
            },
        }
    }
}

} // verus!
