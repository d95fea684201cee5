//! The seam to the data layer: where a tape comes from, and what is known of
//! it before it is replayed.

pub mod convert;

use crate::domain::decimal::Decimal;
use crate::domain::{ChainSnapshot, SimTime, StepIndex};
use crate::error::BacktestError;
use vstd::prelude::*;

verus! {

/// The shocks that a stress test puts on a simulated walk.
#[derive(Debug, Clone, Copy, PartialEq, Eq)]
pub struct WalkShock {
    /// A factor on the walk's volatility.
    pub volatility_factor: Option<Decimal>,
    /// A shift of the walk's drift.
    pub drift_delta: Option<Decimal>,
}

/// A simulated source: a session that a simulator evolves.
#[derive(Debug, PartialEq, Eq)]
pub struct SimulatorSourceSpec {
    /// The request that opens the session, as the simulator reads it.
    pub session: String,
    /// The walk seed that the session asks for.
    pub session_seed: Option<u64>,
    /// The shocks that the session's walk is put under, in turn.
    pub shocks: Vec<WalkShock>,
    /// The address of the simulator.
    pub base_url: String,
    /// The walk seed, for the record.
    pub data_seed: u64,
    /// The hash of the tape; empty until it is made.
    pub tape_sha256: String,
    /// The version of the simulator, where it is known.
    pub simulator_version: Option<String>,
}

/// Where a run's data comes from.
#[derive(Debug, PartialEq, Eq)]
pub enum DataSourceSpec {
    /// A recorded tape in a file.
    Parquet {
        /// The file.
        path: String,
        /// The hash of its contents.
        sha256: String,
    },
    /// A simulated tape.
    Simulator(SimulatorSourceSpec),
}

impl SimulatorSourceSpec {
    /// Whether two specifications say the same.
    pub open spec fn same_as(self, other: Self) -> bool {
        &&& self.session == other.session
        &&& self.session_seed == other.session_seed
        &&& self.shocks@ == other.shocks@
        &&& self.base_url == other.base_url
        &&& self.data_seed == other.data_seed
        &&& self.tape_sha256 == other.tape_sha256
        &&& self.simulator_version == other.simulator_version
    }
}

impl DataSourceSpec {
    /// Whether two specifications say the same.
    pub open spec fn same_as(self, other: Self) -> bool {
        match (self, other) {
            (DataSourceSpec::Simulator(a), DataSourceSpec::Simulator(b)) => a.same_as(b),
            _ => self == other,
        }
    }
}

impl Clone for SimulatorSourceSpec {
    fn clone(&self) -> (r: Self)
        ensures
            r.same_as(*self),
    {
        let mut shocks: Vec<WalkShock> = Vec::with_capacity(self.shocks.len());
        for i in 0..self.shocks.len()
            invariant
                shocks@ == self.shocks@.take(i as int),
        {
            shocks.push(self.shocks[i]);
        }
        assert(shocks@ =~= self.shocks@);
        SimulatorSourceSpec {
            session: self.session.clone(),
            session_seed: self.session_seed,
            shocks,
            base_url: self.base_url.clone(),
            data_seed: self.data_seed,
            tape_sha256: self.tape_sha256.clone(),
            simulator_version: match &self.simulator_version {
                Some(version) => Some(version.clone()),
                None => None,
            },
        }
    }
}

impl Clone for DataSourceSpec {
    fn clone(&self) -> (r: Self)
        ensures
            r.same_as(*self),
    {
        match self {
            DataSourceSpec::Parquet { path, sha256 } => DataSourceSpec::Parquet {
                path: path.clone(),
                sha256: sha256.clone(),
            },
            DataSourceSpec::Simulator(spec) => DataSourceSpec::Simulator(spec.clone()),
        }
    }
}

/// What is known of a tape before it is replayed.
#[derive(Debug, PartialEq, Eq)]
pub struct TapeMeta {
    /// Whether the tape holds any snapshot.
    pub non_empty: bool,
    /// The last step.
    pub final_step: StepIndex,
    /// The first timestamp.
    pub first_ts: SimTime,
    /// The identity of the tape.
    pub data_identity: String,
}

impl Clone for TapeMeta {
    fn clone(&self) -> (r: Self)
        ensures
            r == *self,
    {
        TapeMeta {
            non_empty: self.non_empty,
            final_step: self.final_step,
            first_ts: self.first_ts,
            data_identity: self.data_identity.clone(),
        }
    }
}

/// A tape, one snapshot at a time.
///
/// Each feed says for itself what it may yield, as a relation over the feed
/// before and after; the replay loop is proved for whatever it says.
pub trait DataFeed: Sized {
    /// What is known of the tape.
    open spec fn tape(self) -> TapeMeta {
        arbitrary()
    }

    /// Where the tape comes from.
    open spec fn source(self) -> DataSourceSpec {
        arbitrary()
    }

    /// What `next` may yield.
    open spec fn may_yield(
        before: Self,
        after: Self,
        r: Result<Option<ChainSnapshot>, BacktestError>,
    ) -> bool {
        true
    }

    /// What is known of the tape.
    fn tape_meta(&self) -> (meta: &TapeMeta)
        ensures
            *meta == self.tape(),
    ;

    /// Where the tape comes from.
    fn meta(&self) -> (source: DataSourceSpec)
        ensures
            source.same_as(self.source()),
    ;

    /// The next snapshot, or nothing at the end.
    fn next(&mut self) -> (r: Result<Option<ChainSnapshot>, BacktestError>)
        ensures
            Self::may_yield(*old(self), *final(self), r),
    ;
}

} // verus!
