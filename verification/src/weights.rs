//! The cost model: a two-dimensional weight (computation time and proof
//! size) and the database access costs from which operation costs are
//! computed.

use vstd::prelude::*;

verus! {

/// `a + b`, saturating at the top of the `u64` range.
pub open spec fn sat_add_u64(a: u64, b: u64) -> u64 {
    if a + b > u64::MAX {
        u64::MAX
    } else {
        (a + b) as u64
    }
}

/// `a * b`, saturating at the top of the `u64` range.
pub open spec fn sat_mul_u64(a: u64, b: u64) -> u64 {
    if a * b > u64::MAX {
        u64::MAX
    } else {
        (a * b) as u64
    }
}

/// The cost of one operation: computation time and proof size.
#[derive(Clone, Copy, PartialEq, Eq, Structural, Debug)]
pub struct Weight {
    /// The weight of computational time used, in picoseconds.
    pub ref_time: u64,
    /// The weight of storage proof size, in bytes.
    pub proof_size: u64,
}

impl Weight {
    /// The sum of two weights in both dimensions, saturating.
    pub open spec fn spec_saturating_add(self, other: Weight) -> Weight {
        Weight {
            ref_time: sat_add_u64(self.ref_time, other.ref_time),
            proof_size: sat_add_u64(self.proof_size, other.proof_size),
        }
    }

    /// The weight of nothing.
    pub fn zero() -> (r: Weight)
        ensures
            r.ref_time == 0,
            r.proof_size == 0,
    {
        Weight { ref_time: 0, proof_size: 0 }
    }

    /// Builds a weight from its two components.
    pub fn from_parts(ref_time: u64, proof_size: u64) -> (r: Weight)
        ensures
            r.ref_time == ref_time,
            r.proof_size == proof_size,
    {
        Weight { ref_time, proof_size }
    }

    /// Adds two weights, saturating in each dimension.
    pub fn saturating_add(self, other: Weight) -> (r: Weight)
        ensures
            r == self.spec_saturating_add(other),
    {
        Weight {
            ref_time: self.ref_time.saturating_add(other.ref_time),
            proof_size: self.proof_size.saturating_add(other.proof_size),
        }
    }
}

/// `a * b` with saturation, as an executable operation.
fn saturating_mul_u64(a: u64, b: u64) -> (r: u64)
    ensures
        r == sat_mul_u64(a, b),
{
    match a.checked_mul(b) {
        Some(v) => v,
        None => u64::MAX,
    }
}

/// The cost of single database reads and writes, from which the cost of
/// an operation touching the store is computed.
#[derive(Clone, Copy, PartialEq, Eq, Structural, Debug)]
pub struct RuntimeDbWeight {
    /// The cost of one database read.
    pub read: u64,
    /// The cost of one database write.
    pub write: u64,
}

impl RuntimeDbWeight {
    /// The cost of `r` reads and `w` writes.
    pub open spec fn spec_reads_writes(self, r: u64, w: u64) -> Weight {
        Weight {
            ref_time: sat_add_u64(sat_mul_u64(self.read, r), sat_mul_u64(self.write, w)),
            proof_size: 0,
        }
    }

    /// The cost of `n` database reads.
    pub fn reads(self, n: u64) -> (r: Weight)
        ensures
            r == self.spec_reads_writes(n, 0),
    {
        Weight { ref_time: saturating_mul_u64(self.read, n), proof_size: 0 }
    }

    /// The cost of `n` database writes.
    pub fn writes(self, n: u64) -> (r: Weight)
        ensures
            r == self.spec_reads_writes(0, n),
    {
        Weight { ref_time: saturating_mul_u64(self.write, n), proof_size: 0 }
    }

    /// The cost of `r` database reads and `w` database writes.
    pub fn reads_writes(self, r: u64, w: u64) -> (res: Weight)
        ensures
            res == self.spec_reads_writes(r, w),
    {
        let read_cost = saturating_mul_u64(self.read, r);
        let write_cost = saturating_mul_u64(self.write, w);
        Weight { ref_time: read_cost.saturating_add(write_cost), proof_size: 0 }
    }
}

/// Benchmarked weights of the timestamp operations of the surrounding
/// ledger, parameterized by the database access costs.
pub struct WeightInfo {
    /// The database access costs of the host.
    pub db_weight: RuntimeDbWeight,
}

impl WeightInfo {
    /// The weight of setting the current timestamp: the benchmarked base
    /// cost plus two database reads and one write.
    pub fn set(&self) -> (r: Weight)
        ensures
            r.ref_time == sat_add_u64(
                sat_add_u64(9_671_000, sat_mul_u64(self.db_weight.read, 2)),
                sat_mul_u64(self.db_weight.write, 1),
            ),
            r.proof_size == 1493,
    {
        Weight::from_parts(9_671_000, 0).saturating_add(Weight::from_parts(0, 1493))
            .saturating_add(self.db_weight.reads(2)).saturating_add(self.db_weight.writes(1))
    }

    /// The weight of the block-finalization bookkeeping of the timestamp:
    /// the benchmarked base cost alone.
    pub fn on_finalize(&self) -> (r: Weight)
        ensures
            r.ref_time == 3_834_000,
            r.proof_size == 0,
    {
        Weight::from_parts(3_834_000, 0).saturating_add(Weight::from_parts(0, 0))
    }
}

} // verus!
