//! Resource accounting: the two-dimensional weight unit the bridged chains
//! charge transactions in, database access costs, and the benchmarked
//! weight tables of the message and head-tracking modules.

use vstd::prelude::*;

pub mod messages;
pub mod parachains;

verus! {

/// A component capped at the weight unit's range.
pub open spec fn sat(x: int) -> int {
    vstd::math::min(x, u64::MAX as int)
}

/// Computation time of a benchmarked table entry: the base cost plus the
/// charged storage reads and writes, each addition saturating.
pub open spec fn spec_table_ref_time(base: int, db: DbWeight, reads: int, writes: int) -> int {
    sat(sat(base + sat(db.read * reads)) + sat(db.write * writes))
}

/// An abstract resource amount: computation time and proof size.
#[derive(Clone, Copy, PartialEq, Eq, Structural, Debug)]
pub struct Weight {
    /// Computation cost, in picoseconds of reference hardware time.
    pub ref_time: u64,
    /// State-proof size cost, in bytes.
    pub proof_size: u64,
}

impl Weight {
    /// A weight from its two components.
    pub fn from_parts(ref_time: u64, proof_size: u64) -> (w: Weight)
        ensures
            w.ref_time == ref_time,
            w.proof_size == proof_size,
    {
        Weight { ref_time, proof_size }
    }

    /// A weight with only a computation-time component.
    pub fn from_ref_time(ref_time: u64) -> (w: Weight)
        ensures
            w.ref_time == ref_time,
            w.proof_size == 0,
    {
        Weight { ref_time, proof_size: 0 }
    }

    /// Component-wise saturating addition.
    pub fn saturating_add(self, rhs: Weight) -> (w: Weight)
        ensures
            w.ref_time as int == vstd::math::min(
                self.ref_time as int + rhs.ref_time as int,
                u64::MAX as int,
            ),
            w.proof_size as int == vstd::math::min(
                self.proof_size as int + rhs.proof_size as int,
                u64::MAX as int,
            ),
    {
        Weight {
            ref_time: saturating_add_u64(self.ref_time, rhs.ref_time),
            proof_size: saturating_add_u64(self.proof_size, rhs.proof_size),
        }
    }

    /// Component-wise saturating subtraction.
    pub fn saturating_sub(self, rhs: Weight) -> (w: Weight)
        ensures
            w.ref_time as int == vstd::math::max(self.ref_time - rhs.ref_time, 0),
            w.proof_size as int == vstd::math::max(self.proof_size - rhs.proof_size, 0),
    {
        Weight {
            ref_time: if self.ref_time >= rhs.ref_time {
                self.ref_time - rhs.ref_time
            } else {
                0
            },
            proof_size: if self.proof_size >= rhs.proof_size {
                self.proof_size - rhs.proof_size
            } else {
                0
            },
        }
    }
}

/// Saturating addition on the weight components.
fn saturating_add_u64(a: u64, b: u64) -> (r: u64)
    ensures
        r as int == vstd::math::min(a as int + b as int, u64::MAX as int),
{
    if a <= u64::MAX - b {
        a + b
    } else {
        u64::MAX
    }
}

/// Saturating multiplication on the weight components.
fn saturating_mul_u64(a: u64, b: u64) -> (r: u64)
    ensures
        r as int == vstd::math::min(a as int * b as int, u64::MAX as int),
{
    if b == 0 {
        proof {
            assert(a as int * 0 == 0) by (nonlinear_arith);
        }
        0
    } else if a <= u64::MAX / b {
        proof {
            let q = u64::MAX as int / b as int;
            vstd::arithmetic::div_mod::lemma_fundamental_div_mod(u64::MAX as int, b as int);
            assert(a as int * b as int <= q * b as int) by (nonlinear_arith)
                requires
                    a as int <= q,
                    b as int > 0,
            ;
            assert(q * b as int <= u64::MAX as int) by (nonlinear_arith)
                requires
                    u64::MAX as int == b as int * q + u64::MAX as int % b as int,
                    (u64::MAX as int % b as int) >= 0,
            ;
        }
        a * b
    } else {
        proof {
            let q = u64::MAX as int / b as int;
            vstd::arithmetic::div_mod::lemma_fundamental_div_mod(u64::MAX as int, b as int);
            assert(a as int * b as int > u64::MAX as int) by (nonlinear_arith)
                requires
                    a as int >= q + 1,
                    b as int > 0,
                    u64::MAX as int == b as int * q + u64::MAX as int % b as int,
                    (u64::MAX as int % b as int) < b as int,
            ;
        }
        u64::MAX
    }
}

/// The database access costs of one runtime: computation time charged per
/// storage read and per storage write.
#[derive(Clone, Copy, PartialEq, Eq, Structural, Debug)]
pub struct DbWeight {
    /// Cost of one storage read.
    pub read: u64,
    /// Cost of one storage write.
    pub write: u64,
}

impl DbWeight {
    /// The weight of the given number of storage reads.
    pub fn reads(self, r: u64) -> (w: Weight)
        ensures
            w.ref_time as int == vstd::math::min(self.read as int * r as int, u64::MAX as int),
            w.proof_size == 0,
    {
        Weight { ref_time: saturating_mul_u64(self.read, r), proof_size: 0 }
    }

    /// The weight of the given number of storage writes.
    pub fn writes(self, w: u64) -> (r: Weight)
        ensures
            r.ref_time as int == vstd::math::min(self.write as int * w as int, u64::MAX as int),
            r.proof_size == 0,
    {
        Weight { ref_time: saturating_mul_u64(self.write, w), proof_size: 0 }
    }
}

/// The database access costs all the benchmarked tables below were
/// generated against.
pub fn rocks_db_weight() -> (w: DbWeight)
    ensures
        w.read == 25_000_000,
        w.write == 100_000_000,
{
    DbWeight { read: 25_000_000, write: 100_000_000 }
}

} // verus!
