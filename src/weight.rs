//! Two-dimensional cost figures with saturating arithmetic.

use vstd::prelude::*;

verus! {

/// The value of `x` clamped to the range of `u64` from above.
pub open spec fn sat(x: int) -> u64 {
    if x > u64::MAX as int {
        u64::MAX
    } else {
        x as u64
    }
}

/// The resources that a piece of migration work consumes: computation time and
/// proof size, both in abstract units.
#[derive(Clone, Copy, Debug, PartialEq, Eq, Structural)]
pub struct Weight {
    pub ref_time: u64,
    pub proof_size: u64,
}

impl Weight {
    pub open spec fn spec_zero() -> Weight {
        Weight { ref_time: 0, proof_size: 0 }
    }

    /// Componentwise addition that stops at the largest value instead of wrapping.
    pub open spec fn spec_add(self, other: Weight) -> Weight {
        Weight {
            ref_time: sat(self.ref_time + other.ref_time),
            proof_size: sat(self.proof_size + other.proof_size),
        }
    }

    pub fn zero() -> (r: Weight)
        ensures
            r == Weight::spec_zero(),
    {
        Weight { ref_time: 0, proof_size: 0 }
    }

    pub fn from_parts(ref_time: u64, proof_size: u64) -> (r: Weight)
        ensures
            r.ref_time == ref_time,
            r.proof_size == proof_size,
    {
        Weight { ref_time, proof_size }
    }

    pub fn saturating_add(self, other: Weight) -> (r: Weight)
        ensures
            r == self.spec_add(other),
    {
        Weight {
            ref_time: self.ref_time.saturating_add(other.ref_time),
            proof_size: self.proof_size.saturating_add(other.proof_size),
        }
    }
}

/// The cost of one read and of one write of the store, in computation time.
#[derive(Clone, Copy, Debug, PartialEq, Eq, Structural)]
pub struct RuntimeDbWeight {
    pub read: u64,
    pub write: u64,
}

fn saturating_mul(a: u64, b: u64) -> (r: u64)
    ensures
        r == sat(a * b),
{
    match a.checked_mul(b) {
        Some(p) => p,
        None => u64::MAX,
    }
}

impl RuntimeDbWeight {
    pub open spec fn spec_reads_writes(self, r: u64, w: u64) -> Weight {
        Weight { ref_time: sat(sat(self.read * r) + sat(self.write * w)), proof_size: 0 }
    }

    /// The cost of `r` reads and `w` writes.
    pub fn reads_writes(self, r: u64, w: u64) -> (res: Weight)
        ensures
            res == self.spec_reads_writes(r, w),
    {
        let reads = saturating_mul(self.read, r);
        let writes = saturating_mul(self.write, w);
        Weight { ref_time: reads.saturating_add(writes), proof_size: 0 }
    }

    /// The cost of `w` writes.
    pub fn writes(self, w: u64) -> (res: Weight)
        ensures
            res == self.spec_reads_writes(0, w),
    {
        self.reads_writes(0, w)
    }
}

/// A fraction in parts per billion.
#[derive(Clone, Copy, Debug, PartialEq, Eq, Structural)]
pub struct Perbill {
    pub parts: u32,
}

impl Perbill {
    pub fn zero() -> (r: Perbill)
        ensures
            r.parts == 0,
    {
        Perbill { parts: 0 }
    }
}

} // verus!
