//! OTA payload unpacking: the partition listing and the sequential
//! extraction plan with cooperative cancellation.
//!
//! Reading the payload stream and writing image files is outside
//! work; the plan below decides, per step, whether to extract the
//! next partition or stop, and the driver performs the action.

use vstd::prelude::*;

verus! {

/// Observer of extraction progress and carrier of the cancel flag.
pub trait ProgressReporter {
    fn on_start(&self, name: &str, total: u64);

    fn on_progress(&self, name: &str, current: u64, total: u64);

    fn on_complete(&self, name: &str, total: u64);

    fn on_warning(&self, name: &str, idx: usize, msg: String);

    fn should_cancel(&self) -> bool;
}

/// A chunk of payload data addressed to an output file.
#[derive(Debug)]
pub struct PayloadChunk {
    pub data: Vec<u8>,
    pub data_length: u64,
    pub output_path: String,
}

/// One partition named by the payload manifest.
#[derive(Debug, Clone)]
pub struct PartitionRecord {
    pub name: String,
    pub size_bytes: u64,
    pub operations_count: u64,
}

/// The manifest's partition list, in manifest order.
#[derive(Debug, Clone)]
pub struct PayloadSummary {
    pub partitions: Vec<PartitionRecord>,
}

impl PayloadSummary {
    /// Exactly the manifest's partitions, in order, nothing else.
    pub fn list_partitions(&self) -> (r: &Vec<PartitionRecord>)
        ensures
            r@ == self.partitions@,
    {
        &self.partitions
    }
}

/// What the driver is told to do next.
#[derive(Debug)]
pub enum UnpackAction {
    /// Extract this partition to `<name>.img`.
    Extract(String),
    /// The cancel flag was observed; stop with partial output.
    Cancelled,
    /// Every partition was extracted.
    Done,
}

/// The sequential extraction plan: partitions are taken in manifest
/// order, one per step, and the cancel flag is polled before each.
#[derive(Debug)]
pub struct UnpackPlan {
    pub partitions: Vec<PartitionRecord>,
    pub next: usize,
}

impl UnpackPlan {
    /// A plan over the manifest's partitions.
    pub fn new(partitions: Vec<PartitionRecord>) -> (r: UnpackPlan)
        ensures
            r.partitions@ == partitions@,
            r.next == 0,
    {
        UnpackPlan { partitions, next: 0 }
    }

    /// How many extractions have been handed out.
    pub fn extracted(&self) -> (r: usize)
        ensures
            r == self.next,
    {
        self.next
    }

    /// Decide the next action. A set cancel flag stops the plan
    /// before any further work; otherwise the next partition in
    /// manifest order is handed out exactly once, and `Done` comes
    /// only after every partition was extracted.
    pub fn step(&mut self, cancel: bool) -> (r: UnpackAction)
        requires
            old(self).next <= old(self).partitions@.len(),
        ensures
            final(self).partitions == old(self).partitions,
            cancel ==> r is Cancelled && final(self).next == old(self).next,
            !cancel && old(self).next < old(self).partitions@.len() ==> {
                &&& (r matches UnpackAction::Extract(n) && n@ == old(self).partitions@[
                    old(self).next as int].name@)
                &&& final(self).next == old(self).next + 1
            },
            !cancel && old(self).next >= old(self).partitions@.len() ==> r is Done && final(
                self).next == old(self).next,
    {
        if cancel {
            return UnpackAction::Cancelled;
        }
        if self.next < self.partitions.len() {
            let name = self.partitions[self.next].name.clone();
            proof {
                assert(name@ == self.partitions@[self.next as int].name@);
            }
            self.next += 1;
            UnpackAction::Extract(name)
        } else {
            UnpackAction::Done
        }
    }
}

/// Bytes completed after `current_op` of `total_ops` operations, on
/// a partition of `total_bytes`: a proportional estimate, clamped to
/// the operation count, and zero when there are no operations.
pub fn progress_bytes(current_op: u64, total_ops: u64, total_bytes: u64) -> (r: u64)
    ensures
        total_ops == 0 ==> r == 0,
        total_ops > 0 ==> r as int == (min_u64(current_op, total_ops) as int
            * total_bytes as int) / total_ops as int,
        r <= total_bytes,
{
    if total_ops == 0 {
        return 0;
    }
    let cur: u64 = if current_op < total_ops {
        current_op
    } else {
        total_ops
    };
    proof {
        assert(cur as int * total_bytes as int <= 0xFFFF_FFFF_FFFF_FFFFint
            * 0xFFFF_FFFF_FFFF_FFFFint) by (nonlinear_arith)
            requires cur <= 0xFFFF_FFFF_FFFF_FFFFu64, total_bytes <= 0xFFFF_FFFF_FFFF_FFFFu64;
    }
    let wide: u128 = (cur as u128 * total_bytes as u128) / total_ops as u128;
    proof {
        assert(cur as int * total_bytes as int <= total_ops as int * total_bytes as int)
            by (nonlinear_arith)
            requires cur <= total_ops, total_bytes >= 0;
        assert((total_ops as int * total_bytes as int) / total_ops as int
            == total_bytes as int) by (nonlinear_arith)
            requires total_ops > 0;
        assert((cur as int * total_bytes as int) / total_ops as int <= total_bytes as int)
            by (nonlinear_arith)
            requires cur <= total_ops, total_bytes >= 0, total_ops > 0;
    }
    wide as u64
}

/// The smaller of two values.
pub open spec fn min_u64(a: u64, b: u64) -> u64 {
    if a < b {
        a
    } else {
        b
    }
}

} // verus!
