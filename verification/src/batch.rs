//! Control of a generation batch: how many pixelize/save workers run, which
//! image index comes next (indices are global across batches so every image
//! gets a fresh seed and a unique file name), when a batch stops, and how a
//! run ends.

use vstd::prelude::*;

verus! {

/// Worker threads: `jobs` when set, else the machine's parallelism capped at
/// two, else one.
pub fn worker_count(jobs: usize, available: Option<usize>) -> (n: usize)
    ensures
        n == (if jobs > 0 {
            jobs
        } else {
            match available {
                Some(a) => if a < 2 {
                    a
                } else {
                    2
                },
                None => 1,
            }
        }),
{
    if jobs > 0 {
        jobs
    } else {
        match available {
            Some(a) => if a < 2 {
                a
            } else {
                2
            },
            None => 1,
        }
    }
}

/// What the next iteration of a batch does.
#[derive(Clone, Copy, Debug, PartialEq, Eq, Structural)]
pub enum Step {
    /// Render image `index`.
    Render(usize),
    /// Image `index` was discarded while queued: spend no GPU on it.
    Skip(usize),
    /// The batch is over (done, cancelled or aborted).
    Stop,
}

/// How a whole run ends.
#[derive(Clone, Copy, Debug, PartialEq, Eq, Structural)]
pub enum RunOutcome {
    /// Interrupted by the user: exit status 130.
    Cancelled,
    /// Some images failed: the run fails, naming how many.
    Failed(usize),
    /// Every requested image was handled.
    Done,
}

/// Cancellation wins over failures; any failure fails the run.
pub fn run_outcome(cancelled: bool, failures: usize) -> (o: RunOutcome)
    ensures
        o == (if cancelled {
            RunOutcome::Cancelled
        } else if failures > 0 {
            RunOutcome::Failed(failures)
        } else {
            RunOutcome::Done
        }),
{
    if cancelled {
        RunOutcome::Cancelled
    } else if failures > 0 {
        RunOutcome::Failed(failures)
    } else {
        RunOutcome::Done
    }
}

/// Index allocation and stop decisions for batches of images.
pub struct BatchControl {
    /// Index of the next image, global across batches.
    pub next_index: usize,
    /// Images of the current batch not yet handed out.
    pub remaining: u32,
    /// Set after a failure with fail-fast on.
    pub aborted: bool,
}

/// `begin(count)` on `b`: a batch of `count` starts at the current index.
pub open spec fn spec_begin(b: BatchControl, count: u32) -> BatchControl {
    BatchControl { next_index: b.next_index, remaining: count, aborted: false }
}

/// `next_step` on `b`: the new state and the step, given whether the index
/// handed out is reported skipped.
pub open spec fn spec_next_step(b: BatchControl, cancelled: bool, skipped: bool) -> (
    BatchControl,
    Step,
) {
    if b.remaining == 0 || cancelled || b.aborted {
        (b, Step::Stop)
    } else {
        (
            BatchControl {
                next_index: (b.next_index + 1) as usize,
                remaining: (b.remaining - 1) as u32,
                aborted: b.aborted,
            },
            if skipped {
                Step::Skip(b.next_index)
            } else {
                Step::Render(b.next_index)
            },
        )
    }
}

/// `record_failure(fail_fast)` on `b`.
pub open spec fn spec_record_failure(b: BatchControl, fail_fast: bool) -> BatchControl {
    BatchControl { next_index: b.next_index, remaining: b.remaining, aborted: b.aborted || fail_fast }
}

/// One call on a `BatchControl` over a run of batches.
pub enum BatchOp {
    Begin(u32),
    Next { cancelled: bool, skipped: bool },
    Fail(bool),
}

/// The state after `op`.
pub open spec fn apply_op(b: BatchControl, op: BatchOp) -> BatchControl {
    match op {
        BatchOp::Begin(count) => spec_begin(b, count),
        BatchOp::Next { cancelled, skipped } => spec_next_step(b, cancelled, skipped).0,
        BatchOp::Fail(fail_fast) => spec_record_failure(b, fail_fast),
    }
}

/// The image index `op` hands out (rendered or skipped), if any.
pub open spec fn op_index(b: BatchControl, op: BatchOp) -> Option<usize> {
    match op {
        BatchOp::Next { cancelled, skipped } => match spec_next_step(b, cancelled, skipped).1 {
            Step::Render(i) => Some(i),
            Step::Skip(i) => Some(i),
            Step::Stop => None,
        },
        _ => None,
    }
}

/// The indices handed out by the calls `ops`, in order, starting from `b`.
pub open spec fn handed_out(b: BatchControl, ops: Seq<BatchOp>) -> Seq<usize>
    decreases ops.len(),
{
    if ops.len() == 0 {
        Seq::empty()
    } else {
        let rest = handed_out(apply_op(b, ops[0]), ops.drop_first());
        match op_index(b, ops[0]) {
            Some(i) => seq![i] + rest,
            None => rest,
        }
    }
}

/// Image indices are fresh across batches: over any run of calls (batches
/// begun, steps, failures), the indices handed out strictly increase, from
/// the starting index on, so no image index (hence no seed or file name)
/// repeats.
pub proof fn lemma_indices_fresh(b: BatchControl, ops: Seq<BatchOp>)
    requires
        b.next_index + ops.len() <= usize::MAX,
    ensures
        forall|i: int, j: int|
            0 <= i < j < handed_out(b, ops).len() ==> handed_out(b, ops)[i] < handed_out(b, ops)[j],
        forall|i: int|
            0 <= i < handed_out(b, ops).len() ==> b.next_index <= #[trigger] handed_out(b, ops)[i]
                < b.next_index + ops.len(),
    decreases ops.len(),
{
    if ops.len() > 0 {
        let b1 = apply_op(b, ops[0]);
        lemma_indices_fresh(b1, ops.drop_first());
        let rest = handed_out(b1, ops.drop_first());
        match op_index(b, ops[0]) {
            Some(k) => {
                assert(k == b.next_index);
                assert(b1.next_index == b.next_index + 1);
                let all = seq![k] + rest;
                assert forall|i: int| 0 < i < all.len() implies all[i] == rest[i - 1] by {}
            },
            None => {
                assert(b1.next_index == b.next_index);
            },
        }
    }
}

impl BatchControl {
    /// No batch yet; the first image will be index 0.
    pub fn new() -> (b: Self)
        ensures
            b.next_index == 0,
            b.remaining == 0,
            !b.aborted,
    {
        BatchControl { next_index: 0, remaining: 0, aborted: false }
    }

    /// Start a batch of `count` images; returns the index of its first image.
    pub fn begin(&mut self, count: u32) -> (start: usize)
        ensures
            start == old(self).next_index,
            *final(self) == spec_begin(*old(self), count),
    {
        self.remaining = count;
        self.aborted = false;
        self.next_index
    }

    /// Decide the next iteration: stop when the batch is used up, cancelled
    /// or aborted; otherwise hand out the next index, skipping it when it was
    /// discarded while queued.
    pub fn next_step(&mut self, cancelled: bool, is_skipped: impl Fn(usize) -> bool) -> (s: Step)
        requires
            forall|i: usize| call_requires(is_skipped, (i,)),
            old(self).next_index + old(self).remaining <= usize::MAX,
        ensures
            (*final(self), s) == spec_next_step(*old(self), cancelled, s is Skip),
            final(self).aborted == old(self).aborted,
            final(self).next_index + final(self).remaining <= usize::MAX,
            (old(self).remaining == 0 || cancelled || old(self).aborted) ==> s == Step::Stop
                && final(self).next_index == old(self).next_index && final(self).remaining
                == old(self).remaining,
            !(old(self).remaining == 0 || cancelled || old(self).aborted) ==> {
                &&& final(self).next_index == old(self).next_index + 1
                &&& final(self).remaining == old(self).remaining - 1
                &&& (s == Step::Render(old(self).next_index) || (s == Step::Skip(
                    old(self).next_index,
                ) && call_ensures(is_skipped, (old(self).next_index,), true)))
                &&& s == Step::Render(old(self).next_index) ==> call_ensures(
                    is_skipped,
                    (old(self).next_index,),
                    false,
                )
            },
    {
        if self.remaining == 0 || cancelled || self.aborted {
            return Step::Stop;
        }
        let id = self.next_index;
        self.next_index = self.next_index + 1;
        self.remaining = self.remaining - 1;
        if is_skipped(id) {
            Step::Skip(id)
        } else {
            Step::Render(id)
        }
    }

    /// An image failed; with `fail_fast` the batch aborts. Returns whether the
    /// batch goes on.
    pub fn record_failure(&mut self, fail_fast: bool) -> (go_on: bool)
        ensures
            go_on == !fail_fast,
            *final(self) == spec_record_failure(*old(self), fail_fast),
    {
        if fail_fast {
            self.aborted = true;
        }
        !fail_fast
    }
}

} // verus!
