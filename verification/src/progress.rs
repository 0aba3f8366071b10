//! Download progress coalescing: byte counts from the Hub client are
//! forwarded to the UI only every ~4 MB and at completion, so the UI is not
//! flooded.

use vstd::prelude::*;
use crate::naming::{short_name, spec_short_name};

verus! {

/// Bytes between two forwarded updates.
pub const REPORT_EVERY: u64 = 4_000_000;

/// Progress of one file download: bytes done out of `total`, and the byte
/// count at the last forwarded update.
pub struct HubProgress {
    pub file: String,
    pub done: u64,
    pub total: u64,
    pub last: u64,
}

impl HubProgress {
    /// A fresh counter for `file` (shown by its last path segment).
    pub fn new(file: &str) -> (p: Self)
        ensures
            p.file@ == spec_short_name(file@),
            p.done == 0,
            p.total == 0,
            p.last == 0,
    {
        HubProgress { file: short_name(file), done: 0, total: 0, last: 0 }
    }

    /// A download of `size` bytes of `filename` starts. Always forwarded.
    pub fn init(&mut self, size: usize, filename: &str) -> (emit: bool)
        requires
            size <= u64::MAX,
        ensures
            emit,
            final(self).total == size,
            final(self).done == 0,
            final(self).last == 0,
            final(self).file@ == spec_short_name(filename@),
    {
        self.total = size as u64;
        self.done = 0;
        self.last = 0;
        self.file = short_name(filename);
        true
    }

    /// `size` more bytes arrived. Forwarded when at least `REPORT_EVERY`
    /// bytes arrived since the last forwarded update, or the file is complete.
    pub fn update(&mut self, size: usize) -> (emit: bool)
        requires
            old(self).done + size <= u64::MAX,
        ensures
            final(self).done == old(self).done + size,
            final(self).total == old(self).total,
            final(self).file == old(self).file,
            emit == (final(self).done - old(self).last >= REPORT_EVERY || final(self).done
                >= final(self).total),
            final(self).last == (if emit {
                final(self).done
            } else {
                old(self).last
            }),
    {
        self.done = self.done + size as u64;
        let since = if self.done > self.last {
            self.done - self.last
        } else {
            0
        };
        if since >= REPORT_EVERY || self.done >= self.total {
            self.last = self.done;
            true
        } else {
            false
        }
    }

    /// The download finished: done is set to the total. Always forwarded.
    pub fn finish(&mut self) -> (emit: bool)
        ensures
            emit,
            final(self).done == old(self).total,
            final(self).total == old(self).total,
            final(self).last == old(self).last,
            final(self).file == old(self).file,
    {
        self.done = self.total;
        true
    }
}

/// The UI never lags by more than `REPORT_EVERY` bytes: after an update
/// that is not forwarded, less than `REPORT_EVERY` bytes have arrived since
/// the last forwarded one and the file is not complete.
pub proof fn lemma_silent_update_is_small(before_last: u64, done: u64, total: u64)
    requires
        !(done - before_last >= REPORT_EVERY || done >= total),
    ensures
        done < before_last + REPORT_EVERY,
        done < total,
{
}

} // verus!
