//! Size bookkeeping of a model download: the declared size check, the
//! running limit, and when to report progress.

use vstd::prelude::*;

verus! {

/// Bytes between two progress reports (10 MiB).
pub const PROGRESS_INTERVAL_BYTES: u64 = 10485760;

/// Whether a download may start, given the size the server declared (if any).
pub fn declared_size_ok(total: Option<u64>, max_bytes: u64) -> (r: bool)
    ensures
        r == match total {
            Some(t) => t <= max_bytes,
            None => true,
        },
{
    match total {
        Some(t) => t <= max_bytes,
        None => true,
    }
}

/// What to do after a received chunk.
#[derive(PartialEq, Eq, Structural, Clone, Copy, Debug)]
pub enum DownloadStep {
    /// Keep reading.
    Continue,
    /// Keep reading, after reporting progress.
    ReportProgress,
    /// More than the limit has arrived: stop with an error.
    TooLarge,
}

/// Counts the bytes of a download.
pub struct DownloadMeter {
    pub downloaded: u64,
    pub last_progress: u64,
    pub max_bytes: u64,
}

impl DownloadMeter {
    /// Nothing downloaded yet; at most `max_bytes` accepted.
    pub fn new(max_bytes: u64) -> (r: Self)
        ensures
            r.downloaded == 0,
            r.last_progress == 0,
            r.max_bytes == max_bytes,
    {
        DownloadMeter { downloaded: 0, last_progress: 0, max_bytes }
    }

    /// Counts a chunk of `n` bytes.
    pub fn on_chunk(&mut self, n: u64) -> (r: DownloadStep)
        requires
            old(self).last_progress <= old(self).downloaded,
            old(self).downloaded + n <= u64::MAX,
        ensures
            final(self).downloaded == old(self).downloaded + n,
            final(self).max_bytes == old(self).max_bytes,
            final(self).last_progress <= final(self).downloaded,
            final(self).downloaded > final(self).max_bytes ==> r == DownloadStep::TooLarge
                && final(self).last_progress == old(self).last_progress,
            final(self).downloaded <= final(self).max_bytes ==> if final(self).downloaded
                - old(self).last_progress >= PROGRESS_INTERVAL_BYTES {
                r == DownloadStep::ReportProgress && final(self).last_progress
                    == final(self).downloaded
            } else {
                r == DownloadStep::Continue && final(self).last_progress
                    == old(self).last_progress
            },
    {
        self.downloaded = self.downloaded + n;
        if self.downloaded > self.max_bytes {
            return DownloadStep::TooLarge;
        }
        if self.downloaded - self.last_progress >= PROGRESS_INTERVAL_BYTES {
            self.last_progress = self.downloaded;
            DownloadStep::ReportProgress
        } else {
            DownloadStep::Continue
        }
    }
}

} // verus!
