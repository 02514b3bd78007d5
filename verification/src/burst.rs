//! Burst-detection building blocks: camera drive modes parsed from metadata
//! text, per-camera summaries, and the grouping of time-sorted captures into
//! burst spans by gap and size limits.

use vstd::prelude::*;

use crate::text::{contains_seq, lower_of, lowercase, str_contains};

verus! {

/// A camera's drive mode as reported in its metadata.
#[derive(Clone, Copy, Debug, PartialEq, Eq, Structural)]
pub enum DriveMode {
    Single,
    ContinuousLow,
    ContinuousHigh,
    Unknown,
}

impl DriveMode {
    pub open spec fn spec_is_continuous(self) -> bool {
        self == DriveMode::ContinuousLow || self == DriveMode::ContinuousHigh
    }

    /// Whether this drive mode indicates continuous shooting.
    pub fn is_continuous(&self) -> (r: bool)
        ensures
            r == self.spec_is_continuous(),
    {
        matches!(self, DriveMode::ContinuousLow | DriveMode::ContinuousHigh)
    }
}

/// The drive mode named by a lowercased combination of the drive-mode and
/// shooting-mode fields: continuous modes split into high and low, with high
/// the default; otherwise single or unknown.
pub open spec fn spec_parse_drive_mode(lower: Seq<char>) -> DriveMode {
    if contains_seq(lower, "continuous"@) {
        if contains_seq(lower, "high"@) || contains_seq(lower, "hi"@) {
            DriveMode::ContinuousHigh
        } else if contains_seq(lower, "low"@) || contains_seq(lower, "lo"@) {
            DriveMode::ContinuousLow
        } else {
            DriveMode::ContinuousHigh
        }
    } else if contains_seq(lower, "single"@) {
        DriveMode::Single
    } else {
        DriveMode::Unknown
    }
}

/// Parses the drive mode from the raw drive-mode and shooting-mode fields,
/// joined with a space and compared case-insensitively.
pub fn parse_drive_mode(drive_mode_raw: &str, shooting_mode_raw: &str) -> (r: DriveMode)
    ensures
        r == spec_parse_drive_mode(lower_of(drive_mode_raw@ + " "@ + shooting_mode_raw@)),
{
    let mut combined = String::new();
    combined.append(drive_mode_raw);
    combined.append(" ");
    combined.append(shooting_mode_raw);
    proof {
        assert(combined@ =~= drive_mode_raw@ + " "@ + shooting_mode_raw@);
    }
    let lower = lowercase(combined.as_str());
    let ls = lower.as_str();
    if str_contains(ls, "continuous") {
        if str_contains(ls, "high") || str_contains(ls, "hi") {
            DriveMode::ContinuousHigh
        } else if str_contains(ls, "low") || str_contains(ls, "lo") {
            DriveMode::ContinuousLow
        } else {
            DriveMode::ContinuousHigh
        }
    } else if str_contains(ls, "single") {
        DriveMode::Single
    } else {
        DriveMode::Unknown
    }
}

/// The start of the run containing index `i` when grouping time-sorted
/// frames by drive mode: a frame continues a run only when both it and the
/// previous frame were shot in a continuous mode; any other frame starts a
/// run of its own.
pub open spec fn spec_run_start(modes: Seq<DriveMode>, i: int) -> int
    decreases i,
{
    if i <= 0 {
        0
    } else if modes[i].spec_is_continuous() && modes[i - 1].spec_is_continuous() {
        spec_run_start(modes, i - 1)
    } else {
        i
    }
}

/// Splits time-sorted frames into consecutive runs by drive mode: maximal
/// stretches of continuous-mode frames stay together, every other frame
/// stands alone. Each run comes with whether it is a burst — at least two
/// frames, which only continuous stretches reach; the runs cover the input
/// in order.
pub fn continuous_runs(modes: &Vec<DriveMode>) -> (r: Vec<(usize, usize, bool)>)
    ensures
        modes@.len() == 0 ==> r@.len() == 0,
        modes@.len() > 0 ==> r@.len() >= 1 && r@[0].0 == 0 && r@[r@.len() - 1].1 == modes@.len(),
        forall|j: int|
            0 <= j < r@.len() ==> (#[trigger] r@[j]).0 < r@[j].1 <= modes@.len() && (r@[j].2 == (
            r@[j].1 - r@[j].0 >= 2)),
        forall|j: int| 0 <= j < r@.len() - 1 ==> (#[trigger] r@[j]).1 == r@[j + 1].0,
        forall|j: int, i: int|
            #![trigger r@[j], spec_run_start(modes@, i)]
            0 <= j < r@.len() && r@[j].0 <= i < r@[j].1 ==> spec_run_start(modes@, i) == r@[j].0,
{
    let ghost ms = modes@;
    let n = modes.len();
    let mut r: Vec<(usize, usize, bool)> = Vec::new();
    if n == 0 {
        return r;
    }
    let mut start: usize = 0;
    let mut i: usize = 1;
    while i < n
        invariant
            1 <= i <= n,
            n == ms.len(),
            ms == modes@,
            start < i,
            forall|t: int| start <= t < i ==> #[trigger] spec_run_start(ms, t) == start,
            r@.len() == 0 ==> start == 0,
            r@.len() > 0 ==> r@[0].0 == 0 && r@[r@.len() - 1].1 == start,
            forall|j: int|
                0 <= j < r@.len() ==> (#[trigger] r@[j]).0 < r@[j].1 <= n && (r@[j].2 == (r@[j].1
                    - r@[j].0 >= 2)),
            forall|j: int| 0 <= j < r@.len() - 1 ==> (#[trigger] r@[j]).1 == r@[j + 1].0,
            forall|j: int, t: int|
                #![trigger r@[j], spec_run_start(ms, t)]
                0 <= j < r@.len() && r@[j].0 <= t < r@[j].1 ==> spec_run_start(ms, t) == r@[j].0,
        decreases n - i,
    {
        let ghost prev_start = start as int;
        proof {
            assert(spec_run_start(ms, i as int - 1) == prev_start);
        }
        let extends: bool = modes[i].is_continuous() && modes[i - 1].is_continuous();
        proof {
            assert(spec_run_start(ms, i as int) == if extends {
                prev_start
            } else {
                i as int
            });
        }
        if !extends {
            r.push((start, i, i - start >= 2));
            start = i;
        }
        i = i + 1;
    }
    r.push((start, n, n - start >= 2));
    r
}

/// A per-camera summary over a processed collection.
#[derive(Clone, Debug)]
pub struct CameraInfo {
    pub serial: String,
    pub make: String,
    pub model: String,
    pub image_count: usize,
    pub burst_count: usize,
}

/// Limits for gap-based burst grouping.
#[derive(Clone, Copy, Debug, PartialEq, Eq, Structural)]
pub struct BurstConfig {
    /// Largest gap between consecutive shots inside one burst, milliseconds.
    pub max_gap_ms: i64,
    /// Smallest number of shots that makes a burst.
    pub min_burst_size: usize,
    /// Largest number of shots in one burst before it is split.
    pub max_burst_size: usize,
}

impl Default for BurstConfig {
    /// Two seconds between shots at most, at least three shots, and at most
    /// two hundred shots in one burst.
    fn default() -> (r: Self)
        ensures
            r.max_gap_ms == 2000,
            r.min_burst_size == 3,
            r.max_burst_size == 200,
    {
        BurstConfig { max_gap_ms: 2000, min_burst_size: 3, max_burst_size: 200 }
    }
}

/// The start of the span containing index `i` when grouping time-sorted
/// captures: a new span begins where the gap from the previous capture
/// exceeds the allowed maximum, or where the span has already reached the
/// maximum burst size.
pub open spec fn spec_span_start(times: Seq<i64>, max_gap_ms: i64, max_size: nat, i: int) -> int
    decreases i,
{
    if i <= 0 {
        0
    } else if times[i] - times[i - 1] > max_gap_ms || i - spec_span_start(
        times,
        max_gap_ms,
        max_size,
        i - 1,
    ) >= max_size {
        i
    } else {
        spec_span_start(times, max_gap_ms, max_size, i - 1)
    }
}

/// Groups captures into bursts by time gaps.
pub struct BurstDetector {
    pub config: BurstConfig,
}

impl BurstDetector {
    /// A detector with the given limits.
    pub fn new(config: BurstConfig) -> (r: Self)
        ensures
            r.config == config,
    {
        BurstDetector { config }
    }

    /// A detector with the default limits.
    pub fn with_default_config() -> (r: Self)
        ensures
            r.config.max_gap_ms == 2000,
            r.config.min_burst_size == 3,
            r.config.max_burst_size == 200,
    {
        Self::new(BurstConfig::default())
    }

    /// Splits capture times, sorted ascending, into consecutive spans, one
    /// burst candidate each: a span breaks where the gap to the previous
    /// capture exceeds the configured maximum or the span has reached the
    /// maximum burst size. Each span comes with whether it meets the minimum
    /// burst size; the spans cover the input in order.
    pub fn detect_spans(&self, capture_times_ms: &Vec<i64>) -> (r: Vec<(usize, usize, bool)>)
        ensures
            capture_times_ms@.len() == 0 ==> r@.len() == 0,
            capture_times_ms@.len() > 0 ==> r@.len() >= 1 && r@[0].0 == 0 && r@[r@.len() - 1].1
                == capture_times_ms@.len(),
            forall|j: int|
                0 <= j < r@.len() ==> (#[trigger] r@[j]).0 < r@[j].1 <= capture_times_ms@.len()
                    && (r@[j].2 == (r@[j].1 - r@[j].0 >= self.config.min_burst_size)),
            forall|j: int| 0 <= j < r@.len() - 1 ==> (#[trigger] r@[j]).1 == r@[j + 1].0,
            forall|j: int, i: int|
                #![trigger r@[j], spec_span_start(capture_times_ms@, self.config.max_gap_ms, self.config.max_burst_size as nat, i)]
                0 <= j < r@.len() && r@[j].0 <= i < r@[j].1 ==> spec_span_start(
                    capture_times_ms@,
                    self.config.max_gap_ms,
                    self.config.max_burst_size as nat,
                    i,
                ) == r@[j].0,
    {
        let ghost times = capture_times_ms@;
        let ghost gap = self.config.max_gap_ms;
        let ghost size = self.config.max_burst_size as nat;
        let n = capture_times_ms.len();
        let mut r: Vec<(usize, usize, bool)> = Vec::new();
        if n == 0 {
            return r;
        }
        let mut start: usize = 0;
        let mut i: usize = 1;
        while i < n
            invariant
                1 <= i <= n,
                n == times.len(),
                times == capture_times_ms@,
                gap == self.config.max_gap_ms,
                size == self.config.max_burst_size as nat,
                start < i,
                forall|t: int|
                    start <= t < i ==> #[trigger] spec_span_start(times, gap, size, t) == start,
                r@.len() == 0 ==> start == 0,
                r@.len() > 0 ==> r@[0].0 == 0 && r@[r@.len() - 1].1 == start,
                forall|j: int|
                    0 <= j < r@.len() ==> (#[trigger] r@[j]).0 < r@[j].1 <= n && (r@[j].2 == (
                    r@[j].1 - r@[j].0 >= self.config.min_burst_size)),
                forall|j: int| 0 <= j < r@.len() - 1 ==> (#[trigger] r@[j]).1 == r@[j + 1].0,
                forall|j: int, t: int|
                    #![trigger r@[j], spec_span_start(times, gap, size, t)]
                    0 <= j < r@.len() && r@[j].0 <= t < r@[j].1 ==> spec_span_start(
                        times,
                        gap,
                        size,
                        t,
                    ) == r@[j].0,
            decreases n - i,
        {
            let ghost prev_start = start as int;
            proof {
                assert(spec_span_start(times, gap, size, i as int - 1) == prev_start);
            }
            let gap_wide: i128 = capture_times_ms[i] as i128 - capture_times_ms[i - 1] as i128;
            let breaks: bool = gap_wide > self.config.max_gap_ms as i128 || i - start
                >= self.config.max_burst_size;
            proof {
                assert(breaks == (times[i as int] - times[i as int - 1] > gap || i as int
                    - spec_span_start(times, gap, size, i as int - 1) >= size));
                assert(spec_span_start(times, gap, size, i as int) == if breaks {
                    i as int
                } else {
                    prev_start
                });
            }
            if breaks {
                r.push((start, i, i - start >= self.config.min_burst_size));
                start = i;
            }
            i = i + 1;
        }
        r.push((start, n, n - start >= self.config.min_burst_size));
        r
    }
}

} // verus!
