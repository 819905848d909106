use vstd::prelude::*;

use crate::timefmt::MAX_STAMP_MINUTES;

verus! {

/// Cadence at which a target becomes due for rotation.
#[derive(Clone, Copy, PartialEq, Eq, Structural, Debug)]
pub enum RotationInterval {
    Hourly,
    Daily,
    Weekly,
    Monthly,
}

/// What happens to the live file once its contents have been copied
/// into the first backup slot.
#[derive(Clone, Copy, PartialEq, Eq, Structural, Debug)]
pub enum RotationStrategy {
    CopyTruncate,
    Copy,
}

/// One configured rotation target.
pub struct RotatedFile {
    pub path: String,
    pub interval: RotationInterval,
    pub strategy: RotationStrategy,
    pub max_files: usize,
    pub compress: bool,
    pub size: u64,
}

impl RotatedFile {
    /// A target must retain at least one generation.
    pub open spec fn wf(self) -> bool {
        self.max_files >= 1
    }
}

/// Length of each rotation interval in seconds. A month is a fixed
/// thirty days; the schedule is deliberately not calendar-aware.
pub open spec fn interval_duration(interval: RotationInterval) -> int {
    match interval {
        RotationInterval::Hourly => 3600,
        RotationInterval::Daily => 86400,
        RotationInterval::Weekly => 604800,
        RotationInterval::Monthly => 2592000,
    }
}

pub fn interval_duration_seconds(interval: RotationInterval) -> (r: i64)
    ensures
        r == interval_duration(interval),
{
    match interval {
        RotationInterval::Hourly => 3600,
        RotationInterval::Daily => 86400,
        RotationInterval::Weekly => 604800,
        RotationInterval::Monthly => 2592000,
    }
}

/// A target is due by time when the moment one interval past its last
/// rotation has been reached; equality counts as due. A target that was
/// never rotated (`last_minutes` is `None`) is always due.
pub open spec fn due_by_time(
    last_minutes: Option<i64>,
    interval: RotationInterval,
    now_seconds: int,
) -> bool {
    match last_minutes {
        Option::None => true,
        Option::Some(m) => now_seconds >= m * 60 + interval_duration(interval),
    }
}

/// Time-based trigger: `last_minutes` is the recorded last rotation in
/// whole minutes since the Unix epoch, `now_seconds` the current time in
/// seconds since the epoch.
pub fn is_rotation_triggered_on_time(
    last_minutes: Option<i64>,
    interval: RotationInterval,
    now_seconds: i64,
) -> (r: bool)
    requires
        last_minutes matches Some(m) ==> 0 <= m <= MAX_STAMP_MINUTES,
    ensures
        r == due_by_time(last_minutes, interval, now_seconds as int),
{
    match last_minutes {
        Option::None => true,
        Option::Some(m) => {
            let next_due: i64 = m * 60 + interval_duration_seconds(interval);
            now_seconds >= next_due
        },
    }
}

/// Size-based trigger: due exactly when the live file is strictly larger
/// than the configured threshold.
pub fn is_rotation_triggered_due_to_size(file: &RotatedFile, file_size: u64) -> (r: bool)
    ensures
        r == (file.size < file_size),
{
    file.size < file_size
}

/// A target is rotated when either trigger fires.
pub fn is_rotation_triggered(
    file: &RotatedFile,
    last_minutes: Option<i64>,
    now_seconds: i64,
    file_size: u64,
) -> (r: bool)
    requires
        last_minutes matches Some(m) ==> 0 <= m <= MAX_STAMP_MINUTES,
    ensures
        r == (due_by_time(last_minutes, file.interval, now_seconds as int) || file.size
            < file_size),
{
    is_rotation_triggered_on_time(last_minutes, file.interval, now_seconds)
        || is_rotation_triggered_due_to_size(file, file_size)
}

/// Interval names accepted in the configuration.
pub open spec fn interval_of_name(name: Seq<char>) -> Option<RotationInterval> {
    if name == "hourly"@ {
        Some(RotationInterval::Hourly)
    } else if name == "daily"@ {
        Some(RotationInterval::Daily)
    } else if name == "weekly"@ {
        Some(RotationInterval::Weekly)
    } else if name == "monthly"@ {
        Some(RotationInterval::Monthly)
    } else {
        None
    }
}

pub fn parse_interval(name: &str) -> (r: Option<RotationInterval>)
    ensures
        r == interval_of_name(name@),
{
    if crate::text::str_eq(name, "hourly") {
        Some(RotationInterval::Hourly)
    } else if crate::text::str_eq(name, "daily") {
        Some(RotationInterval::Daily)
    } else if crate::text::str_eq(name, "weekly") {
        Some(RotationInterval::Weekly)
    } else if crate::text::str_eq(name, "monthly") {
        Some(RotationInterval::Monthly)
    } else {
        None
    }
}

/// Strategy names accepted in the configuration; every spelling but
/// `nocopytruncate` selects truncation.
pub open spec fn strategy_of_name(name: Seq<char>) -> Option<RotationStrategy> {
    if name == "copy"@ || name == "copytruncate"@ || name == "create"@ {
        Some(RotationStrategy::CopyTruncate)
    } else if name == "nocopytruncate"@ {
        Some(RotationStrategy::Copy)
    } else {
        None
    }
}

pub fn parse_strategy(name: &str) -> (r: Option<RotationStrategy>)
    ensures
        r == strategy_of_name(name@),
{
    if crate::text::str_eq(name, "copy") || crate::text::str_eq(name, "copytruncate")
        || crate::text::str_eq(name, "create") {
        Some(RotationStrategy::CopyTruncate)
    } else if crate::text::str_eq(name, "nocopytruncate") {
        Some(RotationStrategy::Copy)
    } else {
        None
    }
}

} // verus!
