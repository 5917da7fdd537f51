//! The settings of the query-engine session used by analysis, sorting, and Parquet output.
//!
//! The session gets a bounded memory pool, sort repartitioning and disk spilling, and keeps
//! existing sort order where possible; file-scan repartitioning stays disabled because input
//! providers expose their own partitions. An omitted memory limit becomes half of total
//! physical memory; an omitted target partition count keeps the engine's default.

use vstd::prelude::*;

verus! {

/// The sort spill reservation used when the environment does not override it.
pub const DEFAULT_SORT_SPILL_RESERVATION_BYTES: usize = 268435456;

/// The in-place sort threshold; one byte disables in-place sorting.
pub const NO_IN_PLACE_SORT_THRESHOLD_BYTES: usize = 1;

/// Names the environment variable that overrides the sort spill reservation.
pub const SORT_SPILL_RESERVATION_ENV: &'static str = "OPT_PARQUET_DF_SORT_SPILL_RESERVATION_BYTES";

/// Prefixes the session-scoped spill directory.
pub const SPILL_DIRECTORY_PREFIX: &'static str = "opt-parquet-datafusion-spill-";

/// A session request that cannot be honoured.
#[derive(Clone, Copy, Debug, PartialEq, Eq, Structural)]
pub enum SessionError {
    /// An explicit memory limit of zero bytes.
    ZeroMemoryLimit,
    /// An explicit target partition count of zero.
    ZeroTargetPartitions,
    /// Total physical memory was reported as less than two bytes.
    UnknownPhysicalMemory,
    /// Half of total physical memory does not fit in this platform's address space.
    MemoryExceedsAddressSpace,
}

impl SessionError {
    /// Describe the refused request.
    pub fn message(&self) -> (message: &'static str)
        ensures
            message@ == spec_session_error_message(*self),
    {
        match self {
            SessionError::ZeroMemoryLimit => "DataFusion memory limit must be >= 1 byte",
            SessionError::ZeroTargetPartitions => "DataFusion target partitions must be >= 1",
            SessionError::UnknownPhysicalMemory => "unable to determine total physical memory",
            SessionError::MemoryExceedsAddressSpace => "half of total physical memory exceeds this platform's address space",
        }
    }
}

pub open spec fn spec_session_error_message(e: SessionError) -> Seq<char> {
    match e {
        SessionError::ZeroMemoryLimit => "DataFusion memory limit must be >= 1 byte"@,
        SessionError::ZeroTargetPartitions => "DataFusion target partitions must be >= 1"@,
        SessionError::UnknownPhysicalMemory => "unable to determine total physical memory"@,
        SessionError::MemoryExceedsAddressSpace => "half of total physical memory exceeds this platform's address space"@,
    }
}

/// Half of total physical memory, as the default memory limit.
pub fn half_physical_memory(total_memory_bytes: u64) -> (limit: Result<usize, SessionError>)
    ensures
        total_memory_bytes / 2 == 0 ==> limit == Err::<usize, SessionError>(
            SessionError::UnknownPhysicalMemory,
        ),
        total_memory_bytes / 2 > usize::MAX ==> limit == Err::<usize, SessionError>(
            SessionError::MemoryExceedsAddressSpace,
        ),
        0 < total_memory_bytes / 2 <= usize::MAX ==> limit == Ok::<usize, SessionError>(
            (total_memory_bytes / 2) as usize,
        ),
{
    let memory_limit_bytes = total_memory_bytes / 2;
    if memory_limit_bytes == 0 {
        return Err(SessionError::UnknownPhysicalMemory);
    }
    if memory_limit_bytes > usize::MAX as u64 {
        return Err(SessionError::MemoryExceedsAddressSpace);
    }
    Ok(memory_limit_bytes as usize)
}

/// Whether `c` is an ASCII decimal digit.
pub open spec fn is_decimal_digit(c: char) -> bool {
    48 <= (c as int) <= 57
}

/// The value of a sequence of decimal digits.
pub open spec fn digits_value(digits: Seq<char>) -> int
    decreases digits.len(),
{
    if digits.len() == 0 {
        0
    } else {
        digits_value(digits.drop_last()) * 10 + ((digits.last() as int) - 48)
    }
}

/// The digits of `text` after an optional leading `+`.
pub open spec fn unsigned_digits(text: Seq<char>) -> Seq<char> {
    if text.len() > 0 && text[0] == '+' {
        text.drop_first()
    } else {
        text
    }
}

/// What `str::parse::<usize>` gives for `text`: the value of the decimal digits after an
/// optional leading `+`, or `None` where there are no digits, a character is not an ASCII
/// digit, or the value exceeds `usize::MAX`.
pub open spec fn parsed_usize(text: Seq<char>) -> Option<usize> {
    let digits = unsigned_digits(text);
    if digits.len() > 0 && (forall|i: int| 0 <= i < digits.len() ==> is_decimal_digit(#[trigger] digits[i]))
        && digits_value(digits) <= usize::MAX {
        Some(digits_value(digits) as usize)
    } else {
        None
    }
}

proof fn lemma_digits_value_grows(digits: Seq<char>, k: int, m: int)
    requires
        0 <= k <= m <= digits.len(),
        forall|i: int| 0 <= i < digits.len() ==> is_decimal_digit(#[trigger] digits[i]),
    ensures
        0 <= digits_value(digits.subrange(0, k)) <= digits_value(digits.subrange(0, m)),
    decreases m - k,
{
    if k < m {
        lemma_digits_value_grows(digits, k, m - 1);
        let longer = digits.subrange(0, m);
        assert(longer.drop_last() =~= digits.subrange(0, m - 1));
        assert(is_decimal_digit(digits[m - 1]));
    } else {
        lemma_digits_value_nonneg(digits.subrange(0, k));
    }
}

proof fn lemma_digits_value_nonneg(digits: Seq<char>)
    requires
        forall|i: int| 0 <= i < digits.len() ==> is_decimal_digit(#[trigger] digits[i]),
    ensures
        digits_value(digits) >= 0,
    decreases digits.len(),
{
    if digits.len() > 0 {
        let shorter = digits.drop_last();
        assert forall|i: int| 0 <= i < shorter.len() implies is_decimal_digit(#[trigger] shorter[i]) by {
            assert(shorter[i] == digits[i]);
        }
        lemma_digits_value_nonneg(shorter);
        assert(is_decimal_digit(digits[digits.len() - 1]));
    }
}

/// Parse `text` as a decimal `usize` the way `str::parse::<usize>` does, keeping the value and
/// dropping the error.
fn parse_usize(text: &str) -> (value: Option<usize>)
    ensures
        value == parsed_usize(text@),
{
    let n = text.unicode_len();
    if n == 0 {
        return None;
    }
    let mut i: usize = 0;
    if text.get_char(0) == '+' {
        i = 1;
    }
    let start = i;
    let ghost digits = unsigned_digits(text@);
    proof {
        if start == 1 {
            assert(digits =~= text@.subrange(1, n as int));
        } else {
            assert(digits =~= text@.subrange(0, n as int));
        }
    }
    if start == n {
        return None;
    }
    let mut value: usize = 0;
    proof {
        assert(digits.subrange(0, 0) =~= Seq::<char>::empty());
    }
    while i < n
        invariant
            n == text@.len(),
            start <= i <= n,
            start < n,
            digits == text@.subrange(start as int, n as int),
            digits == unsigned_digits(text@),
            forall|t: int| 0 <= t < i - start ==> is_decimal_digit(#[trigger] digits[t]),
            value == digits_value(digits.subrange(0, i - start)),
        decreases n - i,
    {
        let c = text.get_char(i);
        let code = c as u32;
        assert(digits[i - start] == c);
        assert(code as int == c as int);
        if code < 48 || code > 57 {
            proof {
                assert(!is_decimal_digit(digits[i - start]));
            }
            return None;
        }
        let next = match value.checked_mul(10) {
            Some(v) => v.checked_add((code - 48) as usize),
            None => None,
        };
        proof {
            let longer = digits.subrange(0, i - start + 1);
            assert(longer.drop_last() =~= digits.subrange(0, i - start));
            assert(longer.last() == c);
        }
        match next {
            Some(v) => {
                value = v;
            },
            None => {
                proof {
                    let k = i - start + 1;
                    assert(digits_value(digits.subrange(0, k)) == value * 10 + (code - 48));
                    assert(value * 10 + (code - 48) > usize::MAX);
                    if forall|t: int| 0 <= t < digits.len() ==> is_decimal_digit(#[trigger] digits[t]) {
                        lemma_digits_value_grows(digits, k, digits.len() as int);
                        assert(digits.subrange(0, digits.len() as int) =~= digits);
                    }
                }
                return None;
            },
        }
        i = i + 1;
    }
    proof {
        assert(digits.subrange(0, n - start) =~= digits);
    }
    Some(value)
}

/// The positive value that a parse gave, if any.
pub open spec fn positive(parsed: Option<usize>) -> Option<usize> {
    match parsed {
        Some(n) => if n > 0 {
            Some(n)
        } else {
            None
        },
        None => None,
    }
}

/// Read a positive `usize` setting from the text of an environment variable, if it is set.
pub fn env_usize(value: Option<&str>) -> (setting: Option<usize>)
    ensures
        setting == match value {
            Some(text) => positive(parsed_usize(text@)),
            None => None,
        },
{
    match value {
        Some(text) => positive_setting(parse_usize(text)),
        None => None,
    }
}

/// Keep a parsed setting only where it is positive.
pub fn positive_setting(parsed: Option<usize>) -> (setting: Option<usize>)
    ensures
        setting == positive(parsed),
{
    match parsed {
        Some(n) => if n > 0 {
            Some(n)
        } else {
            None
        },
        None => None,
    }
}

/// The sort spill reservation: the environment's positive override, else the default.
pub fn configured_sort_spill_reservation_bytes(env_value: Option<&str>) -> (bytes: usize)
    ensures
        bytes == match env_usize_spec(env_value) {
            Some(n) => n,
            None => DEFAULT_SORT_SPILL_RESERVATION_BYTES,
        },
        bytes > 0,
{
    match env_usize(env_value) {
        Some(n) => n,
        None => DEFAULT_SORT_SPILL_RESERVATION_BYTES,
    }
}

pub open spec fn env_usize_spec(value: Option<&str>) -> Option<usize> {
    match value {
        Some(text) => positive(parsed_usize(text@)),
        None => None,
    }
}

/// The settings that one query-engine session is created with.
#[derive(Clone, Copy, Debug, PartialEq, Eq, Structural)]
pub struct SessionSettings {
    /// The memory pool limit.
    pub memory_limit_bytes: usize,
    /// The target partition count, or the engine's default.
    pub target_partitions: Option<usize>,
    /// Bytes reserved per sort for spilling.
    pub sort_spill_reservation_bytes: usize,
    /// The in-place sort threshold.
    pub sort_in_place_threshold_bytes: usize,
    /// Whether file statistics are collected.
    pub collect_statistics: bool,
    /// Whether file scans are repartitioned.
    pub repartition_file_scans: bool,
    /// Whether sorts are repartitioned.
    pub repartition_sorts: bool,
    /// Whether existing sort orders are preferred.
    pub prefer_existing_sort: bool,
}

/// The settings a session request resolves to, or why it is refused.
///
/// An explicit zero memory limit or zero partition count is refused first. The default memory
/// limit is resolved before it is known whether it is needed, so an undeterminable physical
/// memory size refuses the request even where an explicit limit was given.
pub open spec fn spec_session_settings(
    memory_limit_bytes: Option<usize>,
    target_partitions: Option<usize>,
    total_memory_bytes: u64,
    sort_spill_reservation_bytes: usize,
) -> Result<SessionSettings, SessionError> {
    if memory_limit_bytes == Some(0usize) {
        Err(SessionError::ZeroMemoryLimit)
    } else if target_partitions == Some(0usize) {
        Err(SessionError::ZeroTargetPartitions)
    } else if total_memory_bytes / 2 == 0 {
        Err(SessionError::UnknownPhysicalMemory)
    } else if total_memory_bytes / 2 > usize::MAX {
        Err(SessionError::MemoryExceedsAddressSpace)
    } else {
        Ok(
            SessionSettings {
                memory_limit_bytes: match memory_limit_bytes {
                    Some(m) => m,
                    None => (total_memory_bytes / 2) as usize,
                },
                target_partitions,
                sort_spill_reservation_bytes,
                sort_in_place_threshold_bytes: NO_IN_PLACE_SORT_THRESHOLD_BYTES,
                collect_statistics: false,
                repartition_file_scans: false,
                repartition_sorts: true,
                prefer_existing_sort: true,
            },
        )
    }
}

/// Resolve a session request against total physical memory and the configured sort spill
/// reservation.
pub fn session_settings(
    memory_limit_bytes: Option<usize>,
    target_partitions: Option<usize>,
    total_memory_bytes: u64,
    sort_spill_reservation_bytes: usize,
) -> (settings: Result<SessionSettings, SessionError>)
    ensures
        settings == spec_session_settings(
            memory_limit_bytes,
            target_partitions,
            total_memory_bytes,
            sort_spill_reservation_bytes,
        ),
{
    if memory_limit_bytes == Some(0usize) {
        return Err(SessionError::ZeroMemoryLimit);
    }
    if target_partitions == Some(0usize) {
        return Err(SessionError::ZeroTargetPartitions);
    }
    let default_limit = match half_physical_memory(total_memory_bytes) {
        Ok(limit) => limit,
        Err(e) => return Err(e),
    };
    let memory_limit = match memory_limit_bytes {
        Some(m) => m,
        None => default_limit,
    };
    Ok(
        SessionSettings {
            memory_limit_bytes: memory_limit,
            target_partitions,
            sort_spill_reservation_bytes,
            sort_in_place_threshold_bytes: NO_IN_PLACE_SORT_THRESHOLD_BYTES,
            collect_statistics: false,
            repartition_file_scans: false,
            repartition_sorts: true,
            prefer_existing_sort: true,
        },
    )
}

} // verus!
