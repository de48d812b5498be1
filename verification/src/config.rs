//! The three inputs of a run, and their validation.

use vstd::prelude::*;
use crate::input::{integer_of, parse_integer};

verus! {

/// The largest number of phases, and the largest batch size, that a run can
/// have. With both at most this, the items of a run can be counted in 64
/// bits.
pub const MAX_COUNT: i64 = 0xFFFF_FFFF;

/// Why a set of inputs was rejected. The inputs are examined in the order
/// phase count, delay, batch size, and the first offender is reported.
#[derive(Clone, Copy, Debug, PartialEq, Eq, Structural)]
pub enum ConfigError {
    /// The phase count is no whole number from 0 to `MAX_COUNT`.
    InvalidPhaseCount,
    /// The delay between phases is no whole number from 0 on that fits in
    /// 64 bits.
    InvalidDelay,
    /// The batch size is no whole number from 0 to `MAX_COUNT`.
    InvalidBatchSize,
}

impl ConfigError {
    /// The text shown to whoever supplied the inputs.
    pub open spec fn text(self) -> Seq<char> {
        match self {
            ConfigError::InvalidPhaseCount =>
                "the number of phases must be a whole number from 0 to 4294967295"@,
            ConfigError::InvalidDelay =>
                "the delay between phases must be a whole number from 0 to 9223372036854775807"@,
            ConfigError::InvalidBatchSize =>
                "the batch size must be a whole number from 0 to 4294967295"@,
        }
    }

    /// The text shown to whoever supplied the inputs.
    pub fn message(&self) -> (text: &'static str)
        ensures
            text@ == self.text(),
    {
        match self {
            ConfigError::InvalidPhaseCount =>
                "the number of phases must be a whole number from 0 to 4294967295",
            ConfigError::InvalidDelay =>
                "the delay between phases must be a whole number from 0 to 9223372036854775807",
            ConfigError::InvalidBatchSize =>
                "the batch size must be a whole number from 0 to 4294967295",
        }
    }
}

/// The validated inputs of a run.
#[derive(Clone, Copy, Debug, PartialEq, Eq, Structural)]
pub struct SimulationConfig {
    /// How many batches the producer generates.
    pub phases: u32,
    /// How long the producer pauses after each batch, in time units.
    pub delay: u64,
    /// How many items make up one batch.
    pub batch_size: u32,
}

/// Whether the input is a count: a number from 0 to `MAX_COUNT`.
pub open spec fn is_count(input: Option<i64>) -> bool {
    input matches Some(count) && 0 <= count <= MAX_COUNT
}

/// What the three inputs amount to, each of them a number or nothing: the
/// configuration if all three are valid, and otherwise the error that names
/// the first one that is not.
pub open spec fn validated(phases: Option<i64>, delay: Option<i64>, batch_size: Option<i64>)
    -> Result<SimulationConfig, ConfigError> {
    if !is_count(phases) {
        Err(ConfigError::InvalidPhaseCount)
    } else if !(delay matches Some(pause) && pause >= 0) {
        Err(ConfigError::InvalidDelay)
    } else if !is_count(batch_size) {
        Err(ConfigError::InvalidBatchSize)
    } else {
        Ok(
            SimulationConfig {
                phases: phases->Some_0 as u32,
                delay: delay->Some_0 as u64,
                batch_size: batch_size->Some_0 as u32,
            },
        )
    }
}

impl SimulationConfig {
    /// The number of items that a run with these inputs generates.
    pub open spec fn total(self) -> nat {
        (self.phases * self.batch_size) as nat
    }

    /// Accepts the three inputs if none of them is negative and both counts
    /// are at most `MAX_COUNT`.
    pub fn validate(phases: i64, delay: i64, batch_size: i64) -> (result: Result<
        SimulationConfig,
        ConfigError,
    >)
        ensures
            result == validated(Some(phases), Some(delay), Some(batch_size)),
            result is Ok <==> 0 <= phases <= MAX_COUNT && 0 <= delay && 0 <= batch_size
                <= MAX_COUNT,
            result matches Ok(config) ==> config.phases == phases && config.delay == delay
                && config.batch_size == batch_size,
    {
        SimulationConfig::from_inputs(Some(phases), Some(delay), Some(batch_size))
    }

    /// Accepts three lines of text if each of them holds a valid input.
    pub fn from_text(phases: &str, delay: &str, batch_size: &str) -> (result: Result<
        SimulationConfig,
        ConfigError,
    >)
        ensures
            result == validated(integer_of(phases@), integer_of(delay@), integer_of(batch_size@)),
    {
        SimulationConfig::from_inputs(
            parse_integer(phases),
            parse_integer(delay),
            parse_integer(batch_size),
        )
    }

    /// Accepts the three inputs if each of them is a number, none of them
    /// is negative and both counts are at most `MAX_COUNT`.
    pub fn from_inputs(phases: Option<i64>, delay: Option<i64>, batch_size: Option<i64>) -> (result:
        Result<SimulationConfig, ConfigError>)
        ensures
            result == validated(phases, delay, batch_size),
    {
        let phases: u32 = match phases {
            Some(count) if 0 <= count && count <= MAX_COUNT => count as u32,
            _ => {
                return Err(ConfigError::InvalidPhaseCount);
            },
        };
        let delay: u64 = match delay {
            Some(pause) if pause >= 0 => pause as u64,
            _ => {
                return Err(ConfigError::InvalidDelay);
            },
        };
        let batch_size: u32 = match batch_size {
            Some(count) if 0 <= count && count <= MAX_COUNT => count as u32,
            _ => {
                return Err(ConfigError::InvalidBatchSize);
            },
        };
        Ok(SimulationConfig { phases, delay, batch_size })
    }

    /// The number of items that a run with these inputs generates.
    pub fn total_items(&self) -> (total: u64)
        ensures
            total == self.total(),
    {
        proof {
            lemma_product_fits(self.phases, self.batch_size);
        }
        (self.phases as u64) * (self.batch_size as u64)
    }
}

/// The product of two 32-bit counts fits in 64 bits.
pub proof fn lemma_product_fits(a: u32, b: u32)
    ensures
        0 <= a * b <= 0xFFFF_FFFE_0000_0001,
{
    assert(0 <= a * b <= 0xFFFF_FFFF * 0xFFFF_FFFF) by (nonlinear_arith)
        requires
            0 <= a <= 0xFFFF_FFFF,
            0 <= b <= 0xFFFF_FFFF,
    ;
}

} // verus!
