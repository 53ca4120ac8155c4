//! Section configuration: names, shell commands and execution intervals,
//! together with the validation rules the engine imposes at startup.

use vstd::prelude::*;

verus! {

/// How often one section's command is executed.
#[derive(Debug, Clone, Copy, PartialEq, Eq, Structural)]
pub enum Interval {
    /// Execute exactly once, then freeze the section's slot.
    Oneshot,
    /// Execute periodically, with the given whole-second period.
    Seconds(u64),
}

impl Default for Interval {
    /// A section without an explicit interval runs once per second.
    fn default() -> (r: Self)
        ensures
            r == Interval::Seconds(1u64),
    {
        Interval::Seconds(1)
    }
}

/// One configured unit of work: a display name and a shell command,
/// executed on the given interval.
#[derive(Debug, Clone)]
pub struct Section {
    pub name: String,
    pub command: String,
    pub interval: Interval,
}

/// The whole engine configuration: the ordered section list and the
/// process-wide minimum interval between two snapshot emissions.
#[derive(Debug, Clone)]
pub struct Config {
    /// Minimum time between two snapshot emissions, in milliseconds.
    pub min_interval: u64,
    pub sections: Vec<Section>,
}

/// Why a configuration was rejected at startup.
#[derive(Debug, Clone, PartialEq, Eq)]
pub enum ConfigError {
    /// The section list is empty.
    EmptySections,
    /// Two sections share the same name, so their identities collide.
    DuplicateSectionName(String),
    /// A periodic interval below one second was given.
    IntervalTooSmall,
    /// The minimum emission interval is below 100 milliseconds.
    MinIntervalTooSmall,
    /// An interval keyword other than `oneshot` was given.
    InvalidInterval,
}

impl Config {
    /// Default minimum time between two emissions: 100 milliseconds.
    pub fn default_min_interval() -> (r: u64)
        ensures
            r == 100u64,
    {
        100
    }
}

/// The characters of the keyword that selects [`Interval::Oneshot`],
/// compared ignoring ASCII case.
pub open spec fn is_oneshot_keyword(s: Seq<char>) -> bool {
    &&& s.len() == 7
    &&& (s[0] == 'o' || s[0] == 'O')
    &&& (s[1] == 'n' || s[1] == 'N')
    &&& (s[2] == 'e' || s[2] == 'E')
    &&& (s[3] == 's' || s[3] == 'S')
    &&& (s[4] == 'h' || s[4] == 'H')
    &&& (s[5] == 'o' || s[5] == 'O')
    &&& (s[6] == 't' || s[6] == 'T')
}

impl Interval {
    /// Parse the keyword form of an interval: exactly the word `oneshot`,
    /// ignoring ASCII case; anything else is rejected.
    pub fn from_keyword(s: &str) -> (r: Result<Interval, ConfigError>)
        ensures
            r == if is_oneshot_keyword(s@) {
                Result::<Interval, ConfigError>::Ok(Interval::Oneshot)
            } else {
                Result::<Interval, ConfigError>::Err(ConfigError::InvalidInterval)
            },
    {
        if s.unicode_len() != 7 {
            return Err(ConfigError::InvalidInterval);
        }
        let c0 = s.get_char(0);
        let c1 = s.get_char(1);
        let c2 = s.get_char(2);
        let c3 = s.get_char(3);
        let c4 = s.get_char(4);
        let c5 = s.get_char(5);
        let c6 = s.get_char(6);
        if (c0 == 'o' || c0 == 'O') && (c1 == 'n' || c1 == 'N') && (c2 == 'e' || c2 == 'E')
            && (c3 == 's' || c3 == 'S') && (c4 == 'h' || c4 == 'H') && (c5 == 'o' || c5 == 'O')
            && (c6 == 't' || c6 == 'T') {
            Ok(Interval::Oneshot)
        } else {
            Err(ConfigError::InvalidInterval)
        }
    }

    /// Build a periodic interval from a whole number of seconds;
    /// values below one second are rejected.
    pub fn from_secs(secs: u64) -> (r: Result<Interval, ConfigError>)
        ensures
            r == if secs >= 1 {
                Result::<Interval, ConfigError>::Ok(Interval::Seconds(secs))
            } else {
                Result::<Interval, ConfigError>::Err(ConfigError::IntervalTooSmall)
            },
    {
        if secs >= 1 {
            Ok(Interval::Seconds(secs))
        } else {
            Err(ConfigError::IntervalTooSmall)
        }
    }
}

/// Check the process-wide minimum emission interval, in milliseconds;
/// values below the 100 ms floor are rejected.
pub fn check_min_interval(millis: u64) -> (r: Result<u64, ConfigError>)
    ensures
        r == if millis >= 100 {
            Result::<u64, ConfigError>::Ok(millis)
        } else {
            Result::<u64, ConfigError>::Err(ConfigError::MinIntervalTooSmall)
        },
{
    if millis >= 100 {
        Ok(millis)
    } else {
        Err(ConfigError::MinIntervalTooSmall)
    }
}

} // verus!
