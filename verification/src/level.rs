//! Severity levels, verbosity thresholds, and how a threshold is spelled.

use std::str::FromStr;
use vstd::prelude::*;

verus! {

/// A verbosity threshold: the least severe level that is still shown.
///
/// Thresholds are ordered `Off < Error < Warn < Info < Debug < Trace`, and a
/// threshold of `Off` shows nothing.
#[derive(Clone, Copy, Debug, PartialEq, Eq, Structural)]
pub enum LevelFilter {
    Off,
    Error,
    Warn,
    Info,
    Debug,
    Trace,
}

/// The severity of a single log request, from most severe (`Error`) to most
/// verbose (`Trace`).
#[derive(Clone, Copy, Debug, PartialEq, Eq, Structural)]
pub enum Level {
    Error,
    Warn,
    Info,
    Debug,
    Trace,
}

impl LevelFilter {
    /// Position of the threshold in the order `Off < Error < ... < Trace`.
    pub open spec fn rank(self) -> nat {
        match self {
            LevelFilter::Off => 0,
            LevelFilter::Error => 1,
            LevelFilter::Warn => 2,
            LevelFilter::Info => 3,
            LevelFilter::Debug => 4,
            LevelFilter::Trace => 5,
        }
    }

    /// The threshold's position as a machine integer.
    pub fn ordinal(self) -> (r: u8)
        ensures
            r == self.rank(),
    {
        match self {
            LevelFilter::Off => 0,
            LevelFilter::Error => 1,
            LevelFilter::Warn => 2,
            LevelFilter::Info => 3,
            LevelFilter::Debug => 4,
            LevelFilter::Trace => 5,
        }
    }

    /// Whether a request of severity `level` passes this threshold.
    pub open spec fn admits(self, level: Level) -> bool {
        level.rank() <= self.rank()
    }

    /// Decides whether a request of severity `level` passes this threshold.
    pub fn allows(self, level: Level) -> (r: bool)
        ensures
            r == self.admits(level),
    {
        level.ordinal() <= self.ordinal()
    }
}

impl Level {
    /// Position of the severity in the order of thresholds; no severity has
    /// the position of `Off`.
    pub open spec fn rank(self) -> nat {
        match self {
            Level::Error => 1,
            Level::Warn => 2,
            Level::Info => 3,
            Level::Debug => 4,
            Level::Trace => 5,
        }
    }

    /// The severity's position as a machine integer.
    pub fn ordinal(self) -> (r: u8)
        ensures
            r == self.rank(),
    {
        match self {
            Level::Error => 1,
            Level::Warn => 2,
            Level::Info => 3,
            Level::Debug => 4,
            Level::Trace => 5,
        }
    }
}

/// `s` spells the word whose upper-case letters are `upper` and whose
/// lower-case letters are `lower`, each letter in either case.
pub open spec fn spells(s: Seq<char>, upper: Seq<char>, lower: Seq<char>) -> bool {
    &&& s.len() == upper.len()
    &&& forall|i: int| 0 <= i < s.len() ==> #[trigger] s[i] == upper[i] || s[i] == lower[i]
}

/// The threshold that `s` names, if any. The six names are matched without
/// regard to ASCII case, and nothing around a name is trimmed.
pub open spec fn level_filter_of_name(s: Seq<char>) -> Option<LevelFilter> {
    if spells(s, seq!['O', 'F', 'F'], seq!['o', 'f', 'f']) {
        Some(LevelFilter::Off)
    } else if spells(s, seq!['E', 'R', 'R', 'O', 'R'], seq!['e', 'r', 'r', 'o', 'r']) {
        Some(LevelFilter::Error)
    } else if spells(s, seq!['W', 'A', 'R', 'N'], seq!['w', 'a', 'r', 'n']) {
        Some(LevelFilter::Warn)
    } else if spells(s, seq!['I', 'N', 'F', 'O'], seq!['i', 'n', 'f', 'o']) {
        Some(LevelFilter::Info)
    } else if spells(s, seq!['D', 'E', 'B', 'U', 'G'], seq!['d', 'e', 'b', 'u', 'g']) {
        Some(LevelFilter::Debug)
    } else if spells(s, seq!['T', 'R', 'A', 'C', 'E'], seq!['t', 'r', 'a', 'c', 'e']) {
        Some(LevelFilter::Trace)
    } else {
        None
    }
}

/// Parses a threshold name with `log::LevelFilter::from_str`.
///
/// Trusted: `log` compares the text with each of `OFF`, `ERROR`, `WARN`,
/// `INFO`, `DEBUG` and `TRACE` by `eq_ignore_ascii_case` and answers with the
/// threshold of the first name that matches, or with an error when none does.
/// The contract restates that as `level_filter_of_name`; the body maps each
/// of `log`'s variants to the variant of the same name.
#[verifier::external_body]
pub(crate) fn parse_level_filter(name: &str) -> (r: Option<LevelFilter>)
    ensures
        r == level_filter_of_name(name@),
{
    match log::LevelFilter::from_str(name) {
        Ok(log::LevelFilter::Off) => Some(LevelFilter::Off),
        Ok(log::LevelFilter::Error) => Some(LevelFilter::Error),
        Ok(log::LevelFilter::Warn) => Some(LevelFilter::Warn),
        Ok(log::LevelFilter::Info) => Some(LevelFilter::Info),
        Ok(log::LevelFilter::Debug) => Some(LevelFilter::Debug),
        Ok(log::LevelFilter::Trace) => Some(LevelFilter::Trace),
        Err(_) => None,
    }
}

/// The more verbose of two optional thresholds; an absent one yields to the
/// other.
pub open spec fn more_verbose(a: Option<LevelFilter>, b: Option<LevelFilter>) -> Option<
    LevelFilter,
> {
    match (a, b) {
        (Some(x), Some(y)) => if x.rank() >= y.rank() {
            Some(x)
        } else {
            Some(y)
        },
        (Some(x), None) => Some(x),
        (None, _) => b,
    }
}

/// Computes the more verbose of two optional thresholds.
pub fn pick_more_verbose(a: Option<LevelFilter>, b: Option<LevelFilter>) -> (r: Option<
    LevelFilter,
>)
    ensures
        r == more_verbose(a, b),
{
    match (a, b) {
        (Some(x), Some(y)) => if x.ordinal() >= y.ordinal() {
            Some(x)
        } else {
            Some(y)
        },
        (Some(x), None) => Some(x),
        (None, _) => b,
    }
}

/// A threshold of `Off` lets no request through.
pub proof fn lemma_off_admits_nothing(level: Level)
    ensures
        !LevelFilter::Off.admits(level),
{
}

/// A threshold of `Trace` lets every request through.
pub proof fn lemma_trace_admits_everything(level: Level)
    ensures
        LevelFilter::Trace.admits(level),
{
}

} // verus!
