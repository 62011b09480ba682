//! Levels of diagnostic output, as chosen by `RUST_LOG`.
use crate::text::same_text;
use std::cmp::Ordering;
use vstd::prelude::*;
use vstd::std_specs::cmp::PartialOrdSpec;

verus! {

/// How much diagnostic output is wanted.
#[derive(Clone, Copy, Debug, PartialEq, Eq, Structural)]
pub enum Level {
    Off,
    Debug,
    Trace,
}

impl Level {
    /// The place of the level in the order of levels.
    pub open spec fn rank(self) -> int {
        match self {
            Level::Off => 0,
            Level::Debug => 1,
            Level::Trace => 2,
        }
    }
}

impl PartialOrd for Level {
    fn partial_cmp(&self, other: &Level) -> (r: Option<Ordering>) {
        match (*self, *other) {
            (Level::Off, Level::Off) => Some(Ordering::Equal),
            (Level::Debug, Level::Debug) => Some(Ordering::Equal),
            (Level::Trace, Level::Trace) => Some(Ordering::Equal),
            (Level::Off, _) => Some(Ordering::Less),
            (_, Level::Trace) => Some(Ordering::Less),
            _ => Some(Ordering::Greater),
        }
    }
}

impl vstd::std_specs::cmp::PartialOrdSpecImpl for Level {
    open spec fn obeys_partial_cmp_spec() -> bool {
        true
    }

    open spec fn partial_cmp_spec(&self, other: &Level) -> Option<Ordering> {
        if self.rank() < other.rank() {
            Some(Ordering::Less)
        } else if self.rank() > other.rank() {
            Some(Ordering::Greater)
        } else {
            Some(Ordering::Equal)
        }
    }
}

/// The level that a value of `RUST_LOG` chooses.
pub open spec fn chosen_level(value: Option<Seq<char>>) -> Level {
    if value == Some("trace"@) {
        Level::Trace
    } else if value == Some("debug"@) {
        Level::Debug
    } else {
        Level::Off
    }
}

/// The level that the value of `RUST_LOG` chooses.
pub fn level_from(value: Option<&str>) -> (r: Level)
    ensures
        r == chosen_level(
            match value {
                Some(text) => Some(text@),
                None => None,
            },
        ),
{
    match value {
        Some(text) => if same_text(text, "trace") {
            Level::Trace
        } else if same_text(text, "debug") {
            Level::Debug
        } else {
            Level::Off
        },
        None => Level::Off,
    }
}

/// Whether output of `level` is shown where `configured` was chosen.
pub fn enabled(level: Level, configured: Level) -> (b: bool)
    ensures
        b == (level.rank() <= configured.rank()),
{
    level <= configured
}

/// Whoever sees traces sees debug output too.
pub proof fn traces_imply_debug_output(configured: Level)
    ensures
        Level::Trace.rank() <= configured.rank() ==> Level::Debug.rank() <= configured.rank(),
{
}

/// Debug output comes with both levels that are not off, and traces with their own
/// alone.
pub proof fn levels_show_what_they_are_for(configured: Level)
    ensures
        Level::Debug.rank() <= configured.rank() <==> configured != Level::Off,
        Level::Trace.rank() <= configured.rank() <==> configured == Level::Trace,
        Level::Off.rank() <= configured.rank(),
{
}

/// The order of levels is total and agrees with what they show.
pub proof fn levels_are_ordered(a: Level, b: Level)
    ensures
        a.rank() == b.rank() <==> a == b,
        a.rank() < b.rank() <==> (a == Level::Off && b != Level::Off) || (a == Level::Debug && b
            == Level::Trace),
        PartialOrdSpec::partial_cmp_spec(&a, &b) == if a == b {
            Some(Ordering::Equal)
        } else if a == Level::Off || b == Level::Trace {
            Some(Ordering::Less)
        } else {
            Some(Ordering::Greater)
        },
{
}

/// Only the words `trace` and `debug` choose a level.
pub proof fn only_two_words_choose_a_level(value: Seq<char>)
    ensures
        chosen_level(None) == Level::Off,
        chosen_level(Some(value)) == Level::Trace <==> value == "trace"@,
        chosen_level(Some(value)) == Level::Debug <==> value == "debug"@,
{
    reveal_strlit("trace");
    reveal_strlit("debug");
    assert("trace"@[0] != "debug"@[0]);
}

} // verus!
