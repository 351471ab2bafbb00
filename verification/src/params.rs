//! Engine parameter enums and the integer knobs of the parameter block.

use vstd::prelude::*;
use crate::text::same_text;

verus! {

/// What happens to the outgoing IR when a new one arrives.
#[derive(Clone, Copy, PartialEq, Eq, Debug, Structural)]
pub enum TailMode {
    /// Streaming replacement in the shared IR bank: the old room's response
    /// to future input is progressively replaced; its response to past
    /// input completes naturally. One voice per zone.
    Gated,
    /// Parallel voice epochs: each arriving IR freezes the current voice,
    /// which stops hearing new input but rings out its full tail, and
    /// starts a fresh voice on input from now on.
    Ungated,
}

/// How the zone selector reads the input level.
#[derive(Clone, Copy, PartialEq, Eq, Debug, Structural)]
pub enum LevelMode {
    /// Per-sample selector: weights follow the instantaneous rectified
    /// sample (per channel).
    Instant,
    /// Smoothed selector: an attack/release follower shared across
    /// channels drives the weights.
    Envelope,
}

/// Clamp into `lo..=hi`.
pub open spec fn clamp(x: int, lo: int, hi: int) -> int {
    if x < lo {
        lo
    } else if x > hi {
        hi
    } else {
        x
    }
}

/// `x.clamp(lo, hi)` for `usize`.
pub fn clamp_usize(x: usize, lo: usize, hi: usize) -> (r: usize)
    requires
        lo <= hi,
    ensures
        r == clamp(x as int, lo as int, hi as int),
{
    if x < lo {
        lo
    } else if x > hi {
        hi
    } else {
        x
    }
}

/// The tail mode a command-line name selects: `gated` or `ungated`.
pub open spec fn tails_named(name: Seq<char>) -> Option<TailMode> {
    if name == "gated"@ {
        Some(TailMode::Gated)
    } else if name == "ungated"@ {
        Some(TailMode::Ungated)
    } else {
        None
    }
}

/// The level selector a command-line name selects, and whether it asks for
/// full symmetry: `instant`; `env` or `envelope`; `xsign`, the older name
/// for the instant selector with full symmetry.
pub open spec fn level_mode_named(name: Seq<char>) -> Option<(LevelMode, bool)> {
    if name == "instant"@ {
        Some((LevelMode::Instant, false))
    } else if name == "env"@ || name == "envelope"@ {
        Some((LevelMode::Envelope, false))
    } else if name == "xsign"@ {
        Some((LevelMode::Instant, true))
    } else {
        None
    }
}

impl TailMode {
    pub fn from_cli_name(name: &str) -> (r: Option<TailMode>)
        ensures
            r == tails_named(name@),
    {
        if same_text(name, "gated") {
            Some(TailMode::Gated)
        } else if same_text(name, "ungated") {
            Some(TailMode::Ungated)
        } else {
            None
        }
    }
}

impl LevelMode {
    pub fn from_cli_name(name: &str) -> (r: Option<(LevelMode, bool)>)
        ensures
            r == level_mode_named(name@),
    {
        if same_text(name, "instant") {
            Some((LevelMode::Instant, false))
        } else if same_text(name, "env") || same_text(name, "envelope") {
            Some((LevelMode::Envelope, false))
        } else if same_text(name, "xsign") {
            Some((LevelMode::Instant, true))
        } else {
            None
        }
    }
}

} // verus!
