//! The built-in synthetic IR banks: their names and order, and the
//! deterministic noise source their renderings draw from.

use vstd::prelude::*;
use crate::geometry::MAX_ZONES;
use crate::text::same_text;

verus! {

/// The built-in bank set, quiet zone (0) to loud zone (3).
#[derive(Clone, Copy, PartialEq, Eq, Debug, Structural)]
pub enum Bank {
    /// Exp-decay noise rooms: quiet = long/dark, loud = short/bright.
    Rooms,
    /// Tuned booms with downward glide; loud = deepest/hardest.
    Subdrop,
    /// Filtered-noise chambers with damped low modes; loud = deepest.
    Resoroom,
}

/// The bank at a position of the built-in list.
pub open spec fn bank_at(i: int) -> Option<Bank> {
    if i == 0 {
        Some(Bank::Rooms)
    } else if i == 1 {
        Some(Bank::Subdrop)
    } else if i == 2 {
        Some(Bank::Resoroom)
    } else {
        None
    }
}

/// The bank a name selects: `rooms`, `subdrop` or `resoroom`.
pub open spec fn bank_named(name: Seq<char>) -> Option<Bank> {
    if name == "rooms"@ {
        Some(Bank::Rooms)
    } else if name == "subdrop"@ {
        Some(Bank::Subdrop)
    } else if name == "resoroom"@ {
        Some(Bank::Resoroom)
    } else {
        None
    }
}

impl Bank {
    pub fn from_name(name: &str) -> (b: Option<Bank>)
        ensures
            b == bank_named(name@),
    {
        if same_text(name, "rooms") {
            Some(Bank::Rooms)
        } else if same_text(name, "subdrop") {
            Some(Bank::Subdrop)
        } else if same_text(name, "resoroom") {
            Some(Bank::Resoroom)
        } else {
            None
        }
    }

    pub fn from_index(i: usize) -> (b: Option<Bank>)
        ensures
            b == bank_at(i as int),
    {
        if i == 0 {
            Some(Bank::Rooms)
        } else if i == 1 {
            Some(Bank::Subdrop)
        } else if i == 2 {
            Some(Bank::Resoroom)
        } else {
            None
        }
    }
}

/// Multiplier of the xorshift64* output scramble.
pub const SCRAMBLE: u64 = 0x2545F4914F6CDD1D;

/// One xorshift64 state step.
pub open spec fn xorshift_step(x: u64) -> u64 {
    let a = x ^ (x >> 12u64);
    let b = a ^ (a << 25u64);
    b ^ (b >> 27u64)
}

/// The 24 output bits drawn from a state: the top 24 bits of the state
/// times [`SCRAMBLE`], wrapped to 64 bits.
pub open spec fn scramble(x: u64) -> u32 {
    (x.wrapping_mul(SCRAMBLE) >> 40u64) as u32
}

/// xorshift64*: a deterministic noise source, so that every rendering of a
/// synthetic bank is the same.
pub struct Rng {
    state: u64,
}

impl Rng {
    pub closed spec fn state(&self) -> u64 {
        self.state
    }

    pub fn new(seed: u64) -> (r: Rng)
        ensures
            r.state() == seed,
    {
        Rng { state: seed }
    }

    /// Step the state and draw 24 bits; a sample in `[-1, 1)` is
    /// `bits / 2^24 * 2 - 1`.
    pub fn next_bits(&mut self) -> (v: u32)
        ensures
            final(self).state() == xorshift_step(old(self).state()),
            v == scramble(final(self).state()),
            v < 0x100_0000,
    {
        let mut x = self.state;
        x = x ^ (x >> 12u64);
        x = x ^ (x << 25u64);
        x = x ^ (x >> 27u64);
        self.state = x;
        let y = x.wrapping_mul(SCRAMBLE) >> 40u64;
        assert(y < 0x100_0000) by (bit_vector)
            requires
                y == x.wrapping_mul(SCRAMBLE) >> 40u64,
        ;
        y as u32
    }
}

/// The seed of the noise source for `zone`'s channel `ch` of a bank.
pub open spec fn spec_bank_seed(bank: Bank, zone: u64, ch: u64) -> u64 {
    let base: u64 = match bank {
        Bank::Rooms => 0x9E3779B97F4A7C15,
        Bank::Subdrop => 0xD1CE,
        Bank::Resoroom => 0xB0043,
    };
    base ^ (zone << 8u64) ^ ch
}

/// The seed of the noise source for `zone`'s channel `ch` (of a stereo
/// pair) of a bank; never zero, so the generator never sticks.
pub fn bank_seed(bank: Bank, zone: usize, ch: usize) -> (s: u64)
    requires
        zone < MAX_ZONES,
        ch < 2,
    ensures
        s == spec_bank_seed(bank, zone as u64, ch as u64),
        s != 0,
{
    let base: u64 = match bank {
        Bank::Rooms => 0x9E3779B97F4A7C15,
        Bank::Subdrop => 0xD1CE,
        Bank::Resoroom => 0xB0043,
    };
    let z = zone as u64;
    let c = ch as u64;
    let s = base ^ (z << 8u64) ^ c;
    assert(s != 0) by (bit_vector)
        requires
            s == base ^ (z << 8u64) ^ c,
            z < 4,
            c < 2,
            base == 0x9E3779B97F4A7C15 || base == 0xD1CE || base == 0xB0043,
    ;
    s
}

/// A nonzero state stays nonzero: xorshift never reaches its fixed point
/// from a proper seed, so the noise never falls silent.
pub proof fn law_rng_state_nonzero(x: u64)
    requires
        x != 0,
    ensures
        xorshift_step(x) != 0,
{
    assert(xorshift_step(x) != 0) by (bit_vector)
        requires
            x != 0,
    ;
}

} // verus!
