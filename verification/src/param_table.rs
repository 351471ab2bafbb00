//! The host-facing parameter table: ids, formats and flags. Parameter ids
//! are host ABI: an id is never renumbered, retired ids stay unused.

use vstd::prelude::*;
use crate::text::{eq_ignore_ascii_case, same_ignoring_ascii_case};

verus! {

pub const PARAM_BYPASS_ID: u32 = 0;
pub const PARAM_WET_ID: u32 = 1;
pub const PARAM_DRY_ID: u32 = 2;
pub const PARAM_SYM_ID: u32 = 4;
pub const PARAM_SIZE_ID: u32 = 5;
pub const PARAM_MODE_ID: u32 = 6;
pub const PARAM_ATTACK_ID: u32 = 7;
pub const PARAM_RELEASE_ID: u32 = 8;
pub const PARAM_ZONES_ID: u32 = 9;
/// First of the four zone level ids.
pub const PARAM_ZONE_LEVEL_BASE: u32 = 10;
/// First of the four zone gain ids.
pub const PARAM_ZONE_GAIN_BASE: u32 = 14;
pub const PARAM_RELOAD_ID: u32 = 19;
pub const PARAM_MORPH_ID: u32 = 20;
pub const PARAM_FADE_ID: u32 = 21;
pub const PARAM_TAILS_ID: u32 = 22;
/// First of the four pad corner ids.
pub const PARAM_CORNER_BASE: u32 = 24;
pub const PARAM_BLEND_X_ID: u32 = 28;
pub const PARAM_BLEND_Y_ID: u32 = 29;
/// First of the four zone damp ids.
pub const PARAM_DAMP_BASE: u32 = 30;
pub const PARAM_SHAPER_ID: u32 = 34;
pub const PARAM_CRYSTAL_ID: u32 = 35;
pub const PARAM_CRYSTAL_SHAPE_ID: u32 = 36;

/// Number of parameters in the table.
pub const PARAM_COUNT: usize = 34;

/// Value slots indexed by id: one past the highest id.
pub const PARAM_SLOTS: usize = 37;

/// The id of table entry `i`: ids count up from 0, skipping the retired
/// ids 3 and 18 and the unused 23.
pub open spec fn spec_param_id(i: int) -> int {
    if i < 3 {
        i
    } else if i < 17 {
        i + 1
    } else if i < 21 {
        i + 2
    } else {
        i + 3
    }
}

/// The ids of the table, in table order.
pub open spec fn spec_param_ids() -> Seq<u32> {
    Seq::new(PARAM_COUNT as nat, |i: int| spec_param_id(i) as u32)
}

/// A known parameter id.
pub open spec fn known_id(id: int) -> bool {
    0 <= id < PARAM_SLOTS && id != 3 && id != 18 && id != 23
}

/// The id of every table entry, in table order.
pub fn param_ids() -> (v: Vec<u32>)
    ensures
        v@ == spec_param_ids(),
{
    let v: Vec<u32> = vec![
        0u32, 1, 2, 4, 5, 6, 7, 8, 9, 10, 11, 12, 13, 14, 15, 16, 17, 19, 20, 21, 22, 24, 25, 26,
        27, 28, 29, 30, 31, 32, 33, 34, 35, 36,
    ];
    assert(v@ =~= spec_param_ids());
    v
}

/// Whether `id` names a parameter of the table.
pub fn param_exists(id: u32) -> (b: bool)
    ensures
        b == spec_param_ids().contains(id),
        b == known_id(id as int),
{
    proof {
        law_param_ids();
    }
    match param_index(id) {
        Some(_) => true,
        None => false,
    }
}

/// Table position of the parameter `id`.
pub fn param_index(id: u32) -> (r: Option<usize>)
    ensures
        match r {
            Some(i) => i < PARAM_COUNT && spec_param_ids()[i as int] == id && forall|j: int|
                0 <= j < i ==> spec_param_ids()[j] != id,
            None => !spec_param_ids().contains(id),
        },
{
    let ids = param_ids();
    let mut i: usize = 0;
    while i < ids.len()
        invariant
            ids@ == spec_param_ids(),
            0 <= i <= ids@.len(),
            forall|j: int| 0 <= j < i ==> spec_param_ids()[j] != id,
        decreases ids@.len() - i,
    {
        if ids[i] == id {
            return Some(i);
        }
        i += 1;
    }
    None
}

/// Named alternatives of a choice parameter.
#[derive(Clone, Copy, PartialEq, Eq, Debug, Structural)]
pub enum ChoiceList {
    /// `Off`, `On`.
    OffOn,
    /// Level selector: `Instant`, `Envelope`.
    Selector,
    /// Old-IR policy: `Gated`, `Ungated`.
    Tails,
    /// Pad corner banks: `Rooms`, `Subdrop`, `Resoroom`, `Folder`.
    Banks,
    /// `Zones`, `Crystalize`.
    Mode,
    /// `Cheby`, `Raw v1`.
    CrystalShape,
}

/// How a parameter formats and parses its value text.
#[derive(Clone, Copy, PartialEq, Eq, Debug, Structural)]
pub enum Format {
    Percent,
    Milliseconds,
    Decibels,
    /// Unit-free ratio, two decimals.
    Ratio,
    Integer,
    Choice(ChoiceList),
}

/// The format of table entry `i`.
pub open spec fn spec_format(i: int) -> Format {
    if i == 0 {
        Format::Choice(ChoiceList::OffOn)
    } else if i == 1 || i == 2 || i == 3 {
        Format::Percent
    } else if i == 4 {
        Format::Ratio
    } else if i == 5 {
        Format::Choice(ChoiceList::Selector)
    } else if i == 6 || i == 7 {
        Format::Milliseconds
    } else if i == 8 {
        Format::Integer
    } else if 9 <= i <= 12 {
        Format::Decibels
    } else if 13 <= i <= 16 {
        Format::Percent
    } else if i == 17 {
        Format::Choice(ChoiceList::OffOn)
    } else if i == 18 {
        Format::Ratio
    } else if i == 19 {
        Format::Integer
    } else if i == 20 {
        Format::Choice(ChoiceList::Tails)
    } else if 21 <= i <= 24 {
        Format::Choice(ChoiceList::Banks)
    } else if 25 <= i <= 30 {
        Format::Percent
    } else if i == 31 {
        Format::Choice(ChoiceList::Mode)
    } else if i == 32 {
        Format::Ratio
    } else {
        Format::Choice(ChoiceList::CrystalShape)
    }
}

/// The format of table entry `index`.
pub fn param_format(index: usize) -> (f: Format)
    requires
        index < PARAM_COUNT,
    ensures
        f == spec_format(index as int),
        f == format_of_id(spec_param_id(index as int)),
{
    proof {
        law_param_units();
    }
    if index == 0 {
        Format::Choice(ChoiceList::OffOn)
    } else if index == 1 || index == 2 || index == 3 {
        Format::Percent
    } else if index == 4 {
        Format::Ratio
    } else if index == 5 {
        Format::Choice(ChoiceList::Selector)
    } else if index == 6 || index == 7 {
        Format::Milliseconds
    } else if index == 8 {
        Format::Integer
    } else if 9 <= index && index <= 12 {
        Format::Decibels
    } else if 13 <= index && index <= 16 {
        Format::Percent
    } else if index == 17 {
        Format::Choice(ChoiceList::OffOn)
    } else if index == 18 {
        Format::Ratio
    } else if index == 19 {
        Format::Integer
    } else if index == 20 {
        Format::Choice(ChoiceList::Tails)
    } else if 21 <= index && index <= 24 {
        Format::Choice(ChoiceList::Banks)
    } else if 25 <= index && index <= 30 {
        Format::Percent
    } else if index == 31 {
        Format::Choice(ChoiceList::Mode)
    } else if index == 32 {
        Format::Ratio
    } else {
        Format::Choice(ChoiceList::CrystalShape)
    }
}

/// Host flags of a parameter, as far as they vary across the table; every
/// parameter is automatable and none is periodic, hidden, read-only or
/// modulatable.
#[derive(Clone, Copy, PartialEq, Eq, Debug, Structural)]
pub struct ParamFlags {
    pub is_stepped: bool,
    pub is_enum: bool,
    pub is_bypass: bool,
}

/// The flags of table entry `index`: integers and choices are stepped,
/// choices are enumerations, and the first entry is the bypass switch.
pub fn param_flags(index: usize) -> (f: ParamFlags)
    requires
        index < PARAM_COUNT,
    ensures
        f.is_stepped == (spec_format(index as int) is Integer || spec_format(index as int) is Choice),
        f.is_enum == spec_format(index as int) is Choice,
        f.is_bypass == (index == 0),
{
    let fmt = param_format(index);
    let is_enum = match fmt {
        Format::Choice(_) => true,
        _ => false,
    };
    let is_int = match fmt {
        Format::Integer => true,
        _ => false,
    };
    ParamFlags { is_stepped: is_enum || is_int, is_enum, is_bypass: index == 0 }
}

/// The names of a choice list, in value order.
pub open spec fn spec_choice_names(l: ChoiceList) -> Seq<&'static str> {
    match l {
        ChoiceList::OffOn => seq!["Off", "On"],
        ChoiceList::Selector => seq!["Instant", "Envelope"],
        ChoiceList::Tails => seq!["Gated", "Ungated"],
        ChoiceList::Banks => seq!["Rooms", "Subdrop", "Resoroom", "Folder"],
        ChoiceList::Mode => seq!["Zones", "Crystalize"],
        ChoiceList::CrystalShape => seq!["Cheby", "Raw v1"],
    }
}

pub fn choice_names(l: ChoiceList) -> (v: Vec<&'static str>)
    ensures
        v@ == spec_choice_names(l),
        v@.len() >= 2,
{
    let v: Vec<&'static str> = match l {
        ChoiceList::OffOn => vec!["Off", "On"],
        ChoiceList::Selector => vec!["Instant", "Envelope"],
        ChoiceList::Tails => vec!["Gated", "Ungated"],
        ChoiceList::Banks => vec!["Rooms", "Subdrop", "Resoroom", "Folder"],
        ChoiceList::Mode => vec!["Zones", "Crystalize"],
        ChoiceList::CrystalShape => vec!["Cheby", "Raw v1"],
    };
    assert(v@ =~= spec_choice_names(l));
    v
}

/// The label of choice `idx`; indices past the end show the last name.
pub fn choice_label(l: ChoiceList, idx: usize) -> (r: &'static str)
    ensures
        ({
            let names = spec_choice_names(l);
            r == names[if idx < names.len() {
                idx as int
            } else {
                names.len() - 1
            }]
        }),
{
    let names = choice_names(l);
    let last = names.len() - 1;
    if idx < last {
        names[idx]
    } else {
        names[last]
    }
}

/// The value a typed choice name stands for: the position of the first
/// name equal to `text` up to ASCII case.
pub fn choice_position(l: ChoiceList, text: &str) -> (r: Option<usize>)
    ensures
        ({
            let names = spec_choice_names(l);
            match r {
                Some(i) => i < names.len() && same_ignoring_ascii_case(names[i as int]@, text@)
                    && forall|j: int| 0 <= j < i ==> !same_ignoring_ascii_case(names[j]@, text@),
                None => forall|j: int|
                    0 <= j < names.len() ==> !same_ignoring_ascii_case(#[trigger] names[j]@, text@),
            }
        }),
{
    let names = choice_names(l);
    let mut i: usize = 0;
    while i < names.len()
        invariant
            names@ == spec_choice_names(l),
            0 <= i <= names@.len(),
            forall|j: int| 0 <= j < i ==> !same_ignoring_ascii_case(#[trigger] names@[j]@, text@),
        decreases names@.len() - i,
    {
        if eq_ignore_ascii_case(names[i], text) {
            return Some(i);
        }
        i += 1;
    }
    None
}

/// The known ids are exactly `0..=36` but the retired ids 3 and 18 and the
/// unused 23; the table lists each once, ascending.
pub proof fn law_param_ids()
    ensures
        forall|id: u32| spec_param_ids().contains(id) <==> known_id(id as int),
        forall|i: int, j: int|
            0 <= i < j < PARAM_COUNT ==> spec_param_ids()[i] < spec_param_ids()[j],
        spec_param_ids().len() == PARAM_COUNT,
{
    let ids = spec_param_ids();
    assert forall|id: u32| ids.contains(id) <==> known_id(id as int) by {
        if known_id(id as int) {
            let i = if id < 3 {
                id as int
            } else if id < 18 {
                id - 1
            } else if id < 23 {
                id - 2
            } else {
                id - 3
            };
            assert(ids[i] == id);
        }
    }
}

/// The unit of each parameter, by id: how its value reads to a user.
pub open spec fn format_of_id(id: int) -> Format {
    if id == PARAM_BYPASS_ID || id == PARAM_RELOAD_ID {
        Format::Choice(ChoiceList::OffOn)
    } else if id == PARAM_MODE_ID {
        Format::Choice(ChoiceList::Selector)
    } else if id == PARAM_TAILS_ID {
        Format::Choice(ChoiceList::Tails)
    } else if PARAM_CORNER_BASE <= id < PARAM_CORNER_BASE + 4 {
        Format::Choice(ChoiceList::Banks)
    } else if id == PARAM_SHAPER_ID {
        Format::Choice(ChoiceList::Mode)
    } else if id == PARAM_CRYSTAL_SHAPE_ID {
        Format::Choice(ChoiceList::CrystalShape)
    } else if id == PARAM_ATTACK_ID || id == PARAM_RELEASE_ID {
        Format::Milliseconds
    } else if PARAM_ZONE_LEVEL_BASE <= id < PARAM_ZONE_LEVEL_BASE + 4 {
        Format::Decibels
    } else if id == PARAM_ZONES_ID || id == PARAM_FADE_ID {
        Format::Integer
    } else if id == PARAM_SIZE_ID || id == PARAM_MORPH_ID || id == PARAM_CRYSTAL_ID {
        Format::Ratio
    } else {
        Format::Percent
    }
}

/// Every table entry reads in its parameter's own unit: attack and release
/// in milliseconds, zone levels in decibels, mix, symmetry, gains, pad
/// blend and damp in percent, size, morph and crystal gain as ratios, zone
/// count and fade as integers, and the switches and selectors by name.
pub proof fn law_param_units()
    ensures
        forall|i: int| 0 <= i < PARAM_COUNT ==> #[trigger] spec_format(i) == format_of_id(spec_param_id(i)),
        forall|i: int|
            0 <= i < PARAM_COUNT ==> (#[trigger] spec_format(i) == Format::Milliseconds <==> (
            spec_param_id(i) == PARAM_ATTACK_ID || spec_param_id(i) == PARAM_RELEASE_ID)),
        forall|i: int|
            0 <= i < PARAM_COUNT ==> (#[trigger] spec_format(i) == Format::Decibels <==> (
            PARAM_ZONE_LEVEL_BASE <= spec_param_id(i) < PARAM_ZONE_LEVEL_BASE + 4)),
{
}

} // verus!
