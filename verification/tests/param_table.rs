use open_conv::param_table::{
    choice_label, choice_names, choice_position, param_exists, param_flags, param_format,
    param_ids, param_index, ChoiceList, Format, PARAM_BYPASS_ID, PARAM_COUNT,
    PARAM_CRYSTAL_SHAPE_ID, PARAM_FADE_ID, PARAM_RELOAD_ID, PARAM_TAILS_ID, PARAM_ZONES_ID,
};
use open_conv::params::{LevelMode, TailMode};
use open_conv::text::{eq_ignore_ascii_case, numeric_prefix_len};

#[test]
fn retired_ids_are_unknown() {
    for id in 0..40u32 {
        let known = id <= 36 && id != 3 && id != 18 && id != 23;
        assert_eq!(param_exists(id), known, "id {id}");
    }
    assert!(!param_exists(u32::MAX));
}

#[test]
fn table_order_and_positions() {
    let ids = param_ids();
    assert_eq!(ids.len(), PARAM_COUNT);
    assert_eq!(ids[0], PARAM_BYPASS_ID);
    assert_eq!(param_index(PARAM_ZONES_ID), Some(8));
    assert_eq!(param_index(PARAM_RELOAD_ID), Some(17));
    assert_eq!(param_index(PARAM_FADE_ID), Some(19));
    assert_eq!(param_index(PARAM_TAILS_ID), Some(20));
    assert_eq!(param_index(PARAM_CRYSTAL_SHAPE_ID), Some(33));
    assert_eq!(param_index(18), None);
    for (i, id) in ids.iter().enumerate() {
        assert_eq!(param_index(*id), Some(i));
    }
}

#[test]
fn formats_and_flags() {
    assert_eq!(param_format(0), Format::Choice(ChoiceList::OffOn));
    assert_eq!(param_format(1), Format::Percent);
    assert_eq!(param_format(4), Format::Ratio);
    assert_eq!(param_format(6), Format::Milliseconds);
    assert_eq!(param_format(8), Format::Integer);
    assert_eq!(param_format(9), Format::Decibels);
    assert_eq!(param_format(20), Format::Choice(ChoiceList::Tails));
    assert_eq!(param_format(24), Format::Choice(ChoiceList::Banks));
    assert_eq!(param_format(31), Format::Choice(ChoiceList::Mode));
    assert_eq!(param_format(33), Format::Choice(ChoiceList::CrystalShape));
    let f = param_flags(0);
    assert!(f.is_stepped && f.is_enum && f.is_bypass);
    let f = param_flags(19);
    assert!(f.is_stepped && !f.is_enum && !f.is_bypass);
    let f = param_flags(1);
    assert!(!f.is_stepped && !f.is_enum && !f.is_bypass);
    let f = param_flags(17);
    assert!(f.is_stepped && f.is_enum && !f.is_bypass);
}

#[test]
fn choice_labels_clamp_to_last() {
    assert_eq!(choice_names(ChoiceList::Banks), vec!["Rooms", "Subdrop", "Resoroom", "Folder"]);
    assert_eq!(choice_label(ChoiceList::Tails, 0), "Gated");
    assert_eq!(choice_label(ChoiceList::Tails, 1), "Ungated");
    assert_eq!(choice_label(ChoiceList::Tails, 7), "Ungated");
    assert_eq!(choice_label(ChoiceList::CrystalShape, 1), "Raw v1");
}

#[test]
fn choice_text_matches_ignoring_ascii_case() {
    assert_eq!(choice_position(ChoiceList::OffOn, "on"), Some(1));
    assert_eq!(choice_position(ChoiceList::OffOn, "OFF"), Some(0));
    assert_eq!(choice_position(ChoiceList::Banks, "resoROOM"), Some(2));
    assert_eq!(choice_position(ChoiceList::CrystalShape, "raw V1"), Some(1));
    assert_eq!(choice_position(ChoiceList::Selector, "env"), None);
    assert!(eq_ignore_ascii_case("Folder", "fOLDER"));
    assert!(!eq_ignore_ascii_case("Folder", "Folders"));
    assert!(!eq_ignore_ascii_case("é", "É"));
}

#[test]
fn numeric_prefix_stops_at_units() {
    assert_eq!(numeric_prefix_len("35 %"), 2);
    assert_eq!(numeric_prefix_len("-12.5 dB"), 5);
    assert_eq!(numeric_prefix_len("+3x"), 2);
    assert_eq!(numeric_prefix_len("abc"), 0);
    assert_eq!(numeric_prefix_len(""), 0);
    assert_eq!(numeric_prefix_len("120.0"), 5);
}

#[test]
fn command_line_mode_names() {
    assert_eq!(TailMode::from_cli_name("gated"), Some(TailMode::Gated));
    assert_eq!(TailMode::from_cli_name("ungated"), Some(TailMode::Ungated));
    assert_eq!(TailMode::from_cli_name("Gated"), None);
    assert_eq!(LevelMode::from_cli_name("instant"), Some((LevelMode::Instant, false)));
    assert_eq!(LevelMode::from_cli_name("env"), Some((LevelMode::Envelope, false)));
    assert_eq!(LevelMode::from_cli_name("envelope"), Some((LevelMode::Envelope, false)));
    assert_eq!(LevelMode::from_cli_name("xsign"), Some((LevelMode::Instant, true)));
    assert_eq!(LevelMode::from_cli_name("loud"), None);
}
