use open_conv::banks::{bank_seed, Bank, Rng};

#[test]
fn bank_names_select_banks() {
    assert_eq!(Bank::from_name("rooms"), Some(Bank::Rooms));
    assert_eq!(Bank::from_name("subdrop"), Some(Bank::Subdrop));
    assert_eq!(Bank::from_name("resoroom"), Some(Bank::Resoroom));
    assert_eq!(Bank::from_name("Rooms"), None);
    assert_eq!(Bank::from_name(""), None);
    assert_eq!(Bank::from_name("roomsx"), None);
}

#[test]
fn bank_indices_select_banks() {
    assert_eq!(Bank::from_index(0), Some(Bank::Rooms));
    assert_eq!(Bank::from_index(1), Some(Bank::Subdrop));
    assert_eq!(Bank::from_index(2), Some(Bank::Resoroom));
    assert_eq!(Bank::from_index(3), None);
    assert_eq!(Bank::from_index(usize::MAX), None);
}

#[test]
fn rng_draws_xorshift_star_bits() {
    let mut r = Rng::new(0x9E3779B97F4A7C15);
    assert_eq!(r.next_bits(), 885683);
    assert_eq!(r.next_bits(), 5555276);
    assert_eq!(r.next_bits(), 11027955);
    let mut one = Rng::new(1);
    assert_eq!(one.next_bits(), 4711630);
    assert_eq!(one.next_bits(), 11259814);
    assert_eq!(one.next_bits(), 12177677);
}

#[test]
fn rng_bits_stay_below_two_to_the_24() {
    let mut r = Rng::new(bank_seed(Bank::Subdrop, 2, 1));
    for _ in 0..10_000 {
        assert!(r.next_bits() < (1 << 24));
    }
}

#[test]
fn bank_seeds_mix_zone_and_channel() {
    assert_eq!(bank_seed(Bank::Rooms, 0, 0), 0x9E3779B97F4A7C15);
    assert_eq!(bank_seed(Bank::Rooms, 3, 1), 0x9E3779B97F4A7F14);
    assert_eq!(bank_seed(Bank::Subdrop, 2, 1), 0xD3CF);
    assert_eq!(bank_seed(Bank::Resoroom, 1, 0), 0xB0143);
    let mut r = Rng::new(bank_seed(Bank::Subdrop, 2, 1));
    assert_eq!(r.next_bits(), 9514591);
}
