use mc_cauldron_brew::first_clear;
use mc_cauldron_brew::first_set;

#[test]
fn first_clear_0_is_31() {
    assert_eq!(first_clear(0), 31);
}

#[test]
fn first_clear_pot_is_14() {
    assert_eq!(first_clear(0xffff_8000), 14);
}

#[test]
fn first_clear_max_is_m1() {
    assert_eq!(first_clear(0xffff_ffff), -1);
}

#[test]
fn first_set_0_is_m1() {
    assert_eq!(first_set(0), -1);
}

#[test]
fn first_set_finds_highest_bit() {
    assert_eq!(first_set(1), 0);
    assert_eq!(first_set(0b100), 2);
    assert_eq!(first_set(0b101), 2);
    assert_eq!(first_set(16384), 14);
    assert_eq!(first_set(0x7fff), 14);
    assert_eq!(first_set(0xffff), 15);
}
