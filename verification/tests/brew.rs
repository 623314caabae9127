use mc_cauldron_brew::LiquidData;
use mc_cauldron_brew::PotionIngredient::{
    BlazePowder, FermentedSpiderEye, GhastTear, MagmaCream, SpiderEye, Sugar,
};

#[test]
fn potion_w_is_correct() {
    assert_eq!(LiquidData::default().dilute().0, 0);
}

#[test]
fn potion_water_fermented_is_correct() {
    assert_eq!(
        LiquidData::default()
            .dilute()
            .apply_ingredient(FermentedSpiderEye)
            .0,
        16896
    );
}

#[test]
fn potion_water_fermented_water_is_correct() {
    assert_eq!(
        LiquidData::default()
            .dilute()
            .apply_ingredient(FermentedSpiderEye)
            .dilute()
            .0,
        16384
    );
}

#[test]
fn potion_water_eye_is_correct() {
    assert_eq!(
        LiquidData::default().dilute().apply_ingredient(SpiderEye).0,
        1184
    );
}

#[test]
fn potion_water_eye_wart_is_correct() {
    assert_eq!(
        LiquidData::default()
            .dilute()
            .apply_ingredient(SpiderEye)
            .apply_wart()
            .0,
        1088
    );
}

#[test]
fn potion_water_eye_fermented_blaze_magma_sugar_wart_is_correct() {
    assert_eq!(
        LiquidData::default()
            .dilute()
            .apply_ingredient(SpiderEye)
            .apply_ingredient(FermentedSpiderEye)
            .apply_ingredient(BlazePowder)
            .apply_ingredient(MagmaCream)
            .apply_ingredient(Sugar)
            .apply_wart()
            .0,
        20614
    );
}

#[test]
fn potion_water_eye_fermented_blaze_magma_sugar_wart_water_is_correct() {
    assert_eq!(
        LiquidData::default()
            .dilute()
            .apply_ingredient(SpiderEye)
            .apply_ingredient(FermentedSpiderEye)
            .apply_ingredient(BlazePowder)
            .apply_ingredient(MagmaCream)
            .apply_ingredient(Sugar)
            .apply_wart()
            .dilute()
            .0,
        20484
    );
}

#[test]
fn potion_water_eye_fermented_blaze_magma_sugar_wart_water_sugar_is_correct() {
    assert_eq!(
        LiquidData::default()
            .dilute()
            .apply_ingredient(SpiderEye)
            .apply_ingredient(FermentedSpiderEye)
            .apply_ingredient(BlazePowder)
            .apply_ingredient(MagmaCream)
            .apply_ingredient(Sugar)
            .apply_wart()
            .dilute()
            .apply_ingredient(Sugar)
            .0,
        20485
    );
}

// The value below follows the true circular-modulo neighbor semantics of
// the automaton, under which wrapped negative offsets read the high cells.
#[test]
fn wart_to_31011_is_correct() {
    assert_eq!(LiquidData(31011).apply_wart().0, 24864);
}

#[test]
fn wart_on_plain_water_is_plain_water() {
    assert_eq!(LiquidData(0).apply_wart().0, 0);
}

#[test]
fn dilute_is_idempotent_on_all_states() {
    for s in 0u16..32768 {
        let once = LiquidData(s).dilute();
        assert_eq!(once.dilute().0, once.0);
    }
}

#[test]
fn dilute_changes_only_masked_bits() {
    let mask: u16 = (1 << 1) | (1 << 3) | (1 << 5) | (1 << 7) | (1 << 9) | (1 << 11) | (1 << 13);
    for s in [0u16, 1, 16896, 20614, 31011, 32767] {
        let d = LiquidData(s).dilute().0;
        assert_eq!(d & mask, 0);
        assert_eq!(d & !mask, s & !mask);
    }
}

#[test]
fn apply_ingredient_is_idempotent() {
    let all = [
        Sugar,
        GhastTear,
        SpiderEye,
        FermentedSpiderEye,
        BlazePowder,
        MagmaCream,
    ];
    for s in [0u16, 1184, 20485, 32767] {
        for ing in all {
            let once = LiquidData(s).apply_ingredient(ing);
            assert_eq!(once.apply_ingredient(ing).0, once.0);
        }
    }
}

#[test]
fn apply_ingredient_never_clears_a_bit() {
    let all = [
        Sugar,
        GhastTear,
        SpiderEye,
        FermentedSpiderEye,
        BlazePowder,
        MagmaCream,
    ];
    for s in [0u16, 1184, 16896, 31011, 32767] {
        for ing in all {
            let after = LiquidData(s).apply_ingredient(ing).0;
            assert_eq!(after & s, s);
        }
    }
}

#[test]
fn added_bits_match_expected_positions() {
    assert_eq!(Sugar.added_bits(), vec![0]);
    assert_eq!(GhastTear.added_bits(), vec![11]);
    assert_eq!(SpiderEye.added_bits(), vec![5, 7, 10]);
    assert_eq!(FermentedSpiderEye.added_bits(), vec![9, 14]);
    assert_eq!(BlazePowder.added_bits(), vec![14]);
    assert_eq!(MagmaCream.added_bits(), vec![1, 6, 14]);
}
