use mc_cauldron_brew::LiquidData;
use mc_cauldron_brew::PotionIngredient::{
    BlazePowder, FermentedSpiderEye, MagmaCream, SpiderEye, Sugar,
};

#[test]
fn lib_potion_w_is_correct() {
    assert_eq!(LiquidData::default().dilute().0, 0);
}

#[test]
fn lib_potion_water_fermented_is_correct() {
    assert_eq!(
        LiquidData::default()
            .dilute()
            .apply_ingredient(FermentedSpiderEye)
            .0,
        16896
    );
}

#[test]
fn lib_potion_water_fermented_water_is_correct() {
    assert_eq!(
        LiquidData::default()
            .dilute()
            .apply_ingredient(FermentedSpiderEye)
            .dilute()
            .0,
        16384
    );
}

#[test]
fn lib_potion_water_eye_is_correct() {
    assert_eq!(
        LiquidData::default().dilute().apply_ingredient(SpiderEye).0,
        1184
    );
}

#[test]
fn lib_potion_water_eye_wart_is_correct() {
    assert_eq!(
        LiquidData::default()
            .dilute()
            .apply_ingredient(SpiderEye)
            .apply_wart()
            .0,
        1088
    );
}

#[test]
fn lib_potion_water_eye_fermented_blaze_magma_sugar_wart_is_correct() {
    assert_eq!(
        LiquidData::default()
            .dilute()
            .apply_ingredient(SpiderEye)
            .apply_ingredient(FermentedSpiderEye)
            .apply_ingredient(BlazePowder)
            .apply_ingredient(MagmaCream)
            .apply_ingredient(Sugar)
            .apply_wart()
            .0,
        20614
    );
}

#[test]
fn lib_potion_water_eye_fermented_blaze_magma_sugar_wart_water_is_correct() {
    assert_eq!(
        LiquidData::default()
            .dilute()
            .apply_ingredient(SpiderEye)
            .apply_ingredient(FermentedSpiderEye)
            .apply_ingredient(BlazePowder)
            .apply_ingredient(MagmaCream)
            .apply_ingredient(Sugar)
            .apply_wart()
            .dilute()
            .0,
        20484
    );
}

#[test]
fn lib_potion_water_eye_fermented_blaze_magma_sugar_wart_water_sugar_is_correct() {
    assert_eq!(
        LiquidData::default()
            .dilute()
            .apply_ingredient(SpiderEye)
            .apply_ingredient(FermentedSpiderEye)
            .apply_ingredient(BlazePowder)
            .apply_ingredient(MagmaCream)
            .apply_ingredient(Sugar)
            .apply_wart()
            .dilute()
            .apply_ingredient(Sugar)
            .0,
        20485
    );
}
