use core::hash::{Hash, Hasher};
use vuio_codec_dts::{
    LfeInterpolationSelection,
};

fn tables() -> (Vec<f64>, Vec<f64>) {
    (vec![0.5; 512], vec![0.25; 512])
}

#[test]
fn from_decimation_select_one_picks_128x() {
    assert_eq!(
        LfeInterpolationSelection::from_decimation_select(1),
        LfeInterpolationSelection::Decimation128
    );
}

#[test]
fn from_decimation_select_zero_picks_64x() {
    assert_eq!(
        LfeInterpolationSelection::from_decimation_select(0),
        LfeInterpolationSelection::Decimation64
    );
}

#[test]
fn from_decimation_select_treats_every_non_one_value_as_64x() {
    for n in 0u16..=255 {
        if n == 1 {
            continue;
        }
        assert_eq!(
            LfeInterpolationSelection::from_decimation_select(n as u8),
            LfeInterpolationSelection::Decimation64,
            "nDecimationSelect={n} should pick the 64x else branch"
        );
    }
}

#[test]
fn decimation_select_round_trips_64x() {
    let sel = LfeInterpolationSelection::Decimation64;
    assert_eq!(sel.decimation_select(), 0);
    assert_eq!(
        LfeInterpolationSelection::from_decimation_select(sel.decimation_select()),
        sel
    );
}

#[test]
fn decimation_select_round_trips_128x() {
    let sel = LfeInterpolationSelection::Decimation128;
    assert_eq!(sel.decimation_select(), 1);
    assert_eq!(
        LfeInterpolationSelection::from_decimation_select(sel.decimation_select()),
        sel
    );
}

#[test]
fn decimation_factor_is_64_or_128() {
    assert_eq!(
        LfeInterpolationSelection::Decimation64.decimation_factor(),
        64
    );
    assert_eq!(
        LfeInterpolationSelection::Decimation128.decimation_factor(),
        128
    );
}

#[test]
fn spec_table_name_matches_the_c26_identifiers() {
    assert_eq!(
        LfeInterpolationSelection::Decimation64.spec_table_name(),
        "raCoeff64"
    );
    assert_eq!(
        LfeInterpolationSelection::Decimation128.spec_table_name(),
        "raCoeff128"
    );
    assert_ne!(
        LfeInterpolationSelection::Decimation64.spec_table_name(),
        LfeInterpolationSelection::Decimation128.spec_table_name()
    );
}

#[test]
fn coefficients_for_64x_is_the_lfe64_table() {
    let (lfe64, lfe128) = tables();
    assert!(core::ptr::eq(
        LfeInterpolationSelection::Decimation64.coefficients(&lfe64, &lfe128),
        lfe64.as_slice(),
    ));
}

#[test]
fn coefficients_for_128x_is_the_lfe128_table() {
    let (lfe64, lfe128) = tables();
    assert!(core::ptr::eq(
        LfeInterpolationSelection::Decimation128.coefficients(&lfe64, &lfe128),
        lfe128.as_slice(),
    ));
}

#[test]
fn coefficients_composed_with_from_decimation_select_reproduces_the_mapping() {
    let (lfe64, lfe128) = tables();
    assert!(core::ptr::eq(
        LfeInterpolationSelection::from_decimation_select(0).coefficients(&lfe64, &lfe128),
        lfe64.as_slice(),
    ));
    assert!(core::ptr::eq(
        LfeInterpolationSelection::from_decimation_select(1).coefficients(&lfe64, &lfe128),
        lfe128.as_slice(),
    ));
}

#[test]
fn variants_are_copyable_and_comparable() {
    let a = LfeInterpolationSelection::Decimation64;
    let b = a;
    assert_eq!(a, b);
    assert_ne!(a, LfeInterpolationSelection::Decimation128);

    let mut h1 = std::collections::hash_map::DefaultHasher::new();
    LfeInterpolationSelection::Decimation64.hash(&mut h1);
    let mut h2 = std::collections::hash_map::DefaultHasher::new();
    LfeInterpolationSelection::Decimation128.hash(&mut h2);
    assert_ne!(h1.finish(), h2.finish());
}

#[test]
fn variants_have_stable_debug_output() {
    let s = format!("{:?}", LfeInterpolationSelection::Decimation64);
    assert!(
        s.contains("Decimation64"),
        "Debug should name the variant, got {s:?}"
    );
    let s = format!("{:?}", LfeInterpolationSelection::Decimation128);
    assert!(
        s.contains("Decimation128"),
        "Debug should name the variant, got {s:?}"
    );
}
