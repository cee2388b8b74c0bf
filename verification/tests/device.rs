use std::path::PathBuf;
use plato::device::{Device, Model, FrontlightKind, Orientation, EXTERNAL_CARD_ROOT, INTERNAL_CARD_ROOT};
use plato::input::{ButtonCode, KEY_HOME, KEY_POWER};

#[test]
fn test_device_library_path() {
    let device = Device::new("frost", "380");
    assert_eq!(PathBuf::from(device.library_path()), PathBuf::from(INTERNAL_CARD_ROOT));

    let device = Device::new("kraken", "380");
    assert_eq!(PathBuf::from(device.library_path()), PathBuf::from(EXTERNAL_CARD_ROOT));
}

#[test]
fn test_device_frontlight_kind() {
    let device = Device::new("frost", "380");
    assert_eq!(device.frontlight_kind(), FrontlightKind::Premixed);

    let device = Device::new("snow", "378");
    assert_eq!(device.frontlight_kind(), FrontlightKind::Natural);
}

#[test]
fn test_device_has_natural_light() {
    let device = Device::new("frost", "380");
    assert_eq!(device.has_natural_light(), true);

    let device = Device::new("pika", "378");
    assert_eq!(device.has_natural_light(), false);
}

#[test]
fn test_device_has_light_sensor() {
    let device = Device::new("daylight", "380");
    assert_eq!(device.has_lightsensor(), true);

    let device = Device::new("pika", "378");
    assert_eq!(device.has_lightsensor(), false);
}

#[test]
fn test_device_has_gyroscope() {
    let device = Device::new("frost", "380");
    assert_eq!(device.has_gyroscope(), true);

    let device = Device::new("pika", "378");
    assert_eq!(device.has_gyroscope(), false);
}

#[test]
fn test_device_has_page_turn_buttons() {
    let device = Device::new("frost", "380");
    assert_eq!(device.has_page_turn_buttons(), true);

    let device = Device::new("pika", "378");
    assert_eq!(device.has_page_turn_buttons(), false);
}

#[test]
fn test_device_should_invert_buttons() {
    let device = Device::new("frost", "380");
    assert_eq!(device.should_invert_buttons(0), false);
    assert_eq!(device.should_invert_buttons(1), false);
    assert_eq!(device.should_invert_buttons(2), true);
    assert_eq!(device.should_invert_buttons(3), true);

    let device = Device::new("pika", "378");
    assert_eq!(device.should_invert_buttons(0), false);
    assert_eq!(device.should_invert_buttons(1), true);
    assert_eq!(device.should_invert_buttons(2), true);
    assert_eq!(device.should_invert_buttons(3), false);
}

#[test]
fn test_device_orientation() {
    let device = Device::new("frost", "380");
    assert_eq!(device.orientation(0), Orientation::Landscape);
    assert_eq!(device.orientation(1), Orientation::Portrait);

    let device = Device::new("storm", "378");
    assert_eq!(device.orientation(0), Orientation::Portrait);
    assert_eq!(device.orientation(1), Orientation::Landscape);
}

#[test]
fn test_device_mark() {
    let device = Device::new("frost", "380");
    assert_eq!(device.mark(), 7);

    let device = Device::new("pika", "378");
    assert_eq!(device.mark(), 6);
}

#[test]
fn test_device_mirroring_scheme() {
    let device = Device::new("frost", "380");
    assert_eq!(device.mirroring_scheme(), (2, -1));

    let device = Device::new("pika", "378");
    assert_eq!(device.mirroring_scheme(), (2, 1));
}

#[test]
fn test_device_should_mirror_axes() {
    let device = Device::new("frost", "380");
    assert_eq!(device.should_mirror_axes(0), (false, false));
    assert_eq!(device.should_mirror_axes(1), (true, false));
    assert_eq!(device.should_mirror_axes(2), (true, true));
    assert_eq!(device.should_mirror_axes(3), (false, true));

    let device = Device::new("pika", "378");
    assert_eq!(device.should_mirror_axes(0), (false, false));
    assert_eq!(device.should_mirror_axes(1), (false, true));
    assert_eq!(device.should_mirror_axes(2), (true, true));
    assert_eq!(device.should_mirror_axes(3), (true, false));
}

#[test]
fn test_device_swapping_scheme() {
    let device = Device::new("storm", "378");
    assert_eq!(device.swapping_scheme(), 0);

    let device = Device::new("frost", "380");
    assert_eq!(device.swapping_scheme(), 1);
}

#[test]
fn test_device_should_swap_axes() {
    let device = Device::new("storm", "378");
    assert_eq!(device.should_swap_axes(0), true);
    assert_eq!(device.should_swap_axes(1), false);
    assert_eq!(device.should_swap_axes(2), true);
    assert_eq!(device.should_swap_axes(3), false);

    let device = Device::new("frost", "380");
    assert_eq!(device.should_swap_axes(0), false);
    assert_eq!(device.should_swap_axes(1), true);
    assert_eq!(device.should_swap_axes(2), false);
    assert_eq!(device.should_swap_axes(3), true);
}

#[test]
fn test_device_startup_rotation() {
    let device = Device::new("frost", "380");
    assert_eq!(device.startup_rotation(), 1);

    let device = Device::new("pika", "378");
    assert_eq!(device.startup_rotation(), 3);
}

#[test]
fn test_device_transformed_rotation() {
    let device = Device::new("frost", "380");
    assert_eq!(device.transformed_rotation(0), 0);
    assert_eq!(device.transformed_rotation(1), 3);
    assert_eq!(device.transformed_rotation(2), 2);
    assert_eq!(device.transformed_rotation(3), 1);

    let device = Device::new("pika", "378");
    assert_eq!(device.transformed_rotation(0), 0);
    assert_eq!(device.transformed_rotation(1), 1);
    assert_eq!(device.transformed_rotation(2), 2);
    assert_eq!(device.transformed_rotation(3), 3);
}

#[test]
fn device_models_and_variants() {
    assert_eq!(Device::new("frost", "380").model, Model::Forma32GB);
    assert_eq!(Device::new("frost", "377").model, Model::Forma);
    assert_eq!(Device::new("daylight", "381").model, Model::AuraONELimEd);
    assert_eq!(Device::new("unknown", "320").model, Model::TouchC);
    assert_eq!(Device::new("unknown", "").model, Model::TouchAB);
    assert_eq!(Device::new("storm", "").dims, (1264, 1680));
    assert_eq!(Device::new("pixie", "").dpi, 200);
    assert_eq!(Model::LibraH2O.name(), "Libra H₂O");
}

#[test]
fn device_rotation_transforms() {
    let hd = Device::new("dragon", "");
    assert_eq!(hd.transformed_rotation(1), 3);
    let libra = Device::new("storm", "");
    assert_eq!(libra.transformed_gyroscope_rotation(2), 3);
    assert_eq!(libra.transformed_gyroscope_rotation(3), 2);
    assert_eq!(Device::new("frost", "").transformed_gyroscope_rotation(3), 3);
    assert_eq!(libra.orientation(-1), Orientation::Landscape);
}

#[test]
fn button_codes() {
    assert_eq!(ButtonCode::from_raw(KEY_POWER), ButtonCode::Power);
    assert_eq!(ButtonCode::from_raw(KEY_HOME), ButtonCode::Home);
    assert_eq!(ButtonCode::from_raw(7), ButtonCode::Raw(7));
}
