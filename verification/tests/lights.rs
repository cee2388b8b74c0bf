use plato::lights::{LightColor, LightSensor};

#[test]
fn frontlight_leds_have_their_directories() {
    assert_eq!(LightColor::White.dir(), "lm3630a_led1b");
    assert_eq!(LightColor::Red.dir(), "lm3630a_led1a");
    assert_eq!(LightColor::Green.dir(), "lm3630a_ledb");
}

#[test]
fn a_fixed_level_reads_as_itself() {
    let mut sensor: u16 = 42;
    assert_eq!(sensor.level().unwrap(), 42);
    assert_eq!(sensor, 42);
}
