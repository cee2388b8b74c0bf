use plato::device::Device;
use plato::geom::Point;
use plato::input::{
    decode_input_event, display_rotate_event, usb_event, ButtonCode, ButtonStatus, DeviceEvent, EventTime, FingerStatus, InputEvent,
    PowerSource, TouchState, ABS_MT_POSITION_X, ABS_MT_POSITION_Y, ABS_MT_PRESSURE,
    ABS_MT_TRACKING_ID, EV_ABS, EV_KEY, EV_SYN, KEY_POWER, KEY_ROTATE_DISPLAY, SLEEP_COVER,
    SYN_MT_REPORT, SYN_REPORT,
};

fn ev(kind: u16, code: u16, value: i32) -> InputEvent {
    InputEvent { time: EventTime { sec: 1, usec: 0 }, kind, code, value }
}

fn finger(e: &DeviceEvent) -> (i32, FingerStatus, Point) {
    match e {
        DeviceEvent::Finger { id, status, position, .. } => (*id, *status, *position),
        _ => panic!("not a finger event"),
    }
}

#[test]
fn usb_messages() {
    assert!(matches!(usb_event("usb plug add"), Some(DeviceEvent::Plug(PowerSource::Host))));
    assert!(matches!(usb_event("usb ac remove"), Some(DeviceEvent::Unplug(PowerSource::Wall))));
    assert!(matches!(usb_event("network bound 10.0.0.2"), Some(DeviceEvent::NetUp)));
    assert!(usb_event("usb plug").is_none());
}

#[test]
fn touches_go_down_move_and_up() {
    // Clara HD: multi-touch B, mirrored on neither axis at rotation 0 for its scheme.
    let device = Device::new("nova", "376");
    let mut state = TouchState::new(&device, (1072, 1448), 0);
    let mut out = Vec::new();
    for e in [
        ev(EV_ABS, ABS_MT_TRACKING_ID, 4),
        ev(EV_ABS, ABS_MT_POSITION_X, 10),
        ev(EV_ABS, ABS_MT_POSITION_Y, 20),
        ev(EV_ABS, ABS_MT_PRESSURE, 5),
        ev(EV_SYN, SYN_MT_REPORT, 0),
        ev(EV_SYN, SYN_REPORT, 0),
        ev(EV_ABS, ABS_MT_TRACKING_ID, 4),
        ev(EV_ABS, ABS_MT_POSITION_X, 11),
        ev(EV_SYN, SYN_MT_REPORT, 0),
        ev(EV_SYN, SYN_REPORT, 0),
        ev(EV_SYN, SYN_REPORT, 0),
    ] {
        out.extend(state.step(&device, &e));
    }
    assert_eq!(out.len(), 3);
    let (id, status, _) = finger(&out[0]);
    assert_eq!((id, status), (4, FingerStatus::Down));
    let (_, status, p) = finger(&out[1]);
    assert_eq!(status, FingerStatus::Motion);
    assert_eq!(p.y, 20);
    let (id, status, _) = finger(&out[2]);
    assert_eq!((id, status), (4, FingerStatus::Up));
}

#[test]
fn keys_and_cover() {
    let device = Device::new("nova", "376");
    let mut state = TouchState::new(&device, (1072, 1448), 0);
    let out = state.step(&device, &ev(EV_KEY, KEY_POWER, 1));
    assert!(matches!(out[0], DeviceEvent::Button { code: ButtonCode::Power, status: ButtonStatus::Pressed, .. }));
    let out = state.step(&device, &ev(EV_KEY, SLEEP_COVER, 0));
    assert!(matches!(out[0], DeviceEvent::CoverOff));
    let out = state.step(&device, &ev(EV_KEY, KEY_ROTATE_DISPLAY, 1));
    assert!(out.is_empty());
}

#[test]
fn raw_events_decode_on_both_word_sizes() {
    let mut b32: Vec<u8> = Vec::new();
    b32.extend_from_slice(&7i32.to_le_bytes());
    b32.extend_from_slice(&250i32.to_le_bytes());
    b32.extend_from_slice(&EV_ABS.to_le_bytes());
    b32.extend_from_slice(&ABS_MT_POSITION_X.to_le_bytes());
    b32.extend_from_slice(&(-12i32).to_le_bytes());
    let e = decode_input_event(&b32).unwrap();
    assert_eq!((e.time.sec, e.time.usec, e.kind, e.code, e.value), (7, 250, EV_ABS, ABS_MT_POSITION_X, -12));

    let mut b64: Vec<u8> = Vec::new();
    b64.extend_from_slice(&(-3i64).to_le_bytes());
    b64.extend_from_slice(&999_999i64.to_le_bytes());
    b64.extend_from_slice(&EV_KEY.to_le_bytes());
    b64.extend_from_slice(&KEY_POWER.to_le_bytes());
    b64.extend_from_slice(&1i32.to_le_bytes());
    let e = decode_input_event(&b64).unwrap();
    assert_eq!((e.time.sec, e.time.usec, e.kind, e.code, e.value), (-3, 999_999, EV_KEY, KEY_POWER, 1));

    assert!(decode_input_event(&b64[..20]).is_none());
    assert!(decode_input_event(&[]).is_none());
}

#[test]
fn events_that_would_overflow_do_not_fit() {
    let device = Device::new("nova", "376");
    let state = TouchState::new(&device, (1072, 1448), 0);
    assert!(state.fits(&ev(EV_ABS, ABS_MT_POSITION_X, 10)));
    assert!(state.fits(&ev(EV_KEY, KEY_POWER, 1)));
    let mut refused = 0;
    for rotation in 0..4i8 {
        let state = TouchState::new(&device, (1072, 1448), rotation);
        for code in [ABS_MT_POSITION_X, ABS_MT_POSITION_Y] {
            if !state.fits(&ev(EV_ABS, code, i32::MIN)) {
                refused += 1;
            }
            assert!(state.fits(&ev(EV_ABS, code, 5)));
        }
    }
    assert!(refused > 0);
}

#[test]
fn rotate_display_events() {
    let e = display_rotate_event(-1, EventTime { sec: 7, usec: 5 });
    assert_eq!((e.time.sec, e.time.usec), (7, 5));
    assert_eq!((e.kind, e.code, e.value), (EV_KEY, KEY_ROTATE_DISPLAY, -1));
    let e = display_rotate_event(3, EventTime { sec: 0, usec: 0 });
    assert_eq!(e.value, 3);
}
