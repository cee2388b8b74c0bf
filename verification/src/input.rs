use vstd::prelude::*;
use crate::geom::{Point, fits_i32};
use crate::device::{Device, mirror_axes_of, trunc_rem};
use crate::chars::{str_eq, chars_of, starts_with_at};

verus! {

// Event types
pub const EV_SYN: u16 = 0;
pub const EV_KEY: u16 = 1;
pub const EV_ABS: u16 = 3;

// Event codes
pub const ABS_MT_TRACKING_ID: u16 = 57;
pub const ABS_MT_POSITION_X: u16 = 53;
pub const ABS_MT_POSITION_Y: u16 = 54;
pub const ABS_MT_PRESSURE: u16 = 58;
pub const ABS_MT_TOUCH_MAJOR: u16 = 48;
pub const SYN_MT_REPORT: u16 = 2;
pub const ABS_X: u16 = 0;
pub const ABS_Y: u16 = 1;
pub const ABS_PRESSURE: u16 = 24;
pub const SYN_REPORT: u16 = 0;

pub const KEY_POWER: u16 = 116;
pub const KEY_HOME: u16 = 102;
pub const KEY_LIGHT: u16 = 90;
pub const KEY_BACKWARD: u16 = 193;
pub const KEY_FORWARD: u16 = 194;
pub const KEY_ROTATE_DISPLAY: u16 = 153;
pub const SLEEP_COVER: u16 = 59;

/// The event codes that carry the pressure and the two coordinates of a touch.
#[derive(Debug, Copy, Clone, PartialEq, Eq, Structural)]
pub struct TouchCodes {
    pub pressure: u16,
    pub x: u16,
    pub y: u16,
}

/// The touch protocol of a device.
#[derive(Debug, Copy, Clone, PartialEq, Eq, Structural)]
pub enum TouchProto {
    Single,
    MultiA,
    MultiB,
}

#[derive(Debug, Copy, Clone, PartialEq, Eq, Structural)]
pub enum FingerStatus {
    Down,
    Motion,
    Up,
}

#[derive(Debug, Copy, Clone, PartialEq, Eq, Structural)]
pub enum ButtonStatus {
    Pressed,
    Released,
}

#[derive(Debug, Copy, Clone, PartialEq, Eq, Structural, Hash)]
pub enum ButtonCode {
    Power,
    Home,
    Light,
    Backward,
    Forward,
    Raw(u16),
}

#[derive(Debug, Copy, Clone, PartialEq, Eq, Structural)]
pub enum PowerSource {
    Host,
    Wall,
}

/// The button that a key code stands for.
pub open spec fn button_of(code: u16) -> ButtonCode {
    if code == KEY_POWER {
        ButtonCode::Power
    } else if code == KEY_HOME {
        ButtonCode::Home
    } else if code == KEY_LIGHT {
        ButtonCode::Light
    } else if code == KEY_BACKWARD {
        ButtonCode::Backward
    } else if code == KEY_FORWARD {
        ButtonCode::Forward
    } else {
        ButtonCode::Raw(code)
    }
}

impl ButtonCode {
    pub fn from_raw(code: u16) -> (b: ButtonCode)
        ensures
            b == button_of(code),
    {
        if code == KEY_POWER {
            ButtonCode::Power
        } else if code == KEY_HOME {
            ButtonCode::Home
        } else if code == KEY_LIGHT {
            ButtonCode::Light
        } else if code == KEY_BACKWARD {
            ButtonCode::Backward
        } else if code == KEY_FORWARD {
            ButtonCode::Forward
        } else {
            ButtonCode::Raw(code)
        }
    }
}

/// The codes of the single touch protocol.
pub open spec fn single_touch_codes() -> TouchCodes {
    TouchCodes { pressure: ABS_PRESSURE, x: ABS_X, y: ABS_Y }
}

/// The codes of the first multi-touch protocol.
pub open spec fn multi_touch_codes_a() -> TouchCodes {
    TouchCodes { pressure: ABS_MT_TOUCH_MAJOR, x: ABS_MT_POSITION_X, y: ABS_MT_POSITION_Y }
}

/// The codes of the second multi-touch protocol.
pub open spec fn multi_touch_codes_b() -> TouchCodes {
    TouchCodes { pressure: ABS_MT_PRESSURE, x: ABS_MT_POSITION_X, y: ABS_MT_POSITION_Y }
}

pub open spec fn spec_touch_codes(proto: TouchProto) -> TouchCodes {
    match proto {
        TouchProto::Single => single_touch_codes(),
        TouchProto::MultiA => multi_touch_codes_a(),
        TouchProto::MultiB => multi_touch_codes_b(),
    }
}

/// The touch codes of a protocol.
pub fn touch_codes(proto: TouchProto) -> (tc: TouchCodes)
    ensures
        tc == spec_touch_codes(proto),
{
    match proto {
        TouchProto::Single => TouchCodes { pressure: ABS_PRESSURE, x: ABS_X, y: ABS_Y },
        TouchProto::MultiA => TouchCodes {
            pressure: ABS_MT_TOUCH_MAJOR,
            x: ABS_MT_POSITION_X,
            y: ABS_MT_POSITION_Y,
        },
        TouchProto::MultiB => TouchCodes {
            pressure: ABS_MT_PRESSURE,
            x: ABS_MT_POSITION_X,
            y: ABS_MT_POSITION_Y,
        },
    }
}

/// The time of an input event, as the kernel gives it: seconds and microseconds.
#[derive(Debug, Copy, Clone, PartialEq, Eq, Structural)]
pub struct EventTime {
    pub sec: i64,
    pub usec: i64,
}

/// An event read from an input device.
#[derive(Debug, Copy, Clone)]
pub struct InputEvent {
    pub time: EventTime,
    pub kind: u16,
    pub code: u16,
    pub value: i32,
}

/// An event of the device, as the rest of the program sees it.
#[derive(Debug, Copy, Clone)]
pub enum DeviceEvent {
    Finger { id: i32, time: EventTime, status: FingerStatus, position: Point },
    Button { time: EventTime, code: ButtonCode, status: ButtonStatus },
    Plug(PowerSource),
    Unplug(PowerSource),
    CoverOn,
    CoverOff,
    NetUp,
}

/// The event that a line of the hardware status file announces, if any.
pub open spec fn usb_event_of(msg: Seq<char>) -> Option<DeviceEvent> {
    if msg == "usb plug add"@ {
        Some(DeviceEvent::Plug(PowerSource::Host))
    } else if msg == "usb plug remove"@ {
        Some(DeviceEvent::Unplug(PowerSource::Host))
    } else if msg == "usb ac add"@ {
        Some(DeviceEvent::Plug(PowerSource::Wall))
    } else if msg == "usb ac remove"@ {
        Some(DeviceEvent::Unplug(PowerSource::Wall))
    } else if "network bound"@.len() <= msg.len() && msg.take("network bound"@.len() as int)
        == "network bound"@ {
        Some(DeviceEvent::NetUp)
    } else {
        None
    }
}

/// The event that a line of the hardware status file announces, if any.
pub fn usb_event(msg: &str) -> (e: Option<DeviceEvent>)
    ensures
        e == usb_event_of(msg@),
{
    if str_eq(msg, "usb plug add") {
        Some(DeviceEvent::Plug(PowerSource::Host))
    } else if str_eq(msg, "usb plug remove") {
        Some(DeviceEvent::Unplug(PowerSource::Host))
    } else if str_eq(msg, "usb ac add") {
        Some(DeviceEvent::Plug(PowerSource::Wall))
    } else if str_eq(msg, "usb ac remove") {
        Some(DeviceEvent::Unplug(PowerSource::Wall))
    } else {
        let v = chars_of(msg);
        let p = chars_of("network bound");
        if starts_with_at(&v, 0, &p) {
            assert(v@.subrange(0, p@.len() as int) =~= v@.take(p@.len() as int));
            Some(DeviceEvent::NetUp)
        } else {
            proof {
                if p@.len() <= v@.len() {
                    assert(v@.subrange(0, p@.len() as int) =~= v@.take(p@.len() as int));
                }
            }
            None
        }
    }
}

/// The touches under way: where each finger was last reported.
pub open spec fn finger_at(f: Seq<(i32, Point)>, id: i32) -> Option<Point>
    decreases f.len(),
{
    if f.len() == 0 {
        None
    } else if f.last().0 == id {
        Some(f.last().1)
    } else {
        finger_at(f.drop_last(), id)
    }
}

/// The fingers with `id` placed at `p`: its entry updated where it is, added at the end when
/// it is new.
pub open spec fn set_finger(f: Seq<(i32, Point)>, id: i32, p: Point) -> Seq<(i32, Point)> {
    if exists|k: int| 0 <= k < f.len() && (#[trigger] f[k]).0 == id {
        f.map_values(|e: (i32, Point)| if e.0 == id { (id, p) } else { e })
    } else {
        f.push((id, p))
    }
}

/// The fingers other than `id`.
pub open spec fn other_than(id: i32) -> spec_fn((i32, Point)) -> bool {
    |e: (i32, Point)| e.0 != id
}

/// The fingers that `ids` names.
pub open spec fn named_in(ids: Seq<i32>) -> spec_fn((i32, Point)) -> bool {
    |e: (i32, Point)| ids.contains(e.0)
}

/// The fingers that `ids` does not name.
pub open spec fn not_named_in(ids: Seq<i32>) -> spec_fn((i32, Point)) -> bool {
    |e: (i32, Point)| !ids.contains(e.0)
}

/// The fingers without `id`.
pub open spec fn remove_finger(f: Seq<(i32, Point)>, id: i32) -> Seq<(i32, Point)> {
    f.filter(other_than(id))
}

/// The ids of the fingers, without repetition.
pub open spec fn distinct_ids(f: Seq<(i32, Point)>) -> bool {
    forall|a: int, b: int| 0 <= a < b < f.len() ==> (#[trigger] f[a]).0 != (#[trigger] f[b]).0
}

/// What the decoding of touch events knows between two events.
pub ghost struct TouchView {
    pub id: i32,
    pub position: Point,
    pub pressure: i32,
    pub dims: (u32, u32),
    pub rotation: i8,
    pub proto: TouchProto,
    pub codes: TouchCodes,
    pub mirror_x: bool,
    pub mirror_y: bool,
    pub fingers: Seq<(i32, Point)>,
    pub packet_ids: Seq<i32>,
}

/// The decoding of raw input events into device events.
pub struct TouchState {
    id: i32,
    position: Point,
    pressure: i32,
    dims: (u32, u32),
    rotation: i8,
    proto: TouchProto,
    codes: TouchCodes,
    mirror_x: bool,
    mirror_y: bool,
    fingers: Vec<(i32, Point)>,
    packet_ids: Vec<i32>,
}

impl View for TouchState {
    type V = TouchView;

    closed spec fn view(&self) -> TouchView {
        TouchView {
            id: self.id,
            position: self.position,
            pressure: self.pressure,
            dims: self.dims,
            rotation: self.rotation,
            proto: self.proto,
            codes: self.codes,
            mirror_x: self.mirror_x,
            mirror_y: self.mirror_y,
            fingers: self.fingers@,
            packet_ids: self.packet_ids@,
        }
    }
}

/// The touch codes with the two coordinates exchanged.
pub open spec fn swapped(tc: TouchCodes) -> TouchCodes {
    TouchCodes { pressure: tc.pressure, x: tc.y, y: tc.x }
}

/// A coordinate as the device reports it, mirrored within `size` when `mirror` is set.
pub open spec fn coordinate(mirror: bool, size: u32, value: i32) -> int {
    if mirror {
        (size as i32) - 1 - value
    } else {
        value as int
    }
}

/// The ids with `id` added, if it is not there yet.
pub open spec fn add_id(s: Seq<i32>, id: i32) -> Seq<i32> {
    if s.contains(id) {
        s
    } else {
        s.push(id)
    }
}

/// An up event for each finger of `f`.
pub open spec fn lifts(f: Seq<(i32, Point)>, time: EventTime) -> Seq<DeviceEvent> {
    f.map_values(
        |e: (i32, Point)|
            DeviceEvent::Finger { id: e.0, time, status: FingerStatus::Up, position: e.1 },
    )
}

/// What an event changes, and the device events it gives.
pub open spec fn touch_step(s: TouchView, model: crate::device::Model, e: InputEvent) -> (
    TouchView,
    Seq<DeviceEvent>,
) {
    if e.kind == EV_ABS {
        if e.code == ABS_MT_TRACKING_ID {
            (
                TouchView {
                    id: e.value,
                    packet_ids: if s.proto == TouchProto::MultiB {
                        add_id(s.packet_ids, e.value)
                    } else {
                        s.packet_ids
                    },
                    ..s
                },
                Seq::empty(),
            )
        } else if e.code == s.codes.x {
            (
                TouchView {
                    position: Point {
                        x: coordinate(s.mirror_x, s.dims.0, e.value) as i32,
                        y: s.position.y,
                    },
                    ..s
                },
                Seq::empty(),
            )
        } else if e.code == s.codes.y {
            (
                TouchView {
                    position: Point {
                        x: s.position.x,
                        y: coordinate(s.mirror_y, s.dims.1, e.value) as i32,
                    },
                    ..s
                },
                Seq::empty(),
            )
        } else if e.code == s.codes.pressure {
            (TouchView { pressure: e.value, ..s }, Seq::empty())
        } else {
            (s, Seq::empty())
        }
    } else if e.kind == EV_SYN {
        if e.code == SYN_MT_REPORT || (s.proto == TouchProto::Single && e.code == SYN_REPORT) {
            match finger_at(s.fingers, s.id) {
                Some(p) => if s.pressure > 0 {
                    if p != s.position {
                        (
                            TouchView { fingers: set_finger(s.fingers, s.id, s.position), ..s },
                            seq![
                                DeviceEvent::Finger {
                                    id: s.id,
                                    time: e.time,
                                    status: FingerStatus::Motion,
                                    position: s.position,
                                },
                            ],
                        )
                    } else {
                        (s, Seq::empty())
                    }
                } else {
                    (
                        TouchView { fingers: remove_finger(s.fingers, s.id), ..s },
                        seq![
                            DeviceEvent::Finger {
                                id: s.id,
                                time: e.time,
                                status: FingerStatus::Up,
                                position: s.position,
                            },
                        ],
                    )
                },
                None => (
                    TouchView { fingers: set_finger(s.fingers, s.id, s.position), ..s },
                    seq![
                        DeviceEvent::Finger {
                            id: s.id,
                            time: e.time,
                            status: FingerStatus::Down,
                            position: s.position,
                        },
                    ],
                ),
            }
        } else if s.proto == TouchProto::MultiB && e.code == SYN_REPORT {
            (
                TouchView {
                    fingers: s.fingers.filter(named_in(s.packet_ids)),
                    packet_ids: Seq::empty(),
                    ..s
                },
                lifts(s.fingers.filter(not_named_in(s.packet_ids)), e.time),
            )
        } else {
            (s, Seq::empty())
        }
    } else if e.kind == EV_KEY {
        if e.code == SLEEP_COVER {
            (
                s,
                seq![
                    if e.value == 1 {
                        DeviceEvent::CoverOn
                    } else {
                        DeviceEvent::CoverOff
                    },
                ],
            )
        } else if e.code == KEY_ROTATE_DISPLAY {
            let next = e.value as i8;
            if next != s.rotation {
                let delta = if s.rotation - next < 0 {
                    next - s.rotation
                } else {
                    s.rotation - next
                };
                let swap = delta % 2 == 1;
                let m = mirror_axes_of(model, next);
                (
                    TouchView {
                        codes: if swap {
                            swapped(s.codes)
                        } else {
                            s.codes
                        },
                        dims: if swap {
                            (s.dims.1, s.dims.0)
                        } else {
                            s.dims
                        },
                        rotation: next,
                        mirror_x: m.0,
                        mirror_y: m.1,
                        ..s
                    },
                    Seq::empty(),
                )
            } else {
                (s, Seq::empty())
            }
        } else {
            (
                s,
                seq![
                    DeviceEvent::Button {
                        time: e.time,
                        code: button_of(e.code),
                        status: if e.value == 1 {
                            ButtonStatus::Pressed
                        } else {
                            ButtonStatus::Released
                        },
                    },
                ],
            )
        }
    } else {
        (s, Seq::empty())
    }
}

/// The arithmetic of an event stays within its types: mirrored coordinates fit `i32`, and a
/// rotation differs from the current one by less than 128.
pub open spec fn touch_step_fits(s: TouchView, e: InputEvent) -> bool {
    &&& e.kind == EV_ABS && e.code != ABS_MT_TRACKING_ID && e.code == s.codes.x ==> fits_i32(
        coordinate(s.mirror_x, s.dims.0, e.value),
    ) && (s.mirror_x ==> fits_i32((s.dims.0 as i32) - 1))
    &&& e.kind == EV_ABS && e.code != ABS_MT_TRACKING_ID && e.code != s.codes.x && e.code
        == s.codes.y ==> fits_i32(coordinate(s.mirror_y, s.dims.1, e.value)) && (s.mirror_y
        ==> fits_i32((s.dims.1 as i32) - 1))
    &&& e.kind == EV_KEY && e.code != SLEEP_COVER && e.code == KEY_ROTATE_DISPLAY ==> -127 <= s.rotation
        - (e.value as i8) <= 127
}

/// The touch codes of a protocol, with the coordinates exchanged at odd rotations.
pub open spec fn initial_codes(proto: TouchProto, rotation: i8) -> TouchCodes {
    if trunc_rem(rotation as int, 2) == 1 {
        swapped(spec_touch_codes(proto))
    } else {
        spec_touch_codes(proto)
    }
}

impl TouchState {
    /// The decoding state of a display of the given size and rotation, on a device.
    pub fn new(device: &Device, dims: (u32, u32), rotation: i8) -> (t: TouchState)
        ensures
            t@.id == 0,
            t@.position.x == 0 && t@.position.y == 0,
            t@.pressure == 0,
            t@.dims == dims,
            t@.rotation == rotation,
            t@.proto == device.proto,
            t@.codes == initial_codes(device.proto, rotation),
            (t@.mirror_x, t@.mirror_y) == mirror_axes_of(device.model, rotation),
            t@.fingers.len() == 0,
            t@.packet_ids.len() == 0,
    {
        let mut tc = touch_codes(device.proto);
        let (mirror_x, mirror_y) = device.should_mirror_axes(rotation);
        if rotation % 2 == 1 {
            tc = TouchCodes { pressure: tc.pressure, x: tc.y, y: tc.x };
        }
        TouchState {
            id: 0,
            position: Point { x: 0, y: 0 },
            pressure: 0,
            dims,
            rotation,
            proto: device.proto,
            codes: tc,
            mirror_x,
            mirror_y,
            fingers: Vec::new(),
            packet_ids: Vec::new(),
        }
    }

    /// Whether decoding `evt` stays within the integer types (what `step` requires).
    pub fn fits(&self, evt: &InputEvent) -> (b: bool)
        ensures
            b == touch_step_fits(self@, *evt),
    {
        if evt.kind == EV_ABS && evt.code != ABS_MT_TRACKING_ID {
            if evt.code == self.codes.x {
                let size = self.dims.0 as i32 as i64;
                if self.mirror_x {
                    let c = size - 1 - evt.value as i64;
                    return size - 1 >= i32::MIN as i64 && c >= i32::MIN as i64 && c <= i32::MAX as i64;
                }
                return true;
            } else if evt.code == self.codes.y {
                let size = self.dims.1 as i32 as i64;
                if self.mirror_y {
                    let c = size - 1 - evt.value as i64;
                    return size - 1 >= i32::MIN as i64 && c >= i32::MIN as i64 && c <= i32::MAX as i64;
                }
                return true;
            }
            true
        } else if evt.kind == EV_KEY && evt.code != SLEEP_COVER && evt.code == KEY_ROTATE_DISPLAY {
            let d = self.rotation as i16 - (evt.value as i8) as i16;
            -127 <= d && d <= 127
        } else {
            true
        }
    }

    /// Where the finger `id` was last reported.
    fn finger(&self, id: i32) -> (r: Option<Point>)
        ensures
            r == finger_at(self.fingers@, id),
    {
        let mut k = self.fingers.len();
        assert(self.fingers@.take(k as int) =~= self.fingers@);
        while k > 0
            invariant
                0 <= k <= self.fingers@.len(),
                finger_at(self.fingers@, id) == finger_at(self.fingers@.take(k as int), id),
            decreases k,
        {
            assert(self.fingers@.take(k as int).drop_last() =~= self.fingers@.take(k - 1));
            if self.fingers[k - 1].0 == id {
                return Some(self.fingers[k - 1].1);
            }
            k -= 1;
        }
        None
    }

    /// Places the finger `id` at `p`.
    fn set_finger(&mut self, id: i32, p: Point)
        ensures
            final(self)@ == (TouchView { fingers: set_finger(old(self)@.fingers, id, p), ..old(self)@ }),
    {
        let ghost f = self.fingers@;
        let n = self.fingers.len();
        let mut found = false;
        let mut k: usize = 0;
        while k < n
            invariant
                n == f.len(),
                0 <= k <= n,
                self.fingers@.len() == n,
                forall|j: int| 0 <= j < k ==> #[trigger] self.fingers@[j] == (if f[j].0 == id {
                    (id, p)
                } else {
                    f[j]
                }),
                forall|j: int| k <= j < n ==> #[trigger] self.fingers@[j] == f[j],
                found == exists|j: int| 0 <= j < k && (#[trigger] f[j]).0 == id,
                self.id == old(self).id,
                self.position == old(self).position,
                self.pressure == old(self).pressure,
                self.dims == old(self).dims,
                self.rotation == old(self).rotation,
                self.proto == old(self).proto,
                self.codes == old(self).codes,
                self.mirror_x == old(self).mirror_x,
                self.mirror_y == old(self).mirror_y,
                self.packet_ids == old(self).packet_ids,
                f == old(self).fingers@,
            decreases n - k,
        {
            if self.fingers[k].0 == id {
                self.fingers.set(k, (id, p));
                found = true;
            }
            k += 1;
        }
        if !found {
            self.fingers.push((id, p));
            assert(self.fingers@ =~= set_finger(f, id, p));
        } else {
            assert(self.fingers@ =~= set_finger(f, id, p));
        }
    }

    /// Keeps the fingers for which `keep` is set: those other than `id`, or those in the
    /// packet. Returns the others.
    fn retain_fingers(&mut self, by_packet: bool, id: i32) -> (gone: Vec<(i32, Point)>)
        ensures
            by_packet ==> final(self)@.fingers == old(self)@.fingers.filter(
                named_in(old(self)@.packet_ids),
            ),
            by_packet ==> gone@ == old(self)@.fingers.filter(not_named_in(old(self)@.packet_ids)),
            !by_packet ==> final(self)@.fingers == remove_finger(old(self)@.fingers, id),
            final(self)@ == (TouchView { fingers: final(self)@.fingers, ..old(self)@ }),
    {
        let ghost f = self.fingers@;
        let ghost ids = self.packet_ids@;
        let ghost keep = if by_packet {
            named_in(ids)
        } else {
            other_than(id)
        };
        let ghost drop = if by_packet {
            not_named_in(ids)
        } else {
            |e: (i32, Point)| e.0 == id
        };
        let mut kept: Vec<(i32, Point)> = Vec::new();
        let mut gone: Vec<(i32, Point)> = Vec::new();
        let mut k: usize = 0;
        while k < self.fingers.len()
            invariant
                0 <= k <= f.len(),
                self.fingers@ == f,
                self.packet_ids@ == ids,
                keep == if by_packet {
                    named_in(ids)
                } else {
                    other_than(id)
                },
                drop == if by_packet {
                    not_named_in(ids)
                } else {
                    |e: (i32, Point)| e.0 == id
                },
                kept@ == f.take(k as int).filter(keep),
                gone@ == f.take(k as int).filter(drop),
            decreases f.len() - k,
        {
            let e = self.fingers[k];
            proof {
                assert(f.take(k + 1) =~= f.take(k as int).push(e));
                f.take(k as int).lemma_filter_push(e, keep);
                f.take(k as int).lemma_filter_push(e, drop);
            }
            let stays = if by_packet {
                contains_id(&self.packet_ids, e.0)
            } else {
                e.0 != id
            };
            if stays {
                kept.push(e);
            } else {
                gone.push(e);
            }
            k += 1;
        }
        assert(f.take(f.len() as int) =~= f);
        self.fingers = kept;
        gone
    }

    /// Decodes one raw event: the state changes and the device events that come of it.
    pub fn step(&mut self, device: &Device, evt: &InputEvent) -> (events: Vec<DeviceEvent>)
        requires
            touch_step_fits(old(self)@, *evt),
        ensures
            (final(self)@, events@) == touch_step(old(self)@, device.model, *evt),
    {
        let mut events: Vec<DeviceEvent> = Vec::new();
        if evt.kind == EV_ABS {
            if evt.code == ABS_MT_TRACKING_ID {
                self.id = evt.value;
                if self.proto == TouchProto::MultiB {
                    if !contains_id(&self.packet_ids, evt.value) {
                        self.packet_ids.push(evt.value);
                    }
                }
            } else if evt.code == self.codes.x {
                self.position.x = if self.mirror_x {
                    self.dims.0 as i32 - 1 - evt.value
                } else {
                    evt.value
                };
            } else if evt.code == self.codes.y {
                self.position.y = if self.mirror_y {
                    self.dims.1 as i32 - 1 - evt.value
                } else {
                    evt.value
                };
            } else if evt.code == self.codes.pressure {
                self.pressure = evt.value;
            }
        } else if evt.kind == EV_SYN {
            if evt.code == SYN_MT_REPORT || (self.proto == TouchProto::Single && evt.code
                == SYN_REPORT) {
                let id = self.id;
                let position = self.position;
                match self.finger(id) {
                    Some(p) => {
                        if self.pressure > 0 {
                            if p != position {
                                events.push(
                                    DeviceEvent::Finger {
                                        id,
                                        time: evt.time,
                                        status: FingerStatus::Motion,
                                        position,
                                    },
                                );
                                self.set_finger(id, position);
                            }
                        } else {
                            events.push(
                                DeviceEvent::Finger {
                                    id,
                                    time: evt.time,
                                    status: FingerStatus::Up,
                                    position,
                                },
                            );
                            self.retain_fingers(false, id);
                        }
                    },
                    None => {
                        events.push(
                            DeviceEvent::Finger {
                                id,
                                time: evt.time,
                                status: FingerStatus::Down,
                                position,
                            },
                        );
                        self.set_finger(id, position);
                    },
                }
            } else if self.proto == TouchProto::MultiB && evt.code == SYN_REPORT {
                let gone = self.retain_fingers(true, 0);
                let mut k: usize = 0;
                while k < gone.len()
                    invariant
                        0 <= k <= gone@.len(),
                        events@ == lifts(gone@.take(k as int), evt.time),
                    decreases gone@.len() - k,
                {
                    let (fid, fpos) = gone[k];
                    events.push(
                        DeviceEvent::Finger {
                            id: fid,
                            time: evt.time,
                            status: FingerStatus::Up,
                            position: fpos,
                        },
                    );
                    assert(lifts(gone@.take(k + 1), evt.time) =~= lifts(gone@.take(k as int), evt.time).push(
                        events@.last(),
                    ));
                    k += 1;
                }
                assert(gone@.take(gone@.len() as int) =~= gone@);
                self.packet_ids = Vec::new();
            }
        } else if evt.kind == EV_KEY {
            if evt.code == SLEEP_COVER {
                if evt.value == 1 {
                    events.push(DeviceEvent::CoverOn);
                } else {
                    events.push(DeviceEvent::CoverOff);
                }
            } else if evt.code == KEY_ROTATE_DISPLAY {
                let next_rotation = evt.value as i8;
                if next_rotation != self.rotation {
                    let diff = self.rotation - next_rotation;
                    let delta = if diff < 0 {
                        -diff
                    } else {
                        diff
                    };
                    if delta % 2 == 1 {
                        self.codes = TouchCodes {
                            pressure: self.codes.pressure,
                            x: self.codes.y,
                            y: self.codes.x,
                        };
                        self.dims = (self.dims.1, self.dims.0);
                    }
                    self.rotation = next_rotation;
                    let should_mirror = device.should_mirror_axes(next_rotation);
                    self.mirror_x = should_mirror.0;
                    self.mirror_y = should_mirror.1;
                }
            } else {
                events.push(
                    DeviceEvent::Button {
                        time: evt.time,
                        code: ButtonCode::from_raw(evt.code),
                        status: if evt.value == 1 {
                            ButtonStatus::Pressed
                        } else {
                            ButtonStatus::Released
                        },
                    },
                );
            }
        }
        proof {
            assert(events@ =~= touch_step(old(self)@, device.model, *evt).1);
        }
        events
    }
}

/// Whether `id` is among `ids`.
fn contains_id(ids: &Vec<i32>, id: i32) -> (b: bool)
    ensures
        b == ids@.contains(id),
{
    let mut k: usize = 0;
    while k < ids.len()
        invariant
            0 <= k <= ids@.len(),
            forall|j: int| 0 <= j < k ==> ids@[j] != id,
        decreases ids@.len() - k,
    {
        if ids[k] == id {
            return true;
        }
        k += 1;
    }
    false
}

/// The decoding tracks each finger once, and lists each id of a packet once.
pub open spec fn touch_invariant(s: TouchView) -> bool {
    distinct_ids(s.fingers) && s.packet_ids.no_duplicates()
}

/// Keeping some fingers keeps their ids distinct.
proof fn lemma_filter_distinct(f: Seq<(i32, Point)>, p: spec_fn((i32, Point)) -> bool)
    requires
        distinct_ids(f),
    ensures
        distinct_ids(f.filter(p)),
        forall|e: (i32, Point)| f.filter(p).contains(e) ==> f.contains(e),
    decreases f.len(),
{
    broadcast use vstd::seq_lib::group_filter_ensures;

    if f.len() > 0 {
        let d = f.drop_last();
        let x = f.last();
        lemma_filter_distinct(d, p);
        assert(f =~= d.push(x));
        d.lemma_filter_push(x, p);
        let g = d.filter(p);
        assert forall|e: (i32, Point)| f.filter(p).contains(e) implies f.contains(e) by {
            if e != x {
                let k = choose|k: int| 0 <= k < f.filter(p).len() && f.filter(p)[k] == e;
                if p(x) {
                    assert(k < g.len());
                    assert(g[k] == e);
                } else {
                    assert(g[k] == e);
                }
                assert(g.contains(e));
                assert(d.contains(e));
                let j = choose|j: int| 0 <= j < d.len() && d[j] == e;
                assert(f[j] == e);
            } else {
                assert(f[f.len() - 1] == e);
            }
        }
        if p(x) {
            assert forall|a: int, b: int|
                0 <= a < b < f.filter(p).len() implies (#[trigger] f.filter(p)[a]).0 != (
            #[trigger] f.filter(p)[b]).0 by {
                if b == f.filter(p).len() - 1 {
                    let e = g[a];
                    assert(g.contains(e));
                    assert(d.contains(e));
                    let j = choose|j: int| 0 <= j < d.len() && d[j] == e;
                    assert(d[j] == f[j]);
                    assert(f[j] == e);
                    assert(f[j].0 != f[f.len() - 1].0);
                } else {
                    assert(f.filter(p)[a] == g[a]);
                    assert(f.filter(p)[b] == g[b]);
                }
            }
        }
    } else {
        assert(f.filter(p) =~= f) by {
            reveal(Seq::filter);
        }
    }
}

/// Each event keeps the fingers distinct, and the ids of a packet too.
pub proof fn lemma_step_keeps_ids_distinct(
    s: TouchView,
    model: crate::device::Model,
    e: InputEvent,
)
    requires
        touch_invariant(s),
    ensures
        touch_invariant(touch_step(s, model, e).0),
{
    let f = s.fingers;
    if e.kind == EV_ABS && e.code == ABS_MT_TRACKING_ID && s.proto == TouchProto::MultiB {
        let t = add_id(s.packet_ids, e.value);
        if !s.packet_ids.contains(e.value) {
            assert forall|a: int, b: int| 0 <= a < b < t.len() implies t[a] != t[b] by {
                if b == t.len() - 1 {
                    assert(s.packet_ids[a] == t[a]);
                }
            }
        }
    }
    if e.kind == EV_SYN {
        let id = s.id;
        let p = s.position;
        if exists|k: int| 0 <= k < f.len() && (#[trigger] f[k]).0 == id {
            let g = set_finger(f, id, p);
            assert forall|a: int, b: int| 0 <= a < b < g.len() implies (#[trigger] g[a]).0 != (
            #[trigger] g[b]).0 by {
                assert(g[a].0 == f[a].0);
                assert(g[b].0 == f[b].0);
            }
        } else {
            let g = set_finger(f, id, p);
            assert forall|a: int, b: int| 0 <= a < b < g.len() implies (#[trigger] g[a]).0 != (
            #[trigger] g[b]).0 by {
                if b == g.len() - 1 {
                    assert(g[a] == f[a]);
                }
            }
        }
        lemma_filter_distinct(f, other_than(id));
        lemma_filter_distinct(f, named_in(s.packet_ids));
    }
}

/// `256` to the power `e`.
pub open spec fn pow256(e: nat) -> int
    decreases e,
{
    if e == 0 {
        1
    } else {
        256 * pow256((e - 1) as nat)
    }
}

/// The unsigned number that the `n` bytes of `s` from `off` write, least significant first.
pub open spec fn le_value(s: Seq<u8>, off: int, n: nat) -> int
    decreases n,
{
    if n == 0 {
        0
    } else {
        s[off] + 256 * le_value(s, off + 1, (n - 1) as nat)
    }
}

/// The signed number that the `n` bytes of `s` from `off` write in two's complement.
pub open spec fn le_signed(s: Seq<u8>, off: int, n: nat) -> int {
    let v = le_value(s, off, n);
    if v < pow256(n) / 2 {
        v
    } else {
        v - pow256(n)
    }
}

/// The event that the bytes of a kernel `input_event` hold: 16 bytes on 32-bit systems (two
/// 4-byte time fields), 24 on 64-bit ones (two 8-byte time fields), then the type, the code and
/// the value, all little-endian.
pub open spec fn input_event_of(s: Seq<u8>) -> Option<InputEvent> {
    if s.len() == 16 || s.len() == 24 {
        let w: nat = if s.len() == 16 {
            4
        } else {
            8
        };
        let t = 2 * w;
        Some(
            InputEvent {
                time: EventTime {
                    sec: le_signed(s, 0, w) as i64,
                    usec: le_signed(s, w as int, w) as i64,
                },
                kind: le_value(s, t as int, 2) as u16,
                code: le_value(s, t as int + 2, 2) as u16,
                value: le_signed(s, t as int + 4, 4) as i32,
            },
        )
    } else {
        None
    }
}

proof fn lemma_le_value_bound(s: Seq<u8>, off: int, n: nat)
    ensures
        0 <= le_value(s, off, n) < pow256(n),
    decreases n,
{
    if n > 0 {
        lemma_le_value_bound(s, off + 1, (n - 1) as nat);
        let r = le_value(s, off + 1, (n - 1) as nat);
        assert(s[off] + 256 * r < 256 * pow256((n - 1) as nat)) by (nonlinear_arith)
            requires
                0 <= r < pow256((n - 1) as nat),
                0 <= s[off] < 256,
        ;
    }
}

/// The unsigned number that `b[off..off + n]` writes, least significant byte first.
fn read_le(b: &[u8], off: usize, n: usize) -> (v: u64)
    requires
        off + n <= b@.len(),
        n <= 8,
    ensures
        v == le_value(b@, off as int, n as nat),
{
    let mut acc: u64 = 0;
    let mut k = n;
    let len = b.len();
    proof {
        reveal_with_fuel(pow256, 9);
    }
    while k > 0
        invariant
            0 <= k <= n <= 8,
            off + n <= b@.len(),
            len == b@.len(),
            acc == le_value(b@, off + k, (n - k) as nat),
            pow256(8) == 0x10000000000000000,
        decreases k,
    {
        proof {
            lemma_le_value_bound(b@, off + k, (n - k) as nat);
            lemma_pow256_monotone((n - k) as nat, 7);
            assert(acc * 256 + 255 < pow256(8)) by (nonlinear_arith)
                requires
                    acc < pow256((n - k) as nat),
                    pow256((n - k) as nat) <= pow256(7),
                    pow256(8) == 256 * pow256(7),
            ;
        }
        acc = acc * 256 + b[off + k - 1] as u64;
        k -= 1;
    }
    acc
}

proof fn lemma_pow256_monotone(a: nat, b: nat)
    requires
        a <= b,
    ensures
        1 <= pow256(a) <= pow256(b),
    decreases b,
{
    if b > 0 && a < b {
        lemma_pow256_monotone(a, (b - 1) as nat);
    } else if b > 0 {
        lemma_pow256_monotone(0, (b - 1) as nat);
    }
}

/// The signed number that `b[off..off + n]` writes in two's complement, `n` being 4 or 8.
fn read_signed(b: &[u8], off: usize, n: usize) -> (v: i64)
    requires
        off + n <= b@.len(),
        n == 4 || n == 8,
    ensures
        v == le_signed(b@, off as int, n as nat),
{
    let u = read_le(b, off, n);
    proof {
        lemma_le_value_bound(b@, off as int, n as nat);
        reveal_with_fuel(pow256, 9);
    }
    if n == 4 {
        if u < 0x80000000 {
            u as i64
        } else {
            (u as i64) - 0x100000000
        }
    } else {
        if u < 0x8000000000000000 {
            u as i64
        } else {
            ((u as i128) - 0x10000000000000000i128) as i64
        }
    }
}

/// The event that the bytes of a kernel `input_event` hold, if there are as many as on a
/// 32-bit or a 64-bit system.
pub fn decode_input_event(b: &[u8]) -> (e: Option<InputEvent>)
    ensures
        e == input_event_of(b@),
{
    let len = b.len();
    if len != 16 && len != 24 {
        return None;
    }
    let w: usize = if len == 16 {
        4
    } else {
        8
    };
    let t = 2 * w;
    let sec = read_signed(b, 0, w);
    let usec = read_signed(b, w, w);
    let kind = read_le(b, t, 2);
    let code = read_le(b, t + 2, 2);
    let value = read_signed(b, t + 4, 4);
    proof {
        reveal_with_fuel(pow256, 5);
        lemma_le_value_bound(b@, t as int, 2);
        lemma_le_value_bound(b@, t + 2, 2);
        lemma_le_value_bound(b@, t + 4, 4);
    }
    Some(
        InputEvent {
            time: EventTime { sec, usec },
            kind: kind as u16,
            code: code as u16,
            value: value as i32,
        },
    )
}

/// The event that asks for the display to turn to rotation `n`, stamped with the given time.
pub fn display_rotate_event(n: i8, time: EventTime) -> (e: InputEvent)
    ensures
        e.time == time,
        e.kind == EV_KEY,
        e.code == KEY_ROTATE_DISPLAY,
        e.value == n as i32,
{
    InputEvent { time, kind: EV_KEY, code: KEY_ROTATE_DISPLAY, value: n as i32 }
}


/// The key code that reports a button.
pub open spec fn key_code(b: ButtonCode) -> u16 {
    match b {
        ButtonCode::Power => KEY_POWER,
        ButtonCode::Home => KEY_HOME,
        ButtonCode::Light => KEY_LIGHT,
        ButtonCode::Backward => KEY_BACKWARD,
        ButtonCode::Forward => KEY_FORWARD,
        ButtonCode::Raw(c) => c,
    }
}

/// A key code is read as the button that it reports: the button of a code is reported by
/// that very code, and each named button is read back from its own key code (the page-back
/// button from `KEY_BACKWARD`, the page-forward button from `KEY_FORWARD`, and so on).
pub proof fn lemma_button_of_key_code(code: u16, b: ButtonCode)
    ensures
        key_code(button_of(code)) == code,
        !(b is Raw) ==> button_of(key_code(b)) == b,
        button_of(code) is Raw <==> (code != KEY_POWER && code != KEY_HOME && code != KEY_LIGHT && code
            != KEY_BACKWARD && code != KEY_FORWARD),
{
}

} // verus!
