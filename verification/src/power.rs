//! How the reader answers the events of its power life: the power button, the sleep cover,
//! the USB cable, sharing the storage, rotation, inactivity, the battery and the timed tasks
//! that prepare a suspension, suspend the device and check the battery. Each event takes a
//! state to the next one and to the actions that the caller carries out, in order.
use vstd::prelude::*;
use crate::device::Orientation;
use crate::input::PowerSource;
use crate::settings::RotationLock;

verus! {

/// What a timed task does when it comes due.
#[derive(Debug, Copy, Clone, PartialEq, Eq, Structural)]
pub enum TaskId {
    CheckBattery,
    PrepareSuspend,
    Suspend,
}

/// A timed task: what it does, the number it was scheduled under, and whether it has come
/// due and nobody has looked at that yet.
#[derive(Debug, Copy, Clone, PartialEq, Eq, Structural)]
pub struct Task {
    pub id: TaskId,
    pub serial: u64,
    pub occurred: bool,
}

/// The settings that the power decisions read.
#[derive(Debug, Copy, Clone)]
pub struct PowerSettings {
    /// Closing the cover suspends the device.
    pub sleep_cover: bool,
    /// Plugging into a computer shares the storage without asking.
    pub auto_share: bool,
    /// Minutes of inactivity before the device suspends itself; zero for never.
    pub auto_suspend: u8,
    /// Days of suspension before the device powers off; zero for never.
    pub auto_power_off: u8,
    pub wifi: bool,
    pub frontlight: bool,
    pub rotation_lock: Option<RotationLock>,
    /// Books are imported when the storage stops being shared.
    pub import_on_unshare: bool,
}

/// The power state: whether a cable is plugged in, the cover closed and the storage shared;
/// the pending timed tasks, in the order they were scheduled; the number of the next task;
/// and the settings.
#[derive(Debug)]
pub struct PowerState {
    pub plugged: bool,
    pub covered: bool,
    pub shared: bool,
    pub tasks: Vec<Task>,
    pub next_serial: u64,
    pub settings: PowerSettings,
}

/// The power state as a value.
pub struct PowerModel {
    pub plugged: bool,
    pub covered: bool,
    pub shared: bool,
    pub tasks: Seq<Task>,
    pub next_serial: u64,
    pub settings: PowerSettings,
}

impl PowerState {
    pub open spec fn model(self) -> PowerModel {
        PowerModel {
            plugged: self.plugged,
            covered: self.covered,
            shared: self.shared,
            tasks: self.tasks@,
            next_serial: self.next_serial,
            settings: self.settings,
        }
    }
}

/// What happened.
#[derive(Debug, Copy, Clone)]
pub enum PowerEvent {
    /// The power button was released.
    PowerButton,
    /// The light button was pressed.
    LightButton,
    /// The power button was held long.
    PowerHeld,
    CoverOn,
    CoverOff,
    /// The network came up.
    NetUp,
    Plug(PowerSource),
    Unplug,
    /// The device asks to turn to `rotation`, which has the given orientation.
    RotateScreen { rotation: i8, orientation: Orientation },
    UserActivity,
    /// The inactivity clock ticked; the device has been idle that many nanoseconds.
    MightSuspend { idle_nanos: u128 },
    /// The timed task of that number came due.
    TaskDue(u64),
    /// The battery was read: whether its capacity is below the power-off level, and below
    /// the warning level.
    BatteryRead { below_power_off: bool, below_warn: bool },
    /// The wake alarm was looked at after a suspension: enabled or not, if it could be read.
    AlarmChecked(Option<bool>),
    PrepareShare,
    Share,
    /// The settings were read again after sharing, if they could be.
    SettingsReloaded(Option<PowerSettings>),
}

/// What the caller does.
#[derive(Debug, Copy, Clone, PartialEq, Eq, Structural)]
pub enum PowerAction {
    /// Show the suspension screen.
    ShowSuspendScreen,
    /// Start the timer of the task with that number.
    Schedule(TaskId, u64),
    /// Set the frontlight to the saved levels.
    RestoreFrontlight,
    /// Save the frontlight levels and turn it off.
    DarkenFrontlight,
    /// Turn the frontlight off.
    LightsOff,
    EnableWifi,
    DisableWifi,
    /// Take the intermission screen away.
    RemoveIntermission,
    SendClockTick,
    SendBatteryTick,
    ToggleFrontlight,
    /// Tell that the network is up.
    ShowNetUp,
    /// Ask for the storage to be shared.
    PrepareShare,
    /// Ask the user whether to share the storage.
    ConfirmShare,
    /// Count inactivity from now.
    ResetInactivity,
    DisableUsb,
    ReloadSettings,
    /// Reboot if an update waits to be installed.
    CheckUpdateBundle,
    ReloadLibrary,
    ImportBooks,
    Reseed,
    SelectRotation(i8),
    /// Hand the event on to the views.
    ForwardToView,
    ReadBattery,
    PowerOff,
    ShowLowBattery,
    /// Wait for the screen updates under way.
    WaitUpdates,
    SaveSettings,
    FlushLibrary,
    SetAlarm,
    Sleep,
    CheckAlarm,
    DisableAlarm,
    /// Go back out of every view.
    UnwindViews,
    ShowShareScreen,
    SendShare,
    EnableUsb,
}

/// Whether a task of that kind is pending.
pub open spec fn has_task(ts: Seq<Task>, id: TaskId) -> bool {
    exists|i: int| 0 <= i < ts.len() && (#[trigger] ts[i]).id == id
}

/// Whether the device is on its way to a suspension, or suspended.
pub open spec fn suspending(ts: Seq<Task>) -> bool {
    has_task(ts, TaskId::PrepareSuspend) || has_task(ts, TaskId::Suspend)
}

/// The first task of that kind, from `i` on, that came due and was not looked at.
pub open spec fn first_occurred(ts: Seq<Task>, id: TaskId, i: int) -> Option<int>
    decreases ts.len() - i,
{
    if i < 0 || i >= ts.len() {
        None
    } else if ts[i].id == id && ts[i].occurred {
        Some(i)
    } else {
        first_occurred(ts, id, i + 1)
    }
}

/// Asking whether a task of that kind came due: the first such task is looked at, which
/// clears its mark.
pub open spec fn consume(ts: Seq<Task>, id: TaskId) -> (bool, Seq<Task>) {
    match first_occurred(ts, id, 0) {
        Some(i) => (true, ts.update(i, Task { occurred: false, ..ts[i] })),
        None => (false, ts),
    }
}

/// The tasks without those of that kind.
pub open spec fn drop_tasks(ts: Seq<Task>, id: TaskId) -> Seq<Task>
    decreases ts.len(),
{
    if ts.len() == 0 {
        Seq::empty()
    } else {
        let r = drop_tasks(ts.drop_last(), id);
        if ts.last().id == id {
            r
        } else {
            r.push(ts.last())
        }
    }
}

/// The first task, from `i` on, with that number.
pub open spec fn find_serial(ts: Seq<Task>, serial: u64, i: int) -> Option<int>
    decreases ts.len() - i,
{
    if i < 0 || i >= ts.len() {
        None
    } else if ts[i].serial == serial {
        Some(i)
    } else {
        find_serial(ts, serial, i + 1)
    }
}

/// The number after `n`, going round after the last.
pub open spec fn next_number(n: u64) -> u64 {
    if n == u64::MAX {
        0
    } else {
        (n + 1) as u64
    }
}

pub open spec fn with_tasks(m: PowerModel, ts: Seq<Task>) -> PowerModel {
    PowerModel { tasks: ts, ..m }
}

/// Scheduling a task of that kind under the next number.
pub open spec fn schedule(m: PowerModel, id: TaskId) -> (PowerModel, PowerAction) {
    (
        PowerModel {
            tasks: m.tasks.push(Task { id, serial: m.next_serial, occurred: false }),
            next_serial: next_number(m.next_serial),
            ..m
        },
        PowerAction::Schedule(id, m.next_serial),
    )
}

/// Waking up from a suspension (`Suspend`) or calling one off (`PrepareSuspend`).
pub open spec fn resume(m: PowerModel, id: TaskId) -> (PowerModel, Seq<PowerAction>) {
    let (ts, acts) = if id == TaskId::Suspend {
        (
            drop_tasks(m.tasks, TaskId::Suspend),
            (if m.settings.frontlight { seq![PowerAction::RestoreFrontlight] } else { seq![] }) + (
            if m.settings.wifi {
                seq![PowerAction::EnableWifi]
            } else {
                seq![]
            }),
        )
    } else {
        (m.tasks, seq![])
    };
    (
        with_tasks(m, drop_tasks(ts, TaskId::PrepareSuspend)),
        acts + seq![PowerAction::RemoveIntermission, PowerAction::SendClockTick, PowerAction::SendBatteryTick],
    )
}

/// Starting on the way to a suspension: the suspension screen, then the task that prepares it.
pub open spec fn begin_suspend(m: PowerModel) -> (PowerModel, Seq<PowerAction>) {
    let (m1, a) = schedule(m, TaskId::PrepareSuspend);
    (m1, seq![PowerAction::ShowSuspendScreen, a])
}

/// Waking up, or calling off the way to a suspension, whichever is under way.
pub open spec fn resume_any(m: PowerModel) -> (PowerModel, Seq<PowerAction>) {
    if has_task(m.tasks, TaskId::PrepareSuspend) {
        resume(m, TaskId::PrepareSuspend)
    } else if has_task(m.tasks, TaskId::Suspend) {
        resume(m, TaskId::Suspend)
    } else {
        (m, seq![])
    }
}

/// When a suspension that already happened is found, it is scheduled again from now.
pub open spec fn reschedule_suspend(m: PowerModel) -> Option<(PowerModel, Seq<PowerAction>)> {
    let (found, ts) = consume(m.tasks, TaskId::Suspend);
    if found {
        let (m1, a) = schedule(with_tasks(m, drop_tasks(ts, TaskId::Suspend)), TaskId::Suspend);
        Some((m1, seq![a]))
    } else {
        None
    }
}

/// Saving what a suspension or a share loses: the settings, the library, the frontlight
/// levels and the network.
pub open spec fn put_away(s: PowerSettings) -> Seq<PowerAction> {
    seq![PowerAction::SaveSettings, PowerAction::FlushLibrary] + (if s.frontlight {
        seq![PowerAction::DarkenFrontlight]
    } else {
        seq![]
    }) + (if s.wifi {
        seq![PowerAction::DisableWifi]
    } else {
        seq![]
    })
}

/// Whether the rotation lock forbids turning to a screen of that orientation.
pub open spec fn rotation_locked(lock: Option<RotationLock>, o: Orientation) -> bool {
    match lock {
        None => false,
        Some(RotationLock::Current) => true,
        Some(RotationLock::Portrait) => o == Orientation::Landscape,
        Some(RotationLock::Landscape) => o == Orientation::Portrait,
    }
}

/// What the settings being read again after sharing brings back.
pub open spec fn after_reload(s: PowerSettings) -> Seq<PowerAction> {
    (if s.wifi { seq![PowerAction::EnableWifi] } else { seq![] }) + (if s.frontlight {
        seq![PowerAction::RestoreFrontlight]
    } else {
        seq![]
    }) + seq![PowerAction::RemoveIntermission, PowerAction::CheckUpdateBundle, PowerAction::ReloadLibrary]
        + (if s.import_on_unshare { seq![PowerAction::ImportBooks] } else { seq![] }) + seq![PowerAction::Reseed]
}

/// What a timed task does when it comes due, its mark already set.
pub open spec fn task_due(m: PowerModel, id: TaskId) -> (PowerModel, Seq<PowerAction>) {
    match id {
        TaskId::CheckBattery => {
            let (m1, a) = schedule(m, TaskId::CheckBattery);
            if suspending(m1.tasks) {
                (m1, seq![a])
            } else {
                (m1, seq![a, PowerAction::ReadBattery])
            }
        },
        TaskId::PrepareSuspend => {
            let (m1, a) = schedule(with_tasks(m, drop_tasks(m.tasks, TaskId::PrepareSuspend)), TaskId::Suspend);
            (m1, seq![PowerAction::WaitUpdates] + put_away(m.settings) + seq![a])
        },
        TaskId::Suspend => {
            let alarm = m.settings.auto_power_off > 0;
            (
                m,
                (if alarm { seq![PowerAction::SetAlarm] } else { seq![] }) + seq![PowerAction::Sleep, PowerAction::ResetInactivity]
                    + (if alarm { seq![PowerAction::CheckAlarm] } else { seq![] }),
            )
        },
    }
}

/// The next state and the actions of an event.
pub open spec fn power_transition(m: PowerModel, e: PowerEvent) -> (PowerModel, Seq<PowerAction>) {
    match e {
        PowerEvent::PowerButton => if m.shared || m.covered {
            (m, seq![])
        } else if suspending(m.tasks) {
            resume_any(m)
        } else {
            begin_suspend(m)
        },
        PowerEvent::LightButton => (m, seq![PowerAction::ToggleFrontlight]),
        PowerEvent::PowerHeld => (m, seq![PowerAction::PowerOff]),
        PowerEvent::CoverOn => {
            let m1 = PowerModel { covered: true, ..m };
            if !m.settings.sleep_cover || m.shared || suspending(m.tasks) {
                (m1, seq![])
            } else {
                begin_suspend(m1)
            }
        },
        PowerEvent::CoverOff => {
            let m1 = PowerModel { covered: false, ..m };
            if m.shared {
                (m1, seq![])
            } else if !m.settings.sleep_cover {
                match reschedule_suspend(m1) {
                    Some(r) => r,
                    None => (m1, seq![]),
                }
            } else {
                resume_any(m1)
            }
        },
        PowerEvent::NetUp => if suspending(m.tasks) {
            (m, seq![])
        } else {
            (m, seq![PowerAction::ShowNetUp])
        },
        PowerEvent::Plug(source) => if m.plugged {
            (m, seq![])
        } else {
            let m1 = PowerModel { plugged: true, tasks: drop_tasks(m.tasks, TaskId::CheckBattery), ..m };
            if m.covered {
                (m1, seq![])
            } else {
                match source {
                    PowerSource::Wall => match reschedule_suspend(m1) {
                        Some(r) => r,
                        None => (m1, seq![PowerAction::SendBatteryTick]),
                    },
                    PowerSource::Host => {
                        let (m2, acts) = resume_any(m1);
                        let share = if m.settings.auto_share {
                            PowerAction::PrepareShare
                        } else {
                            PowerAction::ConfirmShare
                        };
                        (m2, acts + seq![share, PowerAction::ResetInactivity, PowerAction::SendBatteryTick])
                    },
                }
            }
        },
        PowerEvent::Unplug => if !m.plugged {
            (m, seq![])
        } else if m.shared {
            (PowerModel { shared: false, ..m }, seq![PowerAction::DisableUsb, PowerAction::ReloadSettings])
        } else {
            let (m1, a) = schedule(PowerModel { plugged: false, ..m }, TaskId::CheckBattery);
            let (found, ts) = consume(m1.tasks, TaskId::Suspend);
            if !found {
                (m1, seq![a, PowerAction::SendBatteryTick])
            } else if m.covered {
                let (m2, b) = schedule(with_tasks(m1, drop_tasks(ts, TaskId::Suspend)), TaskId::Suspend);
                (m2, seq![a, b])
            } else {
                let (m2, acts) = resume(with_tasks(m1, ts), TaskId::Suspend);
                (m2, seq![a] + acts)
            }
        },
        PowerEvent::SettingsReloaded(opt) => {
            let s = match opt {
                Some(s) => s,
                None => m.settings,
            };
            (PowerModel { settings: s, ..m }, after_reload(s))
        },
        PowerEvent::RotateScreen { rotation, orientation } => if m.shared || suspending(m.tasks)
            || rotation_locked(m.settings.rotation_lock, orientation) {
            (m, seq![])
        } else {
            (m, seq![PowerAction::SelectRotation(rotation)])
        },
        PowerEvent::UserActivity => if m.settings.auto_suspend > 0 {
            (m, seq![PowerAction::ResetInactivity])
        } else {
            (m, seq![PowerAction::ForwardToView])
        },
        PowerEvent::MightSuspend { idle_nanos } => if m.settings.auto_suspend == 0 {
            (m, seq![PowerAction::ForwardToView])
        } else if m.shared || suspending(m.tasks) {
            (m, seq![PowerAction::ResetInactivity])
        } else if idle_nanos > 60 * 1_000_000_000 * (m.settings.auto_suspend as int) {
            begin_suspend(m)
        } else {
            (m, seq![])
        },
        PowerEvent::TaskDue(serial) => match find_serial(m.tasks, serial, 0) {
            Some(i) => task_due(with_tasks(m, m.tasks.update(i, Task { occurred: true, ..m.tasks[i] })), m.tasks[i].id),
            None => (m, seq![]),
        },
        PowerEvent::BatteryRead { below_power_off, below_warn } => if below_power_off {
            (m, seq![PowerAction::PowerOff])
        } else if below_warn {
            (m, seq![PowerAction::ShowLowBattery])
        } else {
            (m, seq![])
        },
        PowerEvent::AlarmChecked(opt) => match opt {
            Some(true) => (m, seq![PowerAction::DisableAlarm]),
            Some(false) => (m, seq![PowerAction::PowerOff]),
            None => (m, seq![]),
        },
        PowerEvent::PrepareShare => if m.shared {
            (m, seq![])
        } else {
            (
                with_tasks(m, seq![]),
                seq![PowerAction::UnwindViews] + put_away(m.settings) + seq![PowerAction::ShowShareScreen, PowerAction::SendShare],
            )
        },
        PowerEvent::Share => if m.shared {
            (m, seq![])
        } else {
            (PowerModel { shared: true, ..m }, seq![PowerAction::EnableUsb])
        },
    }
}

/// Whether a task of that kind is pending.
fn any_task(ts: &Vec<Task>, id: TaskId) -> (b: bool)
    ensures
        b == has_task(ts@, id),
{
    let mut i: usize = 0;
    while i < ts.len()
        invariant
            i <= ts@.len(),
            forall|j: int| 0 <= j < i ==> (#[trigger] ts@[j]).id != id,
        decreases ts@.len() - i,
    {
        if ts[i].id == id {
            return true;
        }
        i += 1;
    }
    false
}

/// Whether the device is on its way to a suspension, or suspended.
fn is_suspending(ts: &Vec<Task>) -> (b: bool)
    ensures
        b == suspending(ts@),
{
    any_task(ts, TaskId::PrepareSuspend) || any_task(ts, TaskId::Suspend)
}

/// Looks whether a task of that kind came due, clearing the mark of the first one.
fn consume_occurred(ts: &mut Vec<Task>, id: TaskId) -> (found: bool)
    ensures
        (found, final(ts)@) == consume(old(ts)@, id),
{
    let mut i: usize = 0;
    while i < ts.len()
        invariant
            i <= ts@.len(),
            ts@ == old(ts)@,
            first_occurred(ts@, id, 0) == first_occurred(ts@, id, i as int),
        decreases ts@.len() - i,
    {
        if ts[i].id == id && ts[i].occurred {
            let t = ts[i];
            ts.set(i, Task { occurred: false, ..t });
            return true;
        }
        i += 1;
    }
    false
}

/// The tasks without those of that kind.
fn without(ts: &Vec<Task>, id: TaskId) -> (r: Vec<Task>)
    ensures
        r@ == drop_tasks(ts@, id),
{
    let mut r: Vec<Task> = Vec::new();
    let mut i: usize = 0;
    while i < ts.len()
        invariant
            i <= ts@.len(),
            r@ == drop_tasks(ts@.take(i as int), id),
        decreases ts@.len() - i,
    {
        proof {
            assert(ts@.take(i + 1).drop_last() =~= ts@.take(i as int));
            assert(ts@.take(i + 1).last() == ts@[i as int]);
        }
        if ts[i].id != id {
            r.push(ts[i]);
        }
        i += 1;
    }
    assert(ts@.take(i as int) =~= ts@);
    r
}

/// Where the task of that number is.
fn find_task(ts: &Vec<Task>, serial: u64) -> (r: Option<usize>)
    ensures
        match r {
            Some(i) => find_serial(ts@, serial, 0) == Some(i as int) && i < ts@.len(),
            None => find_serial(ts@, serial, 0) is None,
        },
{
    let mut i: usize = 0;
    while i < ts.len()
        invariant
            i <= ts@.len(),
            find_serial(ts@, serial, 0) == find_serial(ts@, serial, i as int),
        decreases ts@.len() - i,
    {
        if ts[i].serial == serial {
            return Some(i);
        }
        i += 1;
    }
    None
}

/// A copy of the tasks.
fn copy_tasks(ts: &Vec<Task>) -> (r: Vec<Task>)
    ensures
        r@ == ts@,
{
    let mut r: Vec<Task> = Vec::new();
    let mut i: usize = 0;
    while i < ts.len()
        invariant
            i <= ts@.len(),
            r@ == ts@.take(i as int),
        decreases ts@.len() - i,
    {
        r.push(ts[i]);
        assert(r@ =~= ts@.take(i + 1));
        i += 1;
    }
    assert(ts@.take(i as int) =~= ts@);
    r
}

impl PowerState {
    /// Schedules a task of that kind under the next number, and gives the action that starts
    /// its timer.
    fn schedule_task(&mut self, id: TaskId) -> (a: PowerAction)
        ensures
            (final(self).model(), a) == schedule(old(self).model(), id),
    {
        let serial = self.next_serial;
        self.tasks.push(Task { id, serial, occurred: false });
        self.next_serial = if serial == u64::MAX { 0 } else { serial + 1 };
        PowerAction::Schedule(id, serial)
    }

    /// Wakes up or calls off a suspension, adding what that takes to `acts`.
    fn resume_task(&mut self, id: TaskId, acts: &mut Vec<PowerAction>)
        ensures
            ({
                let (m, a) = resume(old(self).model(), id);
                final(self).model() == m && final(acts)@ == old(acts)@ + a
            }),
    {
        let ghost a0 = acts@;
        if id == TaskId::Suspend {
            self.tasks = without(&self.tasks, TaskId::Suspend);
            if self.settings.frontlight {
                acts.push(PowerAction::RestoreFrontlight);
            }
            if self.settings.wifi {
                acts.push(PowerAction::EnableWifi);
            }
        }
        self.tasks = without(&self.tasks, TaskId::PrepareSuspend);
        acts.push(PowerAction::RemoveIntermission);
        acts.push(PowerAction::SendClockTick);
        acts.push(PowerAction::SendBatteryTick);
        proof {
            let (m, a) = resume(old(self).model(), id);
            assert(acts@ =~= a0 + a);
            assert(self.model() == m);
        }
    }

    /// Wakes up, or calls off the way to a suspension, whichever is under way.
    fn resume_any_task(&mut self, acts: &mut Vec<PowerAction>)
        ensures
            ({
                let (m, a) = resume_any(old(self).model());
                final(self).model() == m && final(acts)@ == old(acts)@ + a
            }),
    {
        if any_task(&self.tasks, TaskId::PrepareSuspend) {
            self.resume_task(TaskId::PrepareSuspend, acts);
        } else if any_task(&self.tasks, TaskId::Suspend) {
            self.resume_task(TaskId::Suspend, acts);
        } else {
            assert(acts@ =~= acts@ + Seq::<PowerAction>::empty());
        }
    }

    /// Shows the suspension screen and schedules its preparation.
    fn begin_suspend_task(&mut self, acts: &mut Vec<PowerAction>)
        ensures
            ({
                let (m, a) = begin_suspend(old(self).model());
                final(self).model() == m && final(acts)@ == old(acts)@ + a
            }),
    {
        let ghost a0 = acts@;
        acts.push(PowerAction::ShowSuspendScreen);
        let a = self.schedule_task(TaskId::PrepareSuspend);
        acts.push(a);
        assert(acts@ =~= a0 + begin_suspend(old(self).model()).1);
    }

    /// Schedules again a suspension that already happened, if one did.
    fn reschedule_suspend_task(&mut self, acts: &mut Vec<PowerAction>) -> (done: bool)
        ensures
            match reschedule_suspend(old(self).model()) {
                Some((m, a)) => done && final(self).model() == m && final(acts)@ == old(acts)@ + a,
                None => !done && final(self).model() == old(self).model() && final(acts)@ == old(acts)@,
            },
    {
        let ghost a0 = acts@;
        let found = consume_occurred(&mut self.tasks, TaskId::Suspend);
        if found {
            self.tasks = without(&self.tasks, TaskId::Suspend);
            let a = self.schedule_task(TaskId::Suspend);
            acts.push(a);
            assert(acts@ =~= a0 + seq![a]);
        }
        found
    }

    /// Adds the actions that save what a suspension or a share loses.
    fn put_away_into(&self, acts: &mut Vec<PowerAction>)
        ensures
            final(acts)@ == old(acts)@ + put_away(self.settings),
    {
        let ghost a0 = acts@;
        acts.push(PowerAction::SaveSettings);
        acts.push(PowerAction::FlushLibrary);
        if self.settings.frontlight {
            acts.push(PowerAction::DarkenFrontlight);
        }
        if self.settings.wifi {
            acts.push(PowerAction::DisableWifi);
        }
        assert(acts@ =~= a0 + put_away(self.settings));
    }
}

/// The state when the reader starts: nothing plugged, the cover open, nothing shared, and the
/// battery check scheduled.
pub open spec fn start_model(settings: PowerSettings) -> PowerModel {
    PowerModel {
        plugged: false,
        covered: false,
        shared: false,
        tasks: seq![Task { id: TaskId::CheckBattery, serial: 0, occurred: false }],
        next_serial: 1,
        settings,
    }
}

/// What starting does: the network and the frontlight as the settings say, then the timer of
/// the battery check.
pub open spec fn start_actions(settings: PowerSettings) -> Seq<PowerAction> {
    seq![
        if settings.wifi { PowerAction::EnableWifi } else { PowerAction::DisableWifi },
        if settings.frontlight { PowerAction::RestoreFrontlight } else { PowerAction::LightsOff },
        PowerAction::Schedule(TaskId::CheckBattery, 0),
    ]
}

/// The power state of a reader that starts with these settings, and what starting does.
pub fn power_start(settings: PowerSettings) -> (r: (PowerState, Vec<PowerAction>))
    ensures
        r.0.model() == start_model(settings),
        r.1@ == start_actions(settings),
{
    let mut state = PowerState {
        plugged: false,
        covered: false,
        shared: false,
        tasks: Vec::new(),
        next_serial: 0,
        settings,
    };
    let mut acts: Vec<PowerAction> = Vec::new();
    acts.push(if settings.wifi { PowerAction::EnableWifi } else { PowerAction::DisableWifi });
    acts.push(if settings.frontlight { PowerAction::RestoreFrontlight } else { PowerAction::LightsOff });
    let a = state.schedule_task(TaskId::CheckBattery);
    acts.push(a);
    assert(state.tasks@ =~= seq![Task { id: TaskId::CheckBattery, serial: 0, occurred: false }]);
    assert(acts@ =~= start_actions(settings));
    (state, acts)
}

impl PowerState {
    /// The part of `power_step` for some of the events.
    #[verifier::rlimit(40)]
    fn step_buttons(&mut self, event: PowerEvent) -> (acts: Vec<PowerAction>)
        requires
            event is PowerButton || event is LightButton || event is PowerHeld || event is CoverOn || event is CoverOff || event is NetUp,
        ensures
            (final(self).model(), acts@) == power_transition(old(self).model(), event),
    {
        let ghost m = self.model();
        let mut acts: Vec<PowerAction> = Vec::new();
        match event {
        PowerEvent::PowerButton => {
            if self.shared || self.covered {
            } else if is_suspending(&self.tasks) {
                self.resume_any_task(&mut acts);
            } else {
                self.begin_suspend_task(&mut acts);
            }
        },
        PowerEvent::LightButton => {
            acts.push(PowerAction::ToggleFrontlight);
        },
        PowerEvent::PowerHeld => {
            acts.push(PowerAction::PowerOff);
        },
        PowerEvent::CoverOn => {
            self.covered = true;
            if !self.settings.sleep_cover || self.shared || is_suspending(&self.tasks) {
            } else {
                self.begin_suspend_task(&mut acts);
            }
        },
        PowerEvent::CoverOff => {
            self.covered = false;
            if self.shared {
            } else if !self.settings.sleep_cover {
                self.reschedule_suspend_task(&mut acts);
            } else {
                self.resume_any_task(&mut acts);
            }
        },
        PowerEvent::NetUp => {
            if !is_suspending(&self.tasks) {
                acts.push(PowerAction::ShowNetUp);
            }
        },
            _ => {},
        }
        proof {
            let (m2, a2) = power_transition(m, event);
            assert(acts@ =~= a2);
            assert(self.model().tasks =~= m2.tasks);
        }
        acts
    }

    /// The part of `power_step` for some of the events.
    #[verifier::rlimit(40)]
    fn step_cable(&mut self, event: PowerEvent) -> (acts: Vec<PowerAction>)
        requires
            event is Plug || event is Unplug || event is SettingsReloaded,
        ensures
            (final(self).model(), acts@) == power_transition(old(self).model(), event),
    {
        let ghost m = self.model();
        let mut acts: Vec<PowerAction> = Vec::new();
        match event {
        PowerEvent::Plug(source) => {
            if !self.plugged {
                self.plugged = true;
                self.tasks = without(&self.tasks, TaskId::CheckBattery);
                if !self.covered {
                    match source {
                        PowerSource::Wall => {
                            if !self.reschedule_suspend_task(&mut acts) {
                                acts.push(PowerAction::SendBatteryTick);
                            }
                        },
                        PowerSource::Host => {
                            self.resume_any_task(&mut acts);
                            acts.push(if self.settings.auto_share {
                                PowerAction::PrepareShare
                            } else {
                                PowerAction::ConfirmShare
                            });
                            acts.push(PowerAction::ResetInactivity);
                            acts.push(PowerAction::SendBatteryTick);
                        },
                    }
                }
            }
        },
        PowerEvent::Unplug => {
            if !self.plugged {
            } else if self.shared {
                self.shared = false;
                acts.push(PowerAction::DisableUsb);
                acts.push(PowerAction::ReloadSettings);
            } else {
                self.plugged = false;
                let a = self.schedule_task(TaskId::CheckBattery);
                acts.push(a);
                let found = consume_occurred(&mut self.tasks, TaskId::Suspend);
                if !found {
                    acts.push(PowerAction::SendBatteryTick);
                } else if self.covered {
                    self.tasks = without(&self.tasks, TaskId::Suspend);
                    let b = self.schedule_task(TaskId::Suspend);
                    acts.push(b);
                } else {
                    self.resume_task(TaskId::Suspend, &mut acts);
                }
            }
        },
        PowerEvent::SettingsReloaded(opt) => {
            match opt {
                Some(new_settings) => {
                    self.settings = new_settings;
                },
                None => {},
            }
            if self.settings.wifi {
                acts.push(PowerAction::EnableWifi);
            }
            if self.settings.frontlight {
                acts.push(PowerAction::RestoreFrontlight);
            }
            acts.push(PowerAction::RemoveIntermission);
            acts.push(PowerAction::CheckUpdateBundle);
            acts.push(PowerAction::ReloadLibrary);
            if self.settings.import_on_unshare {
                acts.push(PowerAction::ImportBooks);
            }
            acts.push(PowerAction::Reseed);
        },
            _ => {},
        }
        proof {
            let (m2, a2) = power_transition(m, event);
            assert(acts@ =~= a2);
            assert(self.model().tasks =~= m2.tasks);
        }
        acts
    }

    /// The part of `power_step` for some of the events.
    #[verifier::rlimit(40)]
    fn step_timers(&mut self, event: PowerEvent) -> (acts: Vec<PowerAction>)
        requires
            event is TaskDue,
        ensures
            (final(self).model(), acts@) == power_transition(old(self).model(), event),
    {
        let ghost m = self.model();
        let mut acts: Vec<PowerAction> = Vec::new();
        match event {
        PowerEvent::TaskDue(serial) => {
            match find_task(&self.tasks, serial) {
                Some(i) => {
                    let t = self.tasks[i];
                    self.tasks.set(i, Task { occurred: true, ..t });
                    match t.id {
                        TaskId::CheckBattery => {
                            let a = self.schedule_task(TaskId::CheckBattery);
                            acts.push(a);
                            if !is_suspending(&self.tasks) {
                                acts.push(PowerAction::ReadBattery);
                            }
                        },
                        TaskId::PrepareSuspend => {
                            acts.push(PowerAction::WaitUpdates);
                            self.put_away_into(&mut acts);
                            self.tasks = without(&self.tasks, TaskId::PrepareSuspend);
                            let a = self.schedule_task(TaskId::Suspend);
                            acts.push(a);
                        },
                        TaskId::Suspend => {
                            let alarm = self.settings.auto_power_off > 0;
                            if alarm {
                                acts.push(PowerAction::SetAlarm);
                            }
                            acts.push(PowerAction::Sleep);
                            acts.push(PowerAction::ResetInactivity);
                            if alarm {
                                acts.push(PowerAction::CheckAlarm);
                            }
                        },
                    }
                },
                None => {},
            }
        },
            _ => {},
        }
        proof {
            let (m2, a2) = power_transition(m, event);
            assert(acts@ =~= a2);
            assert(self.model().tasks =~= m2.tasks);
        }
        acts
    }

    /// The part of `power_step` for some of the events.
    #[verifier::rlimit(40)]
    fn step_others(&mut self, event: PowerEvent) -> (acts: Vec<PowerAction>)
        requires
            event is RotateScreen || event is UserActivity || event is MightSuspend || event is BatteryRead || event is AlarmChecked || event is PrepareShare || event is Share,
        ensures
            (final(self).model(), acts@) == power_transition(old(self).model(), event),
    {
        let ghost m = self.model();
        let mut acts: Vec<PowerAction> = Vec::new();
        match event {
        PowerEvent::RotateScreen { rotation, orientation } => {
            let locked = match self.settings.rotation_lock {
                None => false,
                Some(RotationLock::Current) => true,
                Some(RotationLock::Portrait) => orientation == Orientation::Landscape,
                Some(RotationLock::Landscape) => orientation == Orientation::Portrait,
            };
            if !(self.shared || is_suspending(&self.tasks) || locked) {
                acts.push(PowerAction::SelectRotation(rotation));
            }
        },
        PowerEvent::UserActivity => {
            if self.settings.auto_suspend > 0 {
                acts.push(PowerAction::ResetInactivity);
            } else {
                acts.push(PowerAction::ForwardToView);
            }
        },
        PowerEvent::MightSuspend { idle_nanos } => {
            if self.settings.auto_suspend == 0 {
                acts.push(PowerAction::ForwardToView);
            } else if self.shared || is_suspending(&self.tasks) {
                acts.push(PowerAction::ResetInactivity);
            } else if idle_nanos > 60_000_000_000u128 * (self.settings.auto_suspend as u128) {
                self.begin_suspend_task(&mut acts);
            }
        },
        PowerEvent::BatteryRead { below_power_off, below_warn } => {
            if below_power_off {
                acts.push(PowerAction::PowerOff);
            } else if below_warn {
                acts.push(PowerAction::ShowLowBattery);
            }
        },
        PowerEvent::AlarmChecked(opt) => {
            match opt {
                Some(true) => acts.push(PowerAction::DisableAlarm),
                Some(false) => acts.push(PowerAction::PowerOff),
                None => {},
            }
        },
        PowerEvent::PrepareShare => {
            if !self.shared {
                self.tasks = Vec::new();
                acts.push(PowerAction::UnwindViews);
                self.put_away_into(&mut acts);
                acts.push(PowerAction::ShowShareScreen);
                acts.push(PowerAction::SendShare);
            }
        },
        PowerEvent::Share => {
            if !self.shared {
                self.shared = true;
                acts.push(PowerAction::EnableUsb);
            }
        },
                _ => {},
        }
        proof {
            let (m2, a2) = power_transition(m, event);
            assert(acts@ =~= a2);
            assert(self.model().tasks =~= m2.tasks);
        }
        acts
    }

}

/// The next power state after an event, and what the caller has to do, in order.
pub fn power_step(state: &PowerState, event: &PowerEvent) -> (r: (PowerState, Vec<PowerAction>))
    ensures
        (r.0.model(), r.1@) == power_transition(state.model(), *event),
{
    let mut s = PowerState {
        plugged: state.plugged,
        covered: state.covered,
        shared: state.shared,
        tasks: copy_tasks(&state.tasks),
        next_serial: state.next_serial,
        settings: state.settings,
    };
    assert(s.model() == state.model());
    let acts = match *event {
        PowerEvent::PowerButton | PowerEvent::LightButton | PowerEvent::PowerHeld | PowerEvent::CoverOn
        | PowerEvent::CoverOff | PowerEvent::NetUp => s.step_buttons(*event),
        PowerEvent::Plug(..) | PowerEvent::Unplug | PowerEvent::SettingsReloaded(..) => s.step_cable(*event),
        PowerEvent::TaskDue(..) => s.step_timers(*event),
        _ => s.step_others(*event),
    };
    (s, acts)
}


/// Dropping the tasks of a kind that is not pending changes nothing.
proof fn lemma_drop_absent(ts: Seq<Task>, id: TaskId)
    requires
        !has_task(ts, id),
    ensures
        drop_tasks(ts, id) == ts,
    decreases ts.len(),
{
    if ts.len() > 0 {
        let r = ts.drop_last();
        assert(!has_task(r, id)) by {
            if has_task(r, id) {
                let i = choose|i: int| 0 <= i < r.len() && (#[trigger] r[i]).id == id;
                assert(ts[i] == r[i]);
            }
        }
        lemma_drop_absent(r, id);
        assert(ts[ts.len() - 1].id != id);
        assert(r.push(ts.last()) =~= ts);
    }
}

/// Pressing the power button twice, on a device that is neither shared nor covered and not
/// on its way to a suspension, starts a suspension and then calls it off: the pending tasks
/// are those before the first press, the rest of the state is kept but for the number of the
/// next task, and the second press takes the suspension screen away.
pub proof fn lemma_power_button_twice(m: PowerModel)
    requires
        !m.shared,
        !m.covered,
        !suspending(m.tasks),
    ensures
        ({
            let (m1, _) = power_transition(m, PowerEvent::PowerButton);
            let (m2, acts) = power_transition(m1, PowerEvent::PowerButton);
            &&& m2.tasks == m.tasks
            &&& m2.plugged == m.plugged && m2.covered == m.covered && m2.shared == m.shared
            &&& m2.settings == m.settings
            &&& acts == seq![PowerAction::RemoveIntermission, PowerAction::SendClockTick, PowerAction::SendBatteryTick]
        }),
{
    let (m1, _) = power_transition(m, PowerEvent::PowerButton);
    let t = Task { id: TaskId::PrepareSuspend, serial: m.next_serial, occurred: false };
    assert(m1.tasks == m.tasks.push(t));
    assert(m1.tasks[m.tasks.len() as int].id == TaskId::PrepareSuspend);
    assert(has_task(m1.tasks, TaskId::PrepareSuspend));
    lemma_drop_absent(m.tasks, TaskId::PrepareSuspend);
    assert(m.tasks.push(t).drop_last() =~= m.tasks);
    assert(drop_tasks(m1.tasks, TaskId::PrepareSuspend) == m.tasks);
    let (m2, acts) = power_transition(m1, PowerEvent::PowerButton);
    assert(acts =~= seq![PowerAction::RemoveIntermission, PowerAction::SendClockTick, PowerAction::SendBatteryTick]);
}

} // verus!
