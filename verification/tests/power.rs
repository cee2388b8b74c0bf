use plato::device::Orientation;
use plato::input::PowerSource;
use plato::power::{power_start, power_step, PowerAction, PowerEvent, PowerSettings, PowerState, TaskId};
use plato::settings::RotationLock;

fn settings() -> PowerSettings {
    PowerSettings {
        sleep_cover: true,
        auto_share: false,
        auto_suspend: 15,
        auto_power_off: 3,
        wifi: true,
        frontlight: true,
        rotation_lock: None,
        import_on_unshare: true,
    }
}

fn step(s: &PowerState, e: PowerEvent) -> (PowerState, Vec<PowerAction>) {
    power_step(s, &e)
}

#[test]
fn starting_schedules_the_battery_check() {
    let (s, acts) = power_start(settings());
    assert_eq!(acts, vec![PowerAction::EnableWifi, PowerAction::RestoreFrontlight, PowerAction::Schedule(TaskId::CheckBattery, 0)]);
    assert_eq!(s.tasks.len(), 1);
    assert_eq!(s.next_serial, 1);
    let (_, dark) = power_start(PowerSettings { wifi: false, frontlight: false, ..settings() });
    assert_eq!(dark[..2], [PowerAction::DisableWifi, PowerAction::LightsOff]);
}

#[test]
fn the_power_button_suspends_and_wakes() {
    let (s, _) = power_start(settings());
    let (s, acts) = step(&s, PowerEvent::PowerButton);
    assert_eq!(acts, vec![PowerAction::ShowSuspendScreen, PowerAction::Schedule(TaskId::PrepareSuspend, 1)]);
    // Pressing again calls the suspension off.
    let (back, acts) = step(&s, PowerEvent::PowerButton);
    assert_eq!(acts, vec![PowerAction::RemoveIntermission, PowerAction::SendClockTick, PowerAction::SendBatteryTick]);
    assert!(back.tasks.iter().all(|t| t.id == TaskId::CheckBattery));
    // The preparation comes due: everything is put away and the suspension is scheduled.
    let (s, acts) = step(&s, PowerEvent::TaskDue(1));
    assert_eq!(acts, vec![
        PowerAction::WaitUpdates, PowerAction::SaveSettings, PowerAction::FlushLibrary,
        PowerAction::DarkenFrontlight, PowerAction::DisableWifi, PowerAction::Schedule(TaskId::Suspend, 2),
    ]);
    let (s, acts) = step(&s, PowerEvent::TaskDue(2));
    assert_eq!(acts, vec![PowerAction::SetAlarm, PowerAction::Sleep, PowerAction::ResetInactivity, PowerAction::CheckAlarm]);
    assert!(s.tasks.iter().any(|t| t.id == TaskId::Suspend && t.occurred));
    // Waking up restores the light and the network.
    let (s, acts) = step(&s, PowerEvent::PowerButton);
    assert_eq!(acts, vec![
        PowerAction::RestoreFrontlight, PowerAction::EnableWifi, PowerAction::RemoveIntermission,
        PowerAction::SendClockTick, PowerAction::SendBatteryTick,
    ]);
    assert!(!s.tasks.iter().any(|t| t.id == TaskId::Suspend));
    // A task that was called off never comes due.
    let (_, acts) = step(&back, PowerEvent::TaskDue(1));
    assert!(acts.is_empty());
}

#[test]
fn the_cover_and_sharing() {
    let (s, _) = power_start(settings());
    let (covered, acts) = step(&s, PowerEvent::CoverOn);
    assert!(covered.covered);
    assert_eq!(acts[0], PowerAction::ShowSuspendScreen);
    let (_, acts) = step(&covered, PowerEvent::PowerButton);
    assert!(acts.is_empty());
    let (opened, acts) = step(&covered, PowerEvent::CoverOff);
    assert!(!opened.covered);
    assert_eq!(acts, vec![PowerAction::RemoveIntermission, PowerAction::SendClockTick, PowerAction::SendBatteryTick]);
    let (plugged, acts) = step(&s, PowerEvent::Plug(PowerSource::Host));
    assert!(plugged.plugged);
    assert!(plugged.tasks.is_empty());
    assert_eq!(acts, vec![PowerAction::ConfirmShare, PowerAction::ResetInactivity, PowerAction::SendBatteryTick]);
    let (prepared, acts) = step(&plugged, PowerEvent::PrepareShare);
    assert_eq!(acts.first(), Some(&PowerAction::UnwindViews));
    assert_eq!(acts.last(), Some(&PowerAction::SendShare));
    let (shared, acts) = step(&prepared, PowerEvent::Share);
    assert!(shared.shared);
    assert_eq!(acts, vec![PowerAction::EnableUsb]);
    let (_, acts) = step(&shared, PowerEvent::RotateScreen { rotation: 1, orientation: Orientation::Landscape });
    assert!(acts.is_empty());
    let (unshared, acts) = step(&shared, PowerEvent::Unplug);
    assert!(!unshared.shared && unshared.plugged);
    assert_eq!(acts, vec![PowerAction::DisableUsb, PowerAction::ReloadSettings]);
    let (_, acts) = step(&unshared, PowerEvent::SettingsReloaded(None));
    assert_eq!(acts, vec![
        PowerAction::EnableWifi, PowerAction::RestoreFrontlight, PowerAction::RemoveIntermission,
        PowerAction::CheckUpdateBundle, PowerAction::ReloadLibrary, PowerAction::ImportBooks, PowerAction::Reseed,
    ]);
    let (unplugged, acts) = step(&unshared, PowerEvent::Unplug);
    assert!(!unplugged.plugged);
    assert_eq!(acts, vec![PowerAction::Schedule(TaskId::CheckBattery, 1), PowerAction::SendBatteryTick]);
}

#[test]
fn rotation_inactivity_and_battery() {
    let (s, _) = power_start(PowerSettings { rotation_lock: Some(RotationLock::Portrait), ..settings() });
    let (_, acts) = step(&s, PowerEvent::RotateScreen { rotation: 1, orientation: Orientation::Landscape });
    assert!(acts.is_empty());
    let (_, acts) = step(&s, PowerEvent::RotateScreen { rotation: 2, orientation: Orientation::Portrait });
    assert_eq!(acts, vec![PowerAction::SelectRotation(2)]);
    let (_, acts) = step(&s, PowerEvent::MightSuspend { idle_nanos: 15 * 60 * 1_000_000_000 });
    assert!(acts.is_empty());
    let (_, acts) = step(&s, PowerEvent::MightSuspend { idle_nanos: 15 * 60 * 1_000_000_000 + 1 });
    assert_eq!(acts[0], PowerAction::ShowSuspendScreen);
    let (_, acts) = step(&s, PowerEvent::TaskDue(0));
    assert_eq!(acts, vec![PowerAction::Schedule(TaskId::CheckBattery, 1), PowerAction::ReadBattery]);
    let (_, acts) = step(&s, PowerEvent::BatteryRead { below_power_off: false, below_warn: true });
    assert_eq!(acts, vec![PowerAction::ShowLowBattery]);
    let (_, acts) = step(&s, PowerEvent::AlarmChecked(Some(false)));
    assert_eq!(acts, vec![PowerAction::PowerOff]);
    let (quiet, _) = power_start(PowerSettings { auto_suspend: 0, ..settings() });
    let (_, acts) = step(&quiet, PowerEvent::UserActivity);
    assert_eq!(acts, vec![PowerAction::ForwardToView]);
}
