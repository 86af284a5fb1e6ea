use ddc_hotplug_switch::ddc::{parse_monitor_config, SwitcherConfig};
use ddc_hotplug_switch::hotplug::{
    coordinator_start, coordinator_step, switch_command_args, CoordinatorAction, CoordinatorEvent,
    CoordinatorState, StepOutcome, SwitchAction, SwitchRun, USBHotplugCallback,
};
use ddc_hotplug_switch::text::decimal_string;

const DETECTED: &str = "Display 1\n   I2C bus:  /dev/i2c-6\n\nDisplay 2\n   I2C bus:  /dev/i2c-7\n";

fn callback(wait: u64) -> USBHotplugCallback {
    let m = parse_monitor_config(vec!["1:0x11:0x10".to_string(), "2:0x0f:0x09".to_string()]).unwrap();
    let c = SwitcherConfig::new(0x1, 0x2, m, DETECTED).unwrap();
    USBHotplugCallback { display_switch_configs: c.display_switch_configs, ddc_wait_interval: wait }
}

fn drive(cb: &USBHotplugCallback, mut run: SwitchRun, fail: bool) -> (Vec<SwitchAction>, SwitchRun) {
    let mut actions = Vec::new();
    let mut previous = StepOutcome::Succeeded;
    loop {
        let a = cb.next_action(&mut run, previous);
        actions.push(a);
        previous = match a {
            SwitchAction::Switch { .. } if fail => StepOutcome::Failed,
            SwitchAction::Done => break,
            _ => StepOutcome::Succeeded,
        };
    }
    (actions, run)
}

#[test]
fn arrival_and_departure_end_to_end() {
    let cb = callback(300);
    let (arrive, _) = drive(&cb, cb.device_arrived(), false);
    assert_eq!(
        arrive,
        vec![
            SwitchAction::Switch { bus: 6, input_source: 17 },
            SwitchAction::Settle { millis: 300 },
            SwitchAction::Switch { bus: 7, input_source: 15 },
            SwitchAction::Settle { millis: 300 },
            SwitchAction::Done,
        ]
    );
    let (left, _) = drive(&cb, cb.device_left(), false);
    assert_eq!(
        left,
        vec![
            SwitchAction::Switch { bus: 6, input_source: 16 },
            SwitchAction::Settle { millis: 300 },
            SwitchAction::Switch { bus: 7, input_source: 9 },
            SwitchAction::Settle { millis: 300 },
            SwitchAction::Done,
        ]
    );
}

#[test]
fn one_switch_per_display() {
    let cb = callback(25);
    let (actions, _) = drive(&cb, cb.device_arrived(), false);
    let switches = actions.iter().filter(|a| matches!(a, SwitchAction::Switch { .. })).count();
    assert_eq!(switches, cb.display_switch_configs.len());
    for (i, a) in actions.iter().enumerate() {
        if matches!(a, SwitchAction::Switch { .. }) {
            assert_eq!(actions[i + 1], SwitchAction::Settle { millis: 25 });
        }
    }
}

#[test]
fn failed_switch_does_not_stop_run() {
    let cb = callback(300);
    let (ok, ok_run) = drive(&cb, cb.device_arrived(), false);
    let (failing, failing_run) = drive(&cb, cb.device_arrived(), true);
    assert_eq!(ok, failing);
    assert_eq!(ok_run.failures, 0);
    assert_eq!(failing_run.failures, 2);
}

#[test]
fn done_run_stays_done() {
    let cb = callback(300);
    let (_, mut run) = drive(&cb, cb.device_left(), false);
    assert_eq!(cb.next_action(&mut run, StepOutcome::Failed), SwitchAction::Done);
    assert_eq!(cb.next_action(&mut run, StepOutcome::Succeeded), SwitchAction::Done);
}

#[test]
fn empty_handler_is_done_at_once() {
    let cb = USBHotplugCallback { display_switch_configs: Vec::new(), ddc_wait_interval: 300 };
    let mut run = cb.device_arrived();
    assert_eq!(cb.next_action(&mut run, StepOutcome::Succeeded), SwitchAction::Done);
}

#[test]
fn switch_arguments() {
    assert_eq!(switch_command_args(6, 17), vec!["--bus=6", "setvcp", "60", "17"]);
    assert_eq!(switch_command_args(0, 65535), vec!["--bus=0", "setvcp", "60", "65535"]);
    assert_eq!(switch_command_args(12, 0x0f), vec!["--bus=12", "setvcp", "60", "15"]);
}

#[test]
fn decimal_rendering() {
    assert_eq!(decimal_string(0), "0");
    assert_eq!(decimal_string(9), "9");
    assert_eq!(decimal_string(10), "10");
    assert_eq!(decimal_string(65535), "65535");
}

#[test]
fn coordinator_runs_until_cancelled() {
    let (state, action) = coordinator_start();
    assert_eq!(state, CoordinatorState::Unregistered);
    assert_eq!(action, CoordinatorAction::Subscribe);
    let (state, action) = coordinator_step(state, CoordinatorEvent::Subscribed { ok: true });
    assert_eq!((state, action), (CoordinatorState::Registered, CoordinatorAction::ProcessEvents));
    let (state, action) =
        coordinator_step(state, CoordinatorEvent::EventsProcessed { ok: true, cancelled: false });
    assert_eq!((state, action), (CoordinatorState::Registered, CoordinatorAction::ProcessEvents));
    let (state, action) =
        coordinator_step(state, CoordinatorEvent::EventsProcessed { ok: true, cancelled: true });
    assert_eq!(
        (state, action),
        (CoordinatorState::ShuttingDown { failed: false }, CoordinatorAction::Unsubscribe)
    );
    let (state, action) = coordinator_step(state, CoordinatorEvent::Unsubscribed);
    assert_eq!((state, action), (CoordinatorState::Terminated { failed: false }, CoordinatorAction::Exit));
}

#[test]
fn cancellation_waits_for_next_usb_event() {
    // A cancellation that arrives while the coordinator blocks in event
    // processing has no event of its own: the coordinator keeps asking for
    // event processing until that call returns.
    let (state, _) = coordinator_step(CoordinatorState::Unregistered, CoordinatorEvent::Subscribed { ok: true });
    for event in [CoordinatorEvent::Subscribed { ok: true }, CoordinatorEvent::Unsubscribed] {
        let (s, a) = coordinator_step(state, event);
        assert_eq!((s, a), (CoordinatorState::Registered, CoordinatorAction::ProcessEvents));
    }
    let (s, a) = coordinator_step(state, CoordinatorEvent::EventsProcessed { ok: true, cancelled: true });
    assert_eq!((s, a), (CoordinatorState::ShuttingDown { failed: false }, CoordinatorAction::Unsubscribe));
}

#[test]
fn event_processing_error_shuts_down() {
    let (s, a) = coordinator_step(
        CoordinatorState::Registered,
        CoordinatorEvent::EventsProcessed { ok: false, cancelled: false },
    );
    assert_eq!((s, a), (CoordinatorState::ShuttingDown { failed: true }, CoordinatorAction::Unsubscribe));
    let (s, a) = coordinator_step(s, CoordinatorEvent::Unsubscribed);
    assert_eq!((s, a), (CoordinatorState::Terminated { failed: true }, CoordinatorAction::Abort));
    let (s, a) = coordinator_step(
        CoordinatorState::Registered,
        CoordinatorEvent::EventsProcessed { ok: false, cancelled: true },
    );
    assert_eq!((s, a), (CoordinatorState::ShuttingDown { failed: true }, CoordinatorAction::Unsubscribe));
}

#[test]
fn subscription_failure_aborts() {
    let (s, a) = coordinator_step(CoordinatorState::Unregistered, CoordinatorEvent::Subscribed { ok: false });
    assert_eq!((s, a), (CoordinatorState::Terminated { failed: true }, CoordinatorAction::Abort));
}
