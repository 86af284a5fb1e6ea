//! Reacting to the watched USB device: the per-event switching run and the
//! coordinator that subscribes, processes events and shuts down.
use vstd::prelude::*;

use crate::ddc::DDCDisplaySwitchConfig;
use crate::text::{decimal, decimal_string, push_decimal, string_from_chars};

verus! {

/// A notification about the watched USB device.
#[derive(Debug, Clone, Copy, PartialEq, Eq, Structural)]
pub enum UsbEvent {
    Arrived,
    Left,
}

/// The input source a display takes on `event`.
pub open spec fn mode_for(c: DDCDisplaySwitchConfig, event: UsbEvent) -> u16 {
    match event {
        UsbEvent::Arrived => c.device_arrive_mode,
        UsbEvent::Left => c.device_left_mode,
    }
}

/// What the handler asks for next while it handles one event.
#[derive(Debug, Clone, Copy, PartialEq, Eq, Structural)]
pub enum SwitchAction {
    /// Run the display-control tool to set the display on `bus` to `input_source`.
    Switch { bus: u16, input_source: u16 },
    /// Wait this many milliseconds for the display to settle.
    Settle { millis: u64 },
    /// Every display has been handled.
    Done,
}

/// How the previously requested action went.
#[derive(Debug, Clone, Copy, PartialEq, Eq, Structural)]
pub enum StepOutcome {
    Succeeded,
    Failed,
}

/// Progress through the handling of one event: the displays before `entry`
/// are done, `settling` tells whether the display at `entry` has been switched
/// and waits for its pause, and `failures` of the switches so far failed.
#[derive(Debug, Clone, Copy, PartialEq, Eq, Structural)]
pub struct SwitchRun {
    pub event: UsbEvent,
    pub entry: usize,
    pub settling: bool,
    pub failures: usize,
}

/// How many actions `run` has requested.
pub open spec fn steps_taken(run: SwitchRun) -> int {
    2 * run.entry + if run.settling { 1int } else { 0int }
}

/// Action `step` of the run for `event`: a switch of each display in order,
/// each followed by a settle pause, and then `Done`.
pub open spec fn action_at(
    configs: Seq<DDCDisplaySwitchConfig>,
    wait: u64,
    event: UsbEvent,
    step: int,
) -> SwitchAction {
    if step >= 2 * configs.len() {
        SwitchAction::Done
    } else if step % 2 == 0 {
        SwitchAction::Switch {
            bus: configs[step / 2].display_bus_id,
            input_source: mode_for(configs[step / 2], event),
        }
    } else {
        SwitchAction::Settle { millis: wait }
    }
}

/// The run after its next action is requested, `previous` being how the
/// action before it went: a failed switch is counted and the run goes on.
pub open spec fn advance(configs: Seq<DDCDisplaySwitchConfig>, run: SwitchRun, previous: StepOutcome) -> SwitchRun {
    let failures = if run.settling && previous == StepOutcome::Failed {
        (run.failures + 1) as usize
    } else {
        run.failures
    };
    if run.entry >= configs.len() {
        SwitchRun { failures, ..run }
    } else if !run.settling {
        SwitchRun { settling: true, failures, ..run }
    } else {
        SwitchRun { entry: (run.entry + 1) as usize, settling: false, failures, ..run }
    }
}

/// Whether `run` is a run over `configs`.
pub open spec fn run_wf(configs: Seq<DDCDisplaySwitchConfig>, run: SwitchRun) -> bool {
    &&& configs.len() <= usize::MAX
    &&& run.entry <= configs.len()
    &&& run.entry == configs.len() ==> !run.settling
    &&& run.failures <= run.entry
}

/// The switch-ready displays and the pause after each switch, in milliseconds.
pub struct USBHotplugCallback {
    pub display_switch_configs: Vec<DDCDisplaySwitchConfig>,
    pub ddc_wait_interval: u64,
}

impl USBHotplugCallback {
    /// A fresh run for `event`.
    pub fn begin(&self, event: UsbEvent) -> (r: SwitchRun)
        ensures
            r == (SwitchRun { event, entry: 0, settling: false, failures: 0 }),
            run_wf(self.display_switch_configs@, r),
    {
        let n: usize = self.display_switch_configs.len();
        assert(self.display_switch_configs@.len() == n);
        SwitchRun { event, entry: 0, settling: false, failures: 0 }
    }

    /// The run that handles the arrival of the device.
    pub fn device_arrived(&self) -> (r: SwitchRun)
        ensures
            r == (SwitchRun { event: UsbEvent::Arrived, entry: 0, settling: false, failures: 0 }),
            run_wf(self.display_switch_configs@, r),
    {
        self.begin(UsbEvent::Arrived)
    }

    /// The run that handles the departure of the device.
    pub fn device_left(&self) -> (r: SwitchRun)
        ensures
            r == (SwitchRun { event: UsbEvent::Left, entry: 0, settling: false, failures: 0 }),
            run_wf(self.display_switch_configs@, r),
    {
        self.begin(UsbEvent::Left)
    }

    /// The next action of `run`, given how the previous one went.
    pub fn next_action(&self, run: &mut SwitchRun, previous: StepOutcome) -> (a: SwitchAction)
        requires
            run_wf(self.display_switch_configs@, *old(run)),
        ensures
            a == action_at(
                self.display_switch_configs@,
                self.ddc_wait_interval,
                old(run).event,
                steps_taken(*old(run)),
            ),
            *final(run) == advance(self.display_switch_configs@, *old(run), previous),
            run_wf(self.display_switch_configs@, *final(run)),
    {
        if run.settling && previous == StepOutcome::Failed {
            assert(run.entry < self.display_switch_configs.len());
            run.failures = run.failures + 1;
        }
        if run.entry >= self.display_switch_configs.len() {
            return SwitchAction::Done;
        }
        if !run.settling {
            run.settling = true;
            let c = self.display_switch_configs[run.entry];
            let mode = match run.event {
                UsbEvent::Arrived => c.device_arrive_mode,
                UsbEvent::Left => c.device_left_mode,
            };
            SwitchAction::Switch { bus: c.display_bus_id, input_source: mode }
        } else {
            run.entry = run.entry + 1;
            run.settling = false;
            SwitchAction::Settle { millis: self.ddc_wait_interval }
        }
    }
}

/// A run for `event` requests a switch of each display in turn, to its input
/// source for that event, each switch followed by a settle pause of the
/// configured length, and nothing more: as many switches as there are displays.
pub proof fn lemma_run_switches_each_display(
    configs: Seq<DDCDisplaySwitchConfig>,
    wait: u64,
    event: UsbEvent,
)
    ensures
        forall|i: int|
            0 <= i < configs.len() ==> #[trigger] action_at(configs, wait, event, 2 * i)
                == (SwitchAction::Switch {
                bus: configs[i].display_bus_id,
                input_source: mode_for(configs[i], event),
            }) && action_at(configs, wait, event, 2 * i + 1) == (SwitchAction::Settle {
                millis: wait,
            }),
        forall|k: int| k >= 2 * configs.len() ==> #[trigger] action_at(configs, wait, event, k)
            == SwitchAction::Done,
        event == UsbEvent::Arrived ==> forall|i: int|
            0 <= i < configs.len() ==> #[trigger] mode_for(configs[i], event)
                == configs[i].device_arrive_mode,
        event == UsbEvent::Left ==> forall|i: int|
            0 <= i < configs.len() ==> #[trigger] mode_for(configs[i], event)
                == configs[i].device_left_mode,
{
    assert forall|i: int| 0 <= i < configs.len() implies #[trigger] action_at(
        configs,
        wait,
        event,
        2 * i,
    ) == (SwitchAction::Switch {
        bus: configs[i].display_bus_id,
        input_source: mode_for(configs[i], event),
    }) && action_at(configs, wait, event, 2 * i + 1) == (SwitchAction::Settle { millis: wait }) by {
        assert((2 * i) / 2 == i);
        assert((2 * i) % 2 == 0);
        assert((2 * i + 1) % 2 == 1);
    }
}

/// A failed switch does not end the run: the run goes on to the same next
/// action as after a successful one, and only its count of failures differs.
pub proof fn lemma_failure_does_not_stop_run(configs: Seq<DDCDisplaySwitchConfig>, run: SwitchRun)
    requires
        run_wf(configs, run),
    ensures
        steps_taken(advance(configs, run, StepOutcome::Failed)) == steps_taken(
            advance(configs, run, StepOutcome::Succeeded),
        ),
        advance(configs, run, StepOutcome::Failed).event == run.event,
        steps_taken(run) < 2 * configs.len() ==> steps_taken(advance(configs, run, StepOutcome::Failed))
            == steps_taken(run) + 1,
        run.settling ==> advance(configs, run, StepOutcome::Failed).failures == run.failures + 1,
{
}

/// The text `--bus=<bus>` that selects a display by its bus.
pub open spec fn bus_flag(bus: u16) -> Seq<char> {
    seq!['-', '-', 'b', 'u', 's', '='] + decimal(bus as nat)
}

/// The arguments of the display-control tool that set the input source
/// (feature 60) of the display on `bus` to `input_source`.
pub fn switch_command_args(bus: u16, input_source: u16) -> (r: Vec<String>)
    ensures
        r.len() == 4,
        r[0]@ == bus_flag(bus),
        r[1]@ == seq!['s', 'e', 't', 'v', 'c', 'p'],
        r[2]@ == seq!['6', '0'],
        r[3]@ == decimal(input_source as nat),
{
    let mut flag: Vec<char> = vec!['-', '-', 'b', 'u', 's', '='];
    push_decimal(bus, &mut flag);
    let setvcp: Vec<char> = vec!['s', 'e', 't', 'v', 'c', 'p'];
    let feature: Vec<char> = vec!['6', '0'];
    let mut r: Vec<String> = Vec::new();
    r.push(string_from_chars(&flag));
    r.push(string_from_chars(&setvcp));
    r.push(string_from_chars(&feature));
    r.push(decimal_string(input_source));
    r
}

/// The life of the hotplug subscription. `failed` records that the
/// coordinator stops because something went wrong.
#[derive(Debug, Clone, Copy, PartialEq, Eq, Structural)]
pub enum CoordinatorState {
    Unregistered,
    Registered,
    ShuttingDown { failed: bool },
    Terminated { failed: bool },
}

/// What happened to the subscription or the event loop.
#[derive(Debug, Clone, Copy, PartialEq, Eq, Structural)]
pub enum CoordinatorEvent {
    /// Subscribing to the device's notifications succeeded or failed.
    Subscribed { ok: bool },
    /// The blocking event-processing call returned, with or without an error;
    /// `cancelled` tells whether a cancellation was pending when it did.
    EventsProcessed { ok: bool, cancelled: bool },
    /// The subscription was dropped.
    Unsubscribed,
}

/// What the coordinator asks for next.
#[derive(Debug, Clone, Copy, PartialEq, Eq, Structural)]
pub enum CoordinatorAction {
    /// Subscribe to the device's arrival and departure notifications.
    Subscribe,
    /// Block in event processing, which runs the handler for each notification.
    ProcessEvents,
    /// Drop the subscription.
    Unsubscribe,
    /// Stop after a clean shutdown.
    Exit,
    /// Stop with a failure: the subscription could not be made, or event
    /// processing failed.
    Abort,
}

/// The action a state waits to have performed.
pub open spec fn awaited(state: CoordinatorState) -> CoordinatorAction {
    match state {
        CoordinatorState::Unregistered => CoordinatorAction::Subscribe,
        CoordinatorState::Registered => CoordinatorAction::ProcessEvents,
        CoordinatorState::ShuttingDown { .. } => CoordinatorAction::Unsubscribe,
        CoordinatorState::Terminated { failed } => if failed {
            CoordinatorAction::Abort
        } else {
            CoordinatorAction::Exit
        },
    }
}

/// The next state and action: a successful subscription starts event
/// processing, a failed one aborts; event processing repeats until it fails or
/// a cancellation is pending when it returns, and then the subscription is
/// dropped before the coordinator stops, with a failure if event processing
/// failed. Any other event changes nothing.
pub open spec fn coordinator_spec(state: CoordinatorState, event: CoordinatorEvent) -> (
    CoordinatorState,
    CoordinatorAction,
) {
    match (state, event) {
        (CoordinatorState::Unregistered, CoordinatorEvent::Subscribed { ok }) => if ok {
            (CoordinatorState::Registered, CoordinatorAction::ProcessEvents)
        } else {
            (CoordinatorState::Terminated { failed: true }, CoordinatorAction::Abort)
        },
        (CoordinatorState::Registered, CoordinatorEvent::EventsProcessed { ok, cancelled }) => if !ok
            || cancelled {
            (CoordinatorState::ShuttingDown { failed: !ok }, CoordinatorAction::Unsubscribe)
        } else {
            (CoordinatorState::Registered, CoordinatorAction::ProcessEvents)
        },
        (CoordinatorState::ShuttingDown { failed }, CoordinatorEvent::Unsubscribed) => (
            CoordinatorState::Terminated { failed },
            awaited(CoordinatorState::Terminated { failed }),
        ),
        _ => (state, awaited(state)),
    }
}

fn awaited_action(state: CoordinatorState) -> (r: CoordinatorAction)
    ensures
        r == awaited(state),
{
    match state {
        CoordinatorState::Unregistered => CoordinatorAction::Subscribe,
        CoordinatorState::Registered => CoordinatorAction::ProcessEvents,
        CoordinatorState::ShuttingDown { .. } => CoordinatorAction::Unsubscribe,
        CoordinatorState::Terminated { failed } => if failed {
            CoordinatorAction::Abort
        } else {
            CoordinatorAction::Exit
        },
    }
}

/// The first action of a coordinator.
pub fn coordinator_start() -> (r: (CoordinatorState, CoordinatorAction))
    ensures
        r == (CoordinatorState::Unregistered, CoordinatorAction::Subscribe),
{
    (CoordinatorState::Unregistered, CoordinatorAction::Subscribe)
}

/// The coordinator's next state and action after `event`.
pub fn coordinator_step(state: CoordinatorState, event: CoordinatorEvent) -> (r: (
    CoordinatorState,
    CoordinatorAction,
))
    ensures
        r == coordinator_spec(state, event),
{
    match (state, event) {
        (CoordinatorState::Unregistered, CoordinatorEvent::Subscribed { ok }) => if ok {
            (CoordinatorState::Registered, CoordinatorAction::ProcessEvents)
        } else {
            (CoordinatorState::Terminated { failed: true }, CoordinatorAction::Abort)
        },
        (CoordinatorState::Registered, CoordinatorEvent::EventsProcessed { ok, cancelled }) => if !ok
            || cancelled {
            (CoordinatorState::ShuttingDown { failed: !ok }, CoordinatorAction::Unsubscribe)
        } else {
            (CoordinatorState::Registered, CoordinatorAction::ProcessEvents)
        },
        (CoordinatorState::ShuttingDown { failed }, CoordinatorEvent::Unsubscribed) => {
            let next = CoordinatorState::Terminated { failed };
            (next, awaited_action(next))
        },
        _ => (state, awaited_action(state)),
    }
}

/// A registered coordinator leaves event processing only when the processing
/// call returns: a pending cancellation is seen then, and not before.
pub proof fn lemma_shutdown_waits_for_event_processing(event: CoordinatorEvent)
    ensures
        coordinator_spec(CoordinatorState::Registered, event).0 != CoordinatorState::Registered
            ==> event is EventsProcessed,
        event matches CoordinatorEvent::EventsProcessed { ok, cancelled } ==> (coordinator_spec(
            CoordinatorState::Registered,
            event,
        ).0 is ShuttingDown <==> !ok || cancelled),
{
}

} // verus!
