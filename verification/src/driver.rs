//! One payload, two drivers.

use vstd::prelude::*;

use crate::clock::Clock;
use crate::host::{nonempty, HostCall, HostCallView, Instance, InstanceView};
use crate::json::{Json, JsonView, Object};
use crate::sensor::{sensor_event, EcobeeRemoteSensor};
use crate::setup::{discover, SetupStep};
use crate::thermostat::{bind, command, event, EcobeeThermostat, Outcome};

verus! {

/// The thermostat and its remote sensors ship together because they are the same API, the
/// same credentials, and the same poll.
///
/// Setup is shared: `discover` offers both kinds of candidate from one flow. Only the live calls
/// need routing, and a sensor is simply the instance that was given a `Sensor id`; a thermostat
/// never has one.
#[derive(Default)]
pub struct Ecobee;

/// What a sensor does with a command.
pub open spec fn sensor_command(inst: InstanceView, cmd: Seq<char>) -> Outcome {
    (inst, seq![HostCallView::Warn("ecobee sensor is read-only, got `"@ + cmd + "`"@)])
}

/// What either kind of device does with a command.
pub open spec fn device_command(
    inst: InstanceView,
    cmd: Seq<char>,
    args: Map<Seq<char>, JsonView>,
    clock: Clock,
) -> Outcome {
    if inst.is_sensor() {
        sensor_command(inst, cmd)
    } else {
        command(inst, cmd, args, clock)
    }
}

/// What either kind of device does with a message from the host.
pub open spec fn device_event(
    inst: InstanceView,
    note: Seq<char>,
    args: Map<Seq<char>, JsonView>,
    clock: Clock,
) -> Outcome {
    if inst.is_sensor() {
        sensor_event(inst, note, args)
    } else {
        event(inst, note, args, clock)
    }
}

impl InstanceView {
    /// Whether the instance was given a `Sensor id`.
    pub open spec fn is_sensor(self) -> bool {
        nonempty(self.property("Sensor id"@).as_str()) is Some
    }
}

/// Whether the instance was given a `Sensor id`.
pub fn is_sensor(inst: &Instance) -> (r: bool)
    ensures
        r == inst@.is_sensor(),
{
    inst.filled("Sensor id").is_some()
}

impl Ecobee {
    /// Runs a command, the clock being read as it goes.
    pub fn on_command(&self, inst: &mut Instance, proxy: u32, cmd: &str, args: &Object) -> (r: Vec<
        HostCall,
    >)
        ensures
            exists|clock: Clock|
                (final(inst)@, r.deep_view()) == #[trigger] device_command(
                    old(inst)@,
                    cmd@,
                    args@,
                    clock,
                ),
    {
        let clock = Clock::read();
        self.on_command_at(inst, proxy, cmd, args, &clock)
    }

    /// Runs a command at given readings of the clock.
    pub fn on_command_at(
        &self,
        inst: &mut Instance,
        proxy: u32,
        cmd: &str,
        args: &Object,
        clock: &Clock,
    ) -> (r: Vec<HostCall>)
        ensures
            (final(inst)@, r.deep_view()) == device_command(old(inst)@, cmd@, args@, *clock),
    {
        if is_sensor(inst) {
            EcobeeRemoteSensor.on_command(inst, proxy, cmd, args)
        } else {
            EcobeeThermostat.on_command_at(inst, proxy, cmd, args, clock)
        }
    }

    /// Handles a message, the clock being read as it goes.
    pub fn on_event(&self, inst: &mut Instance, control: u32, note: &str, args: &Object) -> (r: Vec<
        HostCall,
    >)
        ensures
            exists|clock: Clock|
                (final(inst)@, r.deep_view()) == #[trigger] device_event(
                    old(inst)@,
                    note@,
                    args@,
                    clock,
                ),
    {
        let clock = Clock::read();
        self.on_event_at(inst, control, note, args, &clock)
    }

    /// Handles a message at given readings of the clock.
    pub fn on_event_at(
        &self,
        inst: &mut Instance,
        control: u32,
        note: &str,
        args: &Object,
        clock: &Clock,
    ) -> (r: Vec<HostCall>)
        ensures
            (final(inst)@, r.deep_view()) == device_event(old(inst)@, note@, args@, *clock),
    {
        if is_sensor(inst) {
            EcobeeRemoteSensor.on_event(inst, control, note, args)
        } else {
            EcobeeThermostat.on_event_at(inst, control, note, args, clock)
        }
    }

    /// Binds a thermostat, the clock being read as it goes. A sensor does nothing of its own
    /// when it is bound: for it there is no list, and the instance stays as it is.
    pub fn on_bind(&self, inst: &mut Instance) -> (r: Option<Vec<HostCall>>)
        ensures
            old(inst)@.is_sensor() ==> r is None && final(inst)@ == old(inst)@,
            !old(inst)@.is_sensor() ==> r is Some && exists|clock: Clock|
                (final(inst)@, r->0.deep_view()) == #[trigger] bind(old(inst)@, clock),
    {
        let clock = Clock::read();
        self.on_bind_at(inst, &clock)
    }

    /// Binds a thermostat at given readings of the clock.
    pub fn on_bind_at(&self, inst: &mut Instance, clock: &Clock) -> (r: Option<Vec<HostCall>>)
        ensures
            old(inst)@.is_sensor() ==> r is None && final(inst)@ == old(inst)@,
            !old(inst)@.is_sensor() ==> r is Some && (final(inst)@, r->0.deep_view()) == bind(
                old(inst)@,
                *clock,
            ),
    {
        if is_sensor(inst) {
            None
        } else {
            Some(EcobeeThermostat.on_bind_at(inst, clock))
        }
    }

    /// The wizard that sets up thermostats and sensors alike.
    pub fn discover(&self, driver_id: &str, state: &Json, input: &Object) -> (r: (SetupStep, Json))
        ensures
            (r.0@, r.1@) == discover(state@, input@),
    {
        EcobeeThermostat.discover(driver_id, state, input)
    }
}

} // verus!
