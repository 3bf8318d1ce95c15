//! SmartSensors: readings that come with the poll of their thermostat.

use vstd::prelude::*;

use crate::binary64::{Binary64, Real};
use crate::host::{nothing, notice, only, or_empty, HostCall, HostCallView, Instance, InstanceView};
use crate::json::{at, find_with, first_with, Json, JsonView, Object};
use crate::text::{integer_of, join, parse_i64, same};
use crate::units::{celsius_of, f10_to_c};

verus! {

/// A SmartSensor.
#[derive(Default)]
pub struct EcobeeRemoteSensor;

/// What a sensor reports of one capability: the text beside its type.
pub open spec fn capability(sensor: JsonView, kind: Seq<char>) -> Option<Seq<char>> {
    match sensor.at("capability"@).as_array() {
        Some(list) => match first_with(list, "type"@, kind) {
            Some(c) => c.at("value"@).as_str(),
            None => None,
        },
        None => None,
    }
}

/// Whether a sensor sees someone, where it says so at all.
pub open spec fn occupancy_of(sensor: JsonView) -> Option<bool> {
    match capability(sensor, "occupancy"@) {
        Some(v) => Some(v == "true"@),
        None => None,
    }
}

/// The temperature of a sensor in Celsius. One that cannot be reached reports "unknown", which
/// is no temperature.
pub open spec fn temperature_of(sensor: JsonView) -> Option<Real> {
    match capability(sensor, "temperature"@) {
        Some(raw) => match integer_of(raw) {
            Some(f10) => Some(celsius_of(f10 as int)),
            None => None,
        },
        None => None,
    }
}

/// The first thermostat of a poll reply.
pub open spec fn first_thermostat(doc: JsonView) -> Option<JsonView> {
    match doc.at("thermostatList"@).as_array() {
        Some(list) if list.len() > 0 => Some(list[0]),
        _ => None,
    }
}

/// The sensor with an id in a poll reply.
pub open spec fn sensor_in(doc: JsonView, id: Seq<char>) -> Option<JsonView> {
    match first_thermostat(doc) {
        Some(t) => match t.at("remoteSensors"@).as_array() {
            Some(sensors) => first_with(sensors, "id"@, id),
            None => None,
        },
        None => None,
    }
}

/// What a sensor does with its own readings: occupancy is passed on when it changes, the
/// temperature every time.
pub open spec fn sensor_readings(inst: InstanceView, sensor: JsonView) -> (
    InstanceView,
    Seq<HostCallView>,
) {
    let (seen, occupancy) = match occupancy_of(sensor) {
        Some(occupied) if at(inst.scratch, "occupied"@).as_bool() != Some(occupied) => (
            inst.noted("occupied"@, JsonView::Bool(occupied)),
            seq![notice(1, "detected_changed"@, "detected"@, JsonView::Bool(occupied))],
        ),
        _ => (inst, Seq::empty()),
    };
    let temperature = match temperature_of(sensor) {
        Some(c) => seq![notice(2, "value_changed"@, "value"@, JsonView::double(c))],
        None => Seq::empty(),
    };
    (seen, occupancy + temperature)
}

/// What a sensor does with a message from the host.
pub open spec fn sensor_event(
    inst: InstanceView,
    note: Seq<char>,
    args: Map<Seq<char>, JsonView>,
) -> (InstanceView, Seq<HostCallView>) {
    if note != "http_response"@ {
        (inst, Seq::empty())
    } else {
        match sensor_in(at(args, "body"@), or_empty(inst.property("Sensor id"@).as_str())) {
            Some(sensor) => sensor_readings(inst, sensor),
            None => (inst, Seq::empty()),
        }
    }
}

/// Reads what a sensor reports of one capability.
fn read_capability<'a>(sensor: &'a Json, kind: &str) -> (r: Option<&'a str>)
    ensures
        r.deep_view() == capability(sensor@, kind@),
{
    match sensor.array_at("capability") {
        Some(list) => match find_with(list, "type", kind) {
            Some(c) => c.str_at("value"),
            None => None,
        },
        None => None,
    }
}

/// Ecobee reports every sensor value as a `{type, value}` pair in a list, with occupancy as
/// the *text* "true"/"false" rather than a boolean.
pub fn read_occupancy(sensor: &Json) -> (r: Option<bool>)
    ensures
        r == occupancy_of(sensor@),
{
    match read_capability(sensor, "occupancy") {
        Some(v) => Some(same(v, "true")),
        None => None,
    }
}

/// Reads the temperature of a sensor.
pub fn read_temperature_c(sensor: &Json) -> (r: Option<Binary64>)
    ensures
        r is Some <==> temperature_of(sensor@) is Some,
        r matches Some(c) ==> temperature_of(sensor@) == Some(c@),
{
    match read_capability(sensor, "temperature") {
        Some(raw) => match parse_i64(raw) {
            Some(f10) => Some(f10_to_c(f10)),
            None => None,
        },
        None => None,
    }
}

/// Finds the first thermostat of a poll reply.
pub fn find_thermostat(doc: &Json) -> (r: Option<&Json>)
    ensures
        r.deep_view() == first_thermostat(doc@),
{
    match doc.array_at("thermostatList") {
        Some(list) => if list.len() > 0 {
            Some(&list[0])
        } else {
            None
        },
        None => None,
    }
}

/// Finds the sensor with an id in a poll reply.
fn find_sensor<'a>(doc: &'a Json, id: &str) -> (r: Option<&'a Json>)
    ensures
        r.deep_view() == sensor_in(doc@, id@),
{
    match find_thermostat(doc) {
        Some(t) => match t.array_at("remoteSensors") {
            Some(sensors) => find_with(sensors, "id", id),
            None => None,
        },
        None => None,
    }
}

impl EcobeeRemoteSensor {
    /// A sensor takes no commands.
    pub fn on_command(&self, inst: &mut Instance, proxy: u32, cmd: &str, args: &Object) -> (r: Vec<
        HostCall,
    >)
        ensures
            final(inst)@ == old(inst)@,
            r.deep_view() == seq![
                HostCallView::Warn("ecobee sensor is read-only, got `"@ + cmd@ + "`"@),
            ],
    {
        let mut message = join("ecobee sensor is read-only, got `", cmd);
        message.append("`");
        only(HostCall::warn(message.as_str()))
    }

    /// A poll came back: pass on what it says of this sensor.
    pub fn on_event(&self, inst: &mut Instance, control: u32, note: &str, args: &Object) -> (r: Vec<
        HostCall,
    >)
        ensures
            (final(inst)@, r.deep_view()) == sensor_event(old(inst)@, note@, args@),
    {
        if !same(note, "http_response") {
            return nothing();
        }
        let found: Option<&Json> = match args.get("body") {
            Some(doc) => match inst.properties.str_at("Sensor id") {
                Some(id) => find_sensor(doc, id),
                None => {
                    proof {
                        reveal_strlit("");
                        assert(""@ =~= Seq::empty());
                    }
                    find_sensor(doc, "")
                },
            },
            None => None,
        };
        match found {
            Some(sensor) => Self::pass_on(inst, sensor),
            None => nothing(),
        }
    }

    /// Passes on what a sensor reports.
    pub fn pass_on(inst: &mut Instance, sensor: &Json) -> (r: Vec<HostCall>)
        ensures
            (final(inst)@, r.deep_view()) == sensor_readings(old(inst)@, sensor@),
    {
        let ghost before = inst@;
        let mut out: Vec<HostCall> = Vec::new();
        assert(out.deep_view() =~= Seq::empty());
        match read_occupancy(sensor) {
            Some(occupied) => {
                let known = inst.scratch.bool_at("occupied");
                let changed: bool = match known {
                    Some(k) => k != occupied,
                    None => true,
                };
                if changed {
                    inst.scratch.insert("occupied", Json::boolean(occupied));
                    let call = HostCall::notify_one(
                        1,
                        "detected_changed",
                        "detected",
                        Json::boolean(occupied),
                    );
                    out.push(call);
                    assert(out.deep_view() =~= seq![call@]);
                }
            },
            None => {},
        }
        let ghost occupancy = out.deep_view();
        match read_temperature_c(sensor) {
            Some(c) => {
                let call = HostCall::notify_one(2, "value_changed", "value", Json::double(c));
                out.push(call);
                assert(out.deep_view() =~= occupancy + seq![call@]);
            },
            None => {
                assert(out.deep_view() =~= occupancy + Seq::empty());
            },
        }
        out
    }
}

} // verus!
