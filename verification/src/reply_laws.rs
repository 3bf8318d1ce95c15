//! What the host is told of a reply, read out of the reply itself.

use vstd::prelude::*;

use crate::binary64::Real;
use crate::clock::Clock;
use crate::command_laws::{holds_at, setpoint_command_holds_both, written};
use crate::host::{HostCallView, InstanceView};
use crate::json::{at, first_with, JsonView, NumberView};
use crate::laws::{lemma_notes_differ, waiting_command_is_run};
use crate::sensor::sensor_event;
use crate::text::integer_of;
use crate::thermostat::{banked, command, event};
use crate::token_laws::{renewal_keeps_every_other_note, token_reply_takes_up_what_waits};
use crate::units::{celsius_of, f10_of};

verus! {

/// What the host is told: an event on a binding, with one argument.
pub open spec fn tells(
    call: HostCallView,
    binding: u32,
    event: Seq<char>,
    name: Seq<char>,
    value: JsonView,
) -> bool {
    &&& call is Notify
    &&& call->binding == binding
    &&& call->event == event
    &&& call->args == map![name => value]
}

/// A setpoint command that had to wait: after the token reply the hold states the temperature
/// asked for, and the other one from what was known when the command was given.
pub proof fn waiting_setpoint_keeps_the_other(
    inst: InstanceView,
    heating: bool,
    args: Map<Seq<char>, JsonView>,
    clock: Clock,
    reply: Map<Seq<char>, JsonView>,
    access: Seq<char>,
    later: Clock,
    c: Real,
    id: Seq<char>,
) -> (doc: JsonView)
    requires
        at(args, "celsius"@).as_double() == Some(c),
        inst.identifier() == Some(id),
        inst.needs_refresh(clock.checked),
        inst.refresh_request() is Some,
        at(reply, "body"@).at("access_token"@) == JsonView::Str(access),
        banked(inst, at(reply, "body"@), access, later.received).access_token(later.checked) is Some,
        banked(inst, at(reply, "body"@), access, later.received).access_token(later.sent) is Some,
    ensures
        ({
            let cmd = if heating { "set_heat_setpoint"@ } else { "set_cool_setpoint"@ };
            let asked = command(inst, cmd, args, clock);
            let done = event(asked.0, "http_response"@, reply, later);
            let (heat, cool) = inst.setpoints();
            &&& asked.1 == seq![inst.refresh_request()->0]
            &&& done.1.len() == 2
            &&& done.1[0] == written(doc, access)
            &&& heating ==> holds_at(
                doc,
                id,
                "nextTransition"@,
                f10_of(c),
                f10_of(if cool.units() >= c.plus(2).units() { cool } else { c.plus(2) }),
                None,
            )
            &&& !heating ==> holds_at(
                doc,
                id,
                "nextTransition"@,
                f10_of(if heat.units() <= c.plus(-2).units() { heat } else { c.plus(-2) }),
                f10_of(c),
                None,
            )
        }),
{
    let cmd = if heating { "set_heat_setpoint"@ } else { "set_cool_setpoint"@ };
    let body = at(reply, "body"@);
    let paid = banked(inst, body, access, later.received);
    let rest = paid.forgotten("pending_action"@);
    waiting_command_is_run(inst, cmd, args, clock, reply, access, later);
    renewal_keeps_every_other_note(inst, body, access, later.received, "heat_c"@);
    token_reply_takes_up_what_waits(inst, reply, access, later);
    lemma_notes_differ();
    assert(rest.setpoints() == inst.setpoints());
    assert(rest.access_token(later.checked) == Some(access));
    assert(rest.access_token(later.sent) == Some(access));
    setpoint_command_holds_both(rest, heating, args, later)
}

/// How many of the host's calls a reading makes.
pub open spec fn calls_for<T>(reading: Option<T>, each: int) -> int {
    if reading is Some {
        each
    } else {
        0
    }
}

/// What the built-in sensor of a thermostat, the first of that type, says of one capability: the
/// text beside the first entry of that type.
pub open spec fn built_in_says(t: JsonView, kind: Seq<char>) -> Option<Seq<char>> {
    match t.at("remoteSensors"@) {
        JsonView::Array(sensors) => match first_with(sensors, "type"@, "thermostat"@) {
            Some(sensor) => says(sensor, kind),
            None => None,
        },
        _ => None,
    }
}

/// What a sensor says of one capability.
pub open spec fn says(sensor: JsonView, kind: Seq<char>) -> Option<Seq<char>> {
    match sensor.at("capability"@) {
        JsonView::Array(list) => match first_with(list, "type"@, kind) {
            Some(entry) => match entry.at("value"@) {
                JsonView::Str(text) => Some(text),
                _ => None,
            },
            None => None,
        },
        _ => None,
    }
}

/// A poll reply is told in full and in order: the temperature on two bindings, the humidity, the
/// mode, and whether someone is there. What it does not hold is not told, and the setpoints that
/// it reports are the only thing that is noted.
pub proof fn poll_is_told_reading_by_reading(
    inst: InstanceView,
    args: Map<Seq<char>, JsonView>,
    clock: Clock,
    list: Seq<JsonView>,
    name: Seq<char>,
)
    requires
        at(args, "body"@).at("access_token"@) !is Str,
        at(args, "body"@).at("thermostatList"@) == JsonView::Array(list),
        list.len() > 0,
    ensures
        ({
            let runtime = list[0].at("runtime"@);
            let temperature = runtime.at("actualTemperature"@).as_i64();
            let humidity = runtime.at("actualHumidity"@).as_i64();
            let heat = runtime.at("desiredHeat"@).as_i64();
            let cool = runtime.at("desiredCool"@).as_i64();
            let mode = list[0].at("settings"@).at("hvacMode"@).as_str();
            let seen = built_in_says(list[0], "occupancy"@);
            let (after, calls) = event(inst, "http_response"@, args, clock);
            let h = calls_for(temperature, 2);
            let m = h + calls_for(humidity, 1);
            let o = m + calls_for(mode, 1);
            &&& calls.len() == o + calls_for(seen, 1)
            &&& temperature matches Some(f10) ==> {
                let c = JsonView::Number(NumberView::Float(celsius_of(f10 as int)));
                &&& tells(calls[0], 1, "temperature_changed"@, "celsius"@, c)
                &&& tells(calls[1], 3, "value_changed"@, "value"@, c)
            }
            &&& humidity matches Some(percent) ==> tells(
                calls[h],
                1,
                "humidity_changed"@,
                "percent"@,
                JsonView::Number(NumberView::Float(Real::from_int(percent as int))),
            )
            &&& mode matches Some(text) ==> tells(
                calls[m],
                1,
                "mode_changed"@,
                "mode"@,
                JsonView::Str(text),
            )
            &&& seen matches Some(text) ==> tells(
                calls[o],
                2,
                "detected_changed"@,
                "detected"@,
                JsonView::Bool(text == "true"@),
            )
            &&& after.properties == inst.properties
            &&& name != "heat_c"@ && name != "cool_c"@ ==> after.scratch.contains_key(name)
                == inst.scratch.contains_key(name) && at(after.scratch, name) == at(
                inst.scratch,
                name,
            )
            &&& at(after.scratch, "heat_c"@) == (match heat {
                Some(f10) => JsonView::Number(NumberView::Float(celsius_of(f10 as int))),
                None => at(inst.scratch, "heat_c"@),
            })
            &&& at(after.scratch, "cool_c"@) == (match cool {
                Some(f10) => JsonView::Number(NumberView::Float(celsius_of(f10 as int))),
                None => at(inst.scratch, "cool_c"@),
            })
        }),
{
    lemma_notes_differ();
}

/// Whether someone is there is told at most once for a poll, on the second binding, and exactly
/// where the built-in sensor says so.
pub proof fn own_occupancy_is_told_once(
    inst: InstanceView,
    args: Map<Seq<char>, JsonView>,
    clock: Clock,
    list: Seq<JsonView>,
    i: int,
)
    requires
        at(args, "body"@).at("access_token"@) !is Str,
        at(args, "body"@).at("thermostatList"@) == JsonView::Array(list),
        list.len() > 0,
        0 <= i < event(inst, "http_response"@, args, clock).1.len(),
        event(inst, "http_response"@, args, clock).1[i] is Notify,
        event(inst, "http_response"@, args, clock).1[i]->event == "detected_changed"@,
    ensures
        i == event(inst, "http_response"@, args, clock).1.len() - 1,
        built_in_says(list[0], "occupancy"@) matches Some(text) && tells(
            event(inst, "http_response"@, args, clock).1[i],
            2,
            "detected_changed"@,
            "detected"@,
            JsonView::Bool(text == "true"@),
        ),
{
    poll_is_told_reading_by_reading(inst, args, clock, list, "heat_c"@);
    reveal_strlit("detected_changed");
    reveal_strlit("temperature_changed");
    reveal_strlit("value_changed");
    reveal_strlit("humidity_changed");
    reveal_strlit("mode_changed");
    assert("detected_changed"@.len() == 16);
    assert("temperature_changed"@.len() == 19);
    assert("value_changed"@.len() == 13);
    assert("humidity_changed"@[0] == 'h');
    assert("detected_changed"@[0] == 'd');
    assert("mode_changed"@.len() == 12);
}

/// Any other message, and a reply with neither a token nor a thermostat, is passed over.
pub proof fn other_messages_are_passed_over(
    inst: InstanceView,
    note: Seq<char>,
    args: Map<Seq<char>, JsonView>,
    clock: Clock,
)
    ensures
        note != "http_response"@ ==> {
            &&& event(inst, note, args, clock) == (inst, Seq::<HostCallView>::empty())
            &&& sensor_event(inst, note, args) == (inst, Seq::<HostCallView>::empty())
        },
        at(args, "body"@).at("access_token"@) !is Str && (match at(args, "body"@).at(
            "thermostatList"@,
        ) {
            JsonView::Array(list) => list.len() == 0,
            _ => true,
        }) ==> event(inst, note, args, clock) == (inst, Seq::<HostCallView>::empty()),
{
}

/// The sensor of a poll reply that an instance stands for: the first one with its id among those
/// of the first thermostat.
pub open spec fn own_sensor(inst: InstanceView, args: Map<Seq<char>, JsonView>) -> Option<
    JsonView,
> {
    let want = match at(inst.properties, "Sensor id"@) {
        JsonView::Str(id) => id,
        _ => Seq::empty(),
    };
    match at(args, "body"@).at("thermostatList"@) {
        JsonView::Array(list) => if list.len() == 0 {
            None
        } else {
            match list[0].at("remoteSensors"@) {
                JsonView::Array(sensors) => first_with(sensors, "id"@, want),
                _ => None,
            }
        },
        _ => None,
    }
}

/// A sensor tells the host whenever the occupancy that it reports is not the one noted, in either
/// direction, and the temperature whenever it reports one. After that the occupancy noted is the
/// one reported, and no other note has changed.
pub proof fn sensor_tells_every_change(
    inst: InstanceView,
    args: Map<Seq<char>, JsonView>,
    name: Seq<char>,
)
    ensures
        ({
            let (after, calls) = sensor_event(inst, "http_response"@, args);
            match own_sensor(inst, args) {
                None => after == inst && calls == Seq::<HostCallView>::empty(),
                Some(sensor) => {
                    let seen = says(sensor, "occupancy"@);
                    let raw = says(sensor, "temperature"@);
                    let warm = match raw {
                        Some(text) => integer_of(text),
                        None => None,
                    };
                    let noted = at(inst.scratch, "occupied"@);
                    let changed = seen is Some && noted != JsonView::Bool(seen->0 == "true"@);
                    let first: int = if changed {
                        1
                    } else {
                        0
                    };
                    &&& calls.len() == first + calls_for(warm, 1)
                    &&& changed ==> tells(
                        calls[0],
                        1,
                        "detected_changed"@,
                        "detected"@,
                        JsonView::Bool(seen->0 == "true"@),
                    )
                    &&& warm matches Some(f10) ==> tells(
                        calls[first],
                        2,
                        "value_changed"@,
                        "value"@,
                        JsonView::Number(NumberView::Float(celsius_of(f10 as int))),
                    )
                    &&& after.properties == inst.properties
                    &&& seen matches Some(text) ==> at(after.scratch, "occupied"@)
                        == JsonView::Bool(text == "true"@)
                    &&& seen is None ==> after == inst
                    &&& name != "occupied"@ ==> after.scratch.contains_key(name)
                        == inst.scratch.contains_key(name) && at(after.scratch, name) == at(
                        inst.scratch,
                        name,
                    )
                },
            }
        }),
{
}

} // verus!
