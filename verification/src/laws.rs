//! What holds of the driver as a whole.

use vstd::prelude::*;

use crate::accuracy::whole_degrees_come_back;
use crate::binary64::{decode, one, Real};
use crate::clock::Clock;
use crate::deadband::setpoints_go_out_apart;
use crate::documents::{hold_body, hold_params};
use crate::driver::{device_command, device_event};
use crate::encode::compact_text;
use crate::host::{notice, or_empty, HostCallView, HttpRequestView, InstanceView};
use crate::json::{at, member, JsonView};
use crate::sensor::{first_thermostat, sensor_readings, temperature_of};
use crate::thermostat::{banked, bind, command, event, held_apart, is_write, pending_bind, pending_command, setpoint_changed, with_reported, API};
use crate::units::{f10_of, whole_fahrenheit, wrap_i64};

verus! {

/// A token has to be fetched exactly when nothing can be sent without one. That happens only on
/// the OAuth path: without an API key a request can always be sent.
pub proof fn refresh_is_needed_when_nothing_can_be_sent(
    inst: InstanceView,
    request: HttpRequestView,
    now: i64,
)
    ensures
        inst.needs_refresh(now) <==> inst.authorized(request, now) is None,
        inst.api_key() is None ==> inst.authorized(request, now) is Some,
{
}

/// Without an API key the `Refresh token` property is the bearer token, at any time and whatever
/// the driver noted.
pub proof fn manual_path_uses_the_property(
    inst: InstanceView,
    request: HttpRequestView,
    now: i64,
)
    requires
        inst.api_key() is None,
    ensures
        inst.authorized(request, now) == Some(
            request.with_header(
                "authorization"@,
                "Bearer "@ + or_empty(inst.property("Refresh token"@).as_str()),
            ),
        ),
{
}

/// Each name that the driver notes things under is its own.
pub(crate) proof fn lemma_notes_differ()
    ensures
        "pending_action"@ != "access_token"@,
        "pending_action"@ != "access_expires_at"@,
        "pending_action"@ != "refresh_token"@,
        "access_token"@ != "access_expires_at"@,
        "access_token"@ != "refresh_token"@,
        "access_expires_at"@ != "refresh_token"@,
        "heat_c"@ != "cool_c"@,
        "heat_c"@ != "access_token"@,
        "heat_c"@ != "access_expires_at"@,
        "cool_c"@ != "access_token"@,
        "cool_c"@ != "access_expires_at"@,
        "cmd"@ != "args"@,
{
    reveal_strlit("pending_action");
    reveal_strlit("access_token");
    reveal_strlit("access_expires_at");
    reveal_strlit("refresh_token");
    reveal_strlit("heat_c");
    reveal_strlit("cool_c");
    reveal_strlit("cmd");
    reveal_strlit("args");
    assert("pending_action"@.len() == 14);
    assert("access_token"@.len() == 12);
    assert("access_expires_at"@.len() == 17);
    assert("refresh_token"@.len() == 13);
    assert("cmd"@.len() == 3);
    assert("args"@.len() == 4);
    assert("heat_c"@[0] != "cool_c"@[0]);
}

proof fn lemma_bind_is_no_write()
    ensures
        !is_write("__bind__"@),
{
    reveal_strlit("__bind__");
    reveal_strlit("set_heat_setpoint");
    reveal_strlit("set_cool_setpoint");
    reveal_strlit("set_mode");
    reveal_strlit("set_fan_mode");
    reveal_strlit("set_hold");
    assert("__bind__"@[0] != "set_mode"@[0]);
    assert("__bind__"@[0] != "set_hold"@[0]);
}

/// Banking the tokens of a reply, and taking away what is pending, do not get in each other's way.
proof fn lemma_banked_forgotten(
    inst: InstanceView,
    waiting: JsonView,
    doc: JsonView,
    access: Seq<char>,
    now: i64,
)
    ensures
        banked(inst.noted("pending_action"@, waiting), doc, access, now).forgotten(
            "pending_action"@,
        ) == banked(inst, doc, access, now).forgotten("pending_action"@),
        member(
            banked(inst.noted("pending_action"@, waiting), doc, access, now).scratch,
            "pending_action"@,
        ) == Some(waiting),
{
    lemma_notes_differ();
    let a = banked(inst.noted("pending_action"@, waiting), doc, access, now);
    let b = banked(inst, doc, access, now);
    assert(a.scratch.remove("pending_action"@) =~= b.scratch.remove("pending_action"@));
}

/// A command that has to wait for a token is not lost: the token reply runs it just as it would
/// have run with that token on hand.
pub proof fn waiting_command_is_run(
    inst: InstanceView,
    cmd: Seq<char>,
    args: Map<Seq<char>, JsonView>,
    clock: Clock,
    reply: Map<Seq<char>, JsonView>,
    access: Seq<char>,
    later: Clock,
)
    requires
        is_write(cmd),
        inst.needs_refresh(clock.checked),
        inst.refresh_request() is Some,
        at(reply, "body"@).at("access_token"@).as_str() == Some(access),
    ensures
        command(inst, cmd, args, clock).1 == seq![inst.refresh_request()->0],
        event(command(inst, cmd, args, clock).0, "http_response"@, reply, later) == command(
            banked(inst, at(reply, "body"@), access, later.received).forgotten("pending_action"@),
            cmd,
            args,
            later,
        ),
{
    let waiting = JsonView::Object(pending_command(cmd, args));
    lemma_notes_differ();
    lemma_bind_is_no_write();
    lemma_banked_forgotten(inst, waiting, at(reply, "body"@), access, later.received);
}

/// A binding that has to wait for a token is not lost either.
pub proof fn waiting_bind_is_run(
    inst: InstanceView,
    clock: Clock,
    reply: Map<Seq<char>, JsonView>,
    access: Seq<char>,
    later: Clock,
)
    requires
        inst.identifier() is Some,
        inst.needs_refresh(clock.checked),
        inst.refresh_request() is Some,
        at(reply, "body"@).at("access_token"@).as_str() == Some(access),
    ensures
        bind(inst, clock).1 == seq![inst.refresh_request()->0],
        event(bind(inst, clock).0, "http_response"@, reply, later) == bind(
            banked(inst, at(reply, "body"@), access, later.received).forgotten("pending_action"@),
            later,
        ),
{
    lemma_banked_forgotten(
        inst,
        JsonView::Object(pending_bind()),
        at(reply, "body"@),
        access,
        later.received,
    );
}

/// On the OAuth path the access token of a reply is on hand until half a minute before it
/// expires. The next exchange uses the refresh token that came with it.
pub proof fn banked_tokens_are_used(
    inst: InstanceView,
    doc: JsonView,
    access: Seq<char>,
    received: i64,
    now: i64,
)
    ensures
        ({
            let paid = banked(inst, doc, access, received);
            let ttl: int = match doc.at("expires_in"@).as_i64() {
                Some(seconds) => seconds as int,
                None => 3600,
            };
            &&& paid.access_token(now) == (if inst.api_key() is Some && wrap_i64(received + ttl)
                > wrap_i64(now + 30) {
                Some(access)
            } else {
                None
            })
            &&& paid.refresh_token() == (match doc.at("refresh_token"@).as_str() {
                Some(refresh) => Some(refresh),
                None => inst.refresh_token(),
            })
            &&& paid.api_key() == inst.api_key()
        }),
{
    lemma_notes_differ();
}

/// What has to be distinguished from the warning that a token is not ready.
proof fn lemma_warnings_differ(cmd: Seq<char>)
    ensures
        ({
            let gone = "ecobee: token not ready, try again shortly"@;
            &&& "ecobee: no celsius value"@ != gone
            &&& "ecobee: set the Thermostat identifier on this device first"@ != gone
            &&& "ecobee: no mode"@ != gone
            &&& "ecobee: no fan mode"@ != gone
            &&& "ecobee: no Thermostat identifier"@ != gone
            &&& "ecobee: set the API key and Refresh token on this device first"@ != gone
            &&& "ecobee: set the Thermostat identifier and Refresh token on this device"@ != gone
            &&& "ecobee: unhandled `"@ + cmd + "`"@ != gone
        }),
{
    reveal_strlit("ecobee: token not ready, try again shortly");
    reveal_strlit("ecobee: no celsius value");
    reveal_strlit("ecobee: set the Thermostat identifier on this device first");
    reveal_strlit("ecobee: no mode");
    reveal_strlit("ecobee: no fan mode");
    reveal_strlit("ecobee: no Thermostat identifier");
    reveal_strlit("ecobee: set the API key and Refresh token on this device first");
    reveal_strlit("ecobee: set the Thermostat identifier and Refresh token on this device");
    reveal_strlit("ecobee: unhandled `");
    let unhandled = "ecobee: unhandled `"@ + cmd + "`"@;
    assert(unhandled[8] == 'u');
    assert("ecobee: token not ready, try again shortly"@[8] == 't');
}

/// The installer is told that a token is not ready only where it expired while the request was
/// being built: not where the clock stood still.
pub proof fn token_is_ready_unless_it_just_expired(
    inst: InstanceView,
    cmd: Seq<char>,
    args: Map<Seq<char>, JsonView>,
    clock: Clock,
)
    requires
        clock.checked == clock.sent,
    ensures
        ({
            let gone = seq![HostCallView::Warn("ecobee: token not ready, try again shortly"@)];
            command(inst, cmd, args, clock).1 != gone && bind(inst, clock).1 != gone
        }),
{
    lemma_warnings_differ(cmd);
    let gone = seq![HostCallView::Warn("ecobee: token not ready, try again shortly"@)];
    assert(gone[0] is Warn);
    let calls = command(inst, cmd, args, clock).1;
    let polls = bind(inst, clock).1;
    if calls == gone {
        assert(calls[0] == gone[0]);
    }
    if polls == gone {
        assert(polls[0] == gone[0]);
    }
}

/// The setpoint that is set goes out as it was asked for, whatever the driver knew before; the
/// other one goes out with it, from what was last known, pushed two degrees out of the way where
/// it was closer than that and untouched where it was not.
pub proof fn writes_are_absolute(heating: bool, c: Real, heat: Real, cool: Real)
    ensures
        ({
            let (h, k) = held_apart(heating, c, heat, cool);
            let params = hold_params("nextTransition"@, f10_of(h) as i64, f10_of(k) as i64, None);
            &&& member(params, "heatHoldTemp"@) == Some(JsonView::integer(f10_of(h) as i64))
            &&& member(params, "coolHoldTemp"@) == Some(JsonView::integer(f10_of(k) as i64))
            &&& heating ==> h == c
            &&& !heating ==> k == c
            &&& heating ==> k.units() >= c.plus(2).units()
            &&& !heating ==> h.units() <= c.plus(-2).units()
            &&& heating && cool.units() >= c.plus(2).units() ==> k == cool
            &&& !heating && heat.units() <= c.plus(-2).units() ==> h == heat
        }),
{
    reveal_strlit("heatHoldTemp");
    reveal_strlit("coolHoldTemp");
    assert("heatHoldTemp"@[0] != "coolHoldTemp"@[0]);
}

/// With a token on hand, setting a setpoint sends one hold that states both, the one asked for
/// exactly as it was asked for. No reply is needed first, so that a read that was throttled
/// cannot corrupt the write.
pub proof fn setpoint_goes_out_as_asked(
    inst: InstanceView,
    heating: bool,
    args: Map<Seq<char>, JsonView>,
    c: Real,
    id: Seq<char>,
    token: Seq<char>,
    clock: Clock,
)
    requires
        at(args, "celsius"@).as_double() == Some(c),
        inst.identifier() == Some(id),
        !inst.needs_refresh(clock.checked),
        inst.bearer(clock.sent) == Some(token),
    ensures
        ({
            let cmd = if heating { "set_heat_setpoint"@ } else { "set_cool_setpoint"@ };
            let (heat, cool) = inst.setpoints();
            let (h, k) = held_apart(heating, c, heat, cool);
            let body = hold_body(id, "nextTransition"@, f10_of(h) as i64, f10_of(k) as i64, None);
            let request = HttpRequestView::new("POST"@, API@).with_json(
                compact_text(body),
            ).with_header("authorization"@, "Bearer "@ + token);
            &&& command(inst, cmd, args, clock) == (
                inst.with_setpoints(h, k),
                seq![HostCallView::Http(request), setpoint_changed(heating, c)],
            )
            &&& heating ==> h == c
            &&& !heating ==> k == c
        }),
{
    let (heat, cool) = inst.setpoints();
    let (h, k) = held_apart(heating, c, heat, cool);
    setpoints_are_remembered(inst, h, k, clock.sent);
    reveal_strlit("set_heat_setpoint");
    reveal_strlit("set_cool_setpoint");
    assert("set_heat_setpoint"@[4] != "set_cool_setpoint"@[4]);
}

/// The hold that goes out then states a cooling temperature that is at least three degrees
/// Fahrenheit above the heating one, whatever setpoints were known.
pub proof fn hold_goes_out_apart(
    inst: InstanceView,
    heating: bool,
    args: Map<Seq<char>, JsonView>,
    c: Real,
    id: Seq<char>,
    token: Seq<char>,
    clock: Clock,
) -> (stated: (i64, i64))
    requires
        at(args, "celsius"@).as_double() == Some(c),
        inst.identifier() == Some(id),
        !inst.needs_refresh(clock.checked),
        inst.bearer(clock.sent) == Some(token),
        c.is_double(),
        9 * c.magnitude() + 200 * one() <= 0xa0_0000_0000_0000 * one(),
        heating ==> 10 * whole_fahrenheit(inst.setpoints().1) <= i64::MAX,
        !heating ==> 10 * whole_fahrenheit(inst.setpoints().0) >= i64::MIN,
    ensures
        ({
            let cmd = if heating { "set_heat_setpoint"@ } else { "set_cool_setpoint"@ };
            let body = hold_body(id, "nextTransition"@, stated.0, stated.1, None);
            let request = HttpRequestView::new("POST"@, API@).with_json(
                compact_text(body),
            ).with_header("authorization"@, "Bearer "@ + token);
            &&& command(inst, cmd, args, clock).1 == seq![
                HostCallView::Http(request),
                setpoint_changed(heating, c),
            ]
            &&& stated.1 >= stated.0 + 30
            &&& heating ==> stated.0 == f10_of(c)
            &&& !heating ==> stated.1 == f10_of(c)
        }),
{
    let (heat, cool) = inst.setpoints();
    let (h, k) = held_apart(heating, c, heat, cool);
    setpoint_goes_out_as_asked(inst, heating, args, c, id, token, clock);
    setpoints_go_out_apart(heating, c, heat, cool);
    (f10_of(h) as i64, f10_of(k) as i64)
}

/// A read that failed changes nothing: a reply with neither a token nor a thermostat in it leaves
/// what is known as it is, and nothing is told.
pub proof fn failed_read_changes_nothing(
    inst: InstanceView,
    note: Seq<char>,
    args: Map<Seq<char>, JsonView>,
    clock: Clock,
)
    requires
        at(args, "body"@).at("access_token"@).as_str() is None,
        first_thermostat(at(args, "body"@)) is None,
    ensures
        device_event(inst, note, args, clock) == (inst, Seq::<HostCallView>::empty()),
{
}

/// A command that is not one of the writes changes nothing and sends nothing.
pub proof fn other_commands_only_warn(
    inst: InstanceView,
    cmd: Seq<char>,
    args: Map<Seq<char>, JsonView>,
    clock: Clock,
)
    requires
        !is_write(cmd),
    ensures
        device_command(inst, cmd, args, clock).0 == inst,
        device_command(inst, cmd, args, clock).1.len() == 1,
        device_command(inst, cmd, args, clock).1[0] is Warn,
{
}

/// The setpoints of a hold are the ones that the next command starts from.
pub proof fn setpoints_are_remembered(inst: InstanceView, heat: Real, cool: Real, now: i64)
    ensures
        inst.with_setpoints(heat, cool).setpoints() == (heat, cool),
        inst.with_setpoints(heat, cool).bearer(now) == inst.bearer(now),
{
    lemma_notes_differ();
}

/// A setpoint in whole degrees that a poll reports, heating or cooling, is the one that a hold
/// states next.
pub proof fn reported_setpoints_are_held(inst: InstanceView, t: JsonView, degrees: int)
    requires
        -1_000_000_000_000 <= degrees <= 1_000_000_000_000,
    ensures
        t.at("runtime"@).at("desiredHeat"@).as_i64() == Some((10 * degrees) as i64) ==> f10_of(
            with_reported(inst, t).setpoints().0,
        ) == 10 * degrees,
        t.at("runtime"@).at("desiredCool"@).as_i64() == Some((10 * degrees) as i64) ==> f10_of(
            with_reported(inst, t).setpoints().1,
        ) == 10 * degrees,
{
    lemma_notes_differ();
    whole_degrees_come_back(degrees);
}

/// The driver never writes what the installer filled in.
pub proof fn properties_stay(
    inst: InstanceView,
    cmd: Seq<char>,
    note: Seq<char>,
    args: Map<Seq<char>, JsonView>,
    clock: Clock,
)
    ensures
        device_command(inst, cmd, args, clock).0.properties == inst.properties,
        device_event(inst, note, args, clock).0.properties == inst.properties,
        bind(inst, clock).0.properties == inst.properties,
{
    let doc = at(args, "body"@);
    match doc.at("access_token"@).as_str() {
        Some(access) => {
            let paid = banked(inst, doc, access, clock.received);
            assert(paid.properties == inst.properties);
        },
        None => {},
    }
}

/// A sensor that says the same thing twice is passed on once: the second time only its
/// temperature is, and nothing is noted.
pub proof fn occupancy_is_told_once(inst: InstanceView, sensor: JsonView)
    ensures
        ({
            let (seen, _) = sensor_readings(inst, sensor);
            &&& sensor_readings(seen, sensor).0 == seen
            &&& sensor_readings(seen, sensor).1 =~= (match temperature_of(sensor) {
                Some(c) => seq![
                    notice(2, "value_changed"@, "value"@, JsonView::double(c)),
                ],
                None => Seq::empty(),
            })
        }),
{
}

/// Two bit patterns that stand for the same number are the same.
pub proof fn one_pattern_for_each_number(a: u64, b: u64)
    requires
        decode(a) is Some,
        decode(a) == decode(b),
    ensures
        a == b,
{
}

} // verus!
