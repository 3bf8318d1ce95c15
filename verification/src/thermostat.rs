//! Thermostats: commands out, polls and token replies in.

use vstd::prelude::*;

use crate::auth::{auth, needs_refresh, refresh_request};
use crate::binary64::{Binary64, Real};
use crate::clock::Clock;
use crate::documents::{hold_body, hold_text, mode_body, mode_text, poll_selection, poll_text, resume_body, resume_text};
use crate::encode::compact_text;
use crate::host::{both, nonempty, nothing, notice, only, HostCall, HostCallView, HttpRequest, HttpRequestView, Instance, InstanceView};
use crate::json::{at, find_with, first_with, Json, JsonView, Object};
use crate::sensor::{find_thermostat, first_thermostat, occupancy_of, read_occupancy};
use crate::text::{join, same};
use crate::units::{celsius_of, f10_of, f10_to_c, finite_c_to_f10, wrap_i64};

verus! {

/// Where thermostats are read and written.
pub const API: &'static str = "https://api.ecobee.com/1/thermostat";

/// A thermostat.
#[derive(Default)]
pub struct EcobeeThermostat;

/// What a call leaves behind: the instance after it, and what the host is asked to do.
pub type Outcome = (InstanceView, Seq<HostCallView>);

/// A warning and nothing else.
pub open spec fn warning(inst: InstanceView, message: Seq<char>) -> Outcome {
    (inst, seq![HostCallView::Warn(message)])
}

/// A request and what goes with it, or a warning where no token was ready for it.
pub open spec fn sent_or_not_ready(
    inst: InstanceView,
    request: Option<HttpRequestView>,
    then: Seq<HostCallView>,
) -> Outcome {
    match request {
        Some(r) => (inst, seq![HostCallView::Http(r)] + then),
        None => warning(inst, "ecobee: token not ready, try again shortly"@),
    }
}

impl InstanceView {
    /// Which thermostat of the account this is.
    pub open spec fn identifier(self) -> Option<Seq<char>> {
        nonempty(self.property("Thermostat identifier"@).as_str())
    }

    /// The last known setpoints in Celsius, heating first: 20 and 24 until something is known.
    pub open spec fn setpoints(self) -> (Real, Real) {
        (
            match at(self.scratch, "heat_c"@).as_double() {
                Some(heat) => heat,
                None => Real::from_int(20),
            },
            match at(self.scratch, "cool_c"@).as_double() {
                Some(cool) => cool,
                None => Real::from_int(24),
            },
        )
    }

    /// A write of a document to the API.
    pub open spec fn post(self, text: Seq<char>, now: i64) -> Option<HttpRequestView> {
        self.authorized(HttpRequestView::new("POST"@, API@).with_json(text), now)
    }

    /// A read of what a selection picks.
    pub open spec fn poll(self, selection: Seq<char>, now: i64) -> Option<HttpRequestView> {
        self.authorized(HttpRequestView::new("GET"@, API@ + "?json="@ + selection), now)
    }

    /// A hold on this thermostat, with both setpoints stated.
    pub open spec fn hold(
        self,
        hold_type: Seq<char>,
        heat: Real,
        cool: Real,
        fan: Option<Seq<char>>,
        now: i64,
    ) -> Option<HttpRequestView> {
        match self.identifier() {
            Some(id) => self.post(
                compact_text(
                    hold_body(id, hold_type, f10_of(heat) as i64, f10_of(cool) as i64, fan),
                ),
                now,
            ),
            None => None,
        }
    }

    /// The instance with the setpoints of its next hold.
    pub open spec fn with_setpoints(self, heat: Real, cool: Real) -> InstanceView {
        self.noted("heat_c"@, JsonView::double(heat)).noted("cool_c"@, JsonView::double(cool))
    }
}

/// The setpoints after one of them is set, heating first. The other one is pushed out of the
/// way where it would be closer than two degrees, and stays where it is otherwise.
pub open spec fn held_apart(heating: bool, c: Real, heat: Real, cool: Real) -> (Real, Real) {
    if heating {
        let least = c.plus(2);
        (c, if cool.units() < least.units() { least } else { cool })
    } else {
        let most = c.plus(-2);
        (if most.units() < heat.units() { most } else { heat }, c)
    }
}

/// The notification that a setpoint was set.
pub open spec fn setpoint_changed(heating: bool, c: Real) -> HostCallView {
    HostCallView::Notify {
        binding: 1,
        event: "setpoint_changed"@,
        args: map![
            "which"@ => JsonView::Str(if heating { "heat"@ } else { "cool"@ }),
            "celsius"@ => JsonView::double(c),
        ],
    }
}

/// Setting the heating or the cooling setpoint.
pub open spec fn set_setpoint(
    inst: InstanceView,
    heating: bool,
    args: Map<Seq<char>, JsonView>,
    now: i64,
) -> Outcome {
    match at(args, "celsius"@).as_double() {
        Some(c) => {
            let (heat, cool) = inst.setpoints();
            let (h, c2) = held_apart(heating, c, heat, cool);
            let after = inst.with_setpoints(h, c2);
            match after.hold("nextTransition"@, h, c2, None, now) {
                Some(request) => (
                    after,
                    seq![HostCallView::Http(request), setpoint_changed(heating, c)],
                ),
                None => warning(
                    after,
                    "ecobee: set the Thermostat identifier on this device first"@,
                ),
            }
        },
        None => warning(inst, "ecobee: no celsius value"@),
    }
}

/// Setting the heating and cooling mode.
pub open spec fn set_mode(inst: InstanceView, args: Map<Seq<char>, JsonView>, now: i64) -> Outcome {
    match (at(args, "mode"@).as_str(), inst.identifier()) {
        (None, _) => warning(inst, "ecobee: no mode"@),
        (Some(_), None) => warning(inst, "ecobee: no Thermostat identifier"@),
        (Some(mode), Some(id)) => sent_or_not_ready(
            inst,
            inst.post(compact_text(mode_body(id, mode)), now),
            seq![notice(1, "mode_changed"@, "mode"@, JsonView::Str(mode))],
        ),
    }
}

/// Setting the fan mode: a hold of the last known setpoints that names it.
pub open spec fn set_fan_mode(
    inst: InstanceView,
    args: Map<Seq<char>, JsonView>,
    now: i64,
) -> Outcome {
    let (heat, cool) = inst.setpoints();
    match (at(args, "mode"@).as_str(), inst.identifier()) {
        (None, _) => warning(inst, "ecobee: no fan mode"@),
        (Some(_), None) => warning(inst, "ecobee: no Thermostat identifier"@),
        (Some(mode), Some(_)) => sent_or_not_ready(
            inst,
            inst.hold("nextTransition"@, heat, cool, Some(mode), now),
            Seq::empty(),
        ),
    }
}

/// Holding the last known setpoints for good, or going back to the schedule.
pub open spec fn set_hold(inst: InstanceView, args: Map<Seq<char>, JsonView>, now: i64) -> Outcome {
    let (heat, cool) = inst.setpoints();
    match inst.identifier() {
        None => warning(inst, "ecobee: no Thermostat identifier"@),
        Some(id) => sent_or_not_ready(
            inst,
            if at(args, "hold"@).as_bool() == Some(true) {
                inst.hold("indefinite"@, heat, cool, None, now)
            } else {
                inst.post(compact_text(resume_body(id)), now)
            },
            Seq::empty(),
        ),
    }
}

/// The commands that write to the API.
pub open spec fn is_write(cmd: Seq<char>) -> bool {
    ||| cmd == "set_heat_setpoint"@
    ||| cmd == "set_cool_setpoint"@
    ||| cmd == "set_mode"@
    ||| cmd == "set_fan_mode"@
    ||| cmd == "set_hold"@
}

/// A command, once a token is on hand for it.
pub open spec fn run(
    inst: InstanceView,
    cmd: Seq<char>,
    args: Map<Seq<char>, JsonView>,
    now: i64,
) -> Outcome {
    if cmd == "set_heat_setpoint"@ {
        set_setpoint(inst, true, args, now)
    } else if cmd == "set_cool_setpoint"@ {
        set_setpoint(inst, false, args, now)
    } else if cmd == "set_mode"@ {
        set_mode(inst, args, now)
    } else if cmd == "set_fan_mode"@ {
        set_fan_mode(inst, args, now)
    } else if cmd == "set_hold"@ {
        set_hold(inst, args, now)
    } else {
        warning(inst, "ecobee: unhandled `"@ + cmd + "`"@)
    }
}

/// A token exchange, with what has to wait for it put aside.
pub open spec fn refresh_first(inst: InstanceView, waiting: Map<Seq<char>, JsonView>) -> Outcome {
    match inst.refresh_request() {
        Some(request) => (
            inst.noted("pending_action"@, JsonView::Object(waiting)),
            seq![request],
        ),
        None => warning(inst, "ecobee: set the API key and Refresh token on this device first"@),
    }
}

/// A command put aside.
pub open spec fn pending_command(cmd: Seq<char>, args: Map<Seq<char>, JsonView>) -> Map<
    Seq<char>,
    JsonView,
> {
    map!["cmd"@ => JsonView::Str(cmd), "args"@ => JsonView::Object(args)]
}

/// A binding put aside.
pub open spec fn pending_bind() -> Map<Seq<char>, JsonView> {
    map!["cmd"@ => JsonView::Str("__bind__"@)]
}

/// What a thermostat does with a command.
pub open spec fn command(
    inst: InstanceView,
    cmd: Seq<char>,
    args: Map<Seq<char>, JsonView>,
    clock: Clock,
) -> Outcome {
    if is_write(cmd) && inst.needs_refresh(clock.checked) {
        refresh_first(inst, pending_command(cmd, args))
    } else {
        run(inst, cmd, args, clock.sent)
    }
}

/// What a thermostat does when it is bound: poll, once a token is on hand for it.
pub open spec fn bind(inst: InstanceView, clock: Clock) -> Outcome {
    match inst.identifier() {
        None => warning(
            inst,
            "ecobee: set the Thermostat identifier and Refresh token on this device"@,
        ),
        Some(id) => if inst.needs_refresh(clock.checked) {
            refresh_first(inst, pending_bind())
        } else {
            sent_or_not_ready(
                inst,
                inst.poll(compact_text(poll_selection(id)), clock.sent),
                Seq::empty(),
            )
        },
    }
}

/// The instance with the tokens of a reply: the access token, when it expires, and the next
/// refresh token where the reply has one.
pub open spec fn banked(inst: InstanceView, doc: JsonView, access: Seq<char>, now: i64) -> InstanceView {
    let ttl = match doc.at("expires_in"@).as_i64() {
        Some(seconds) => seconds,
        None => 3600,
    };
    let paid = inst.noted("access_token"@, JsonView::Str(access)).noted(
        "access_expires_at"@,
        JsonView::integer(wrap_i64(now + ttl) as i64),
    );
    match doc.at("refresh_token"@).as_str() {
        Some(refresh) => paid.noted("refresh_token"@, JsonView::Str(refresh)),
        None => paid,
    }
}

/// What was put aside, taken up again.
pub open spec fn resume(inst: InstanceView, pending: JsonView, clock: Clock) -> Outcome {
    let cmd = match pending.at("cmd"@).as_str() {
        Some(cmd) => cmd,
        None => Seq::empty(),
    };
    let args = match pending.at("args"@).as_object() {
        Some(args) => args,
        None => Map::empty(),
    };
    if cmd == "__bind__"@ {
        bind(inst, clock)
    } else {
        command(inst, cmd, args, clock)
    }
}

/// A token reply: bank it, then run whatever was waiting for it.
pub open spec fn token_reply(
    inst: InstanceView,
    doc: JsonView,
    access: Seq<char>,
    clock: Clock,
) -> Outcome {
    let paid = banked(inst, doc, access, clock.received);
    if paid.scratch.contains_key("pending_action"@) {
        resume(
            paid.forgotten("pending_action"@),
            paid.scratch["pending_action"@],
            clock,
        )
    } else {
        (paid, Seq::empty())
    }
}

/// The instance with the setpoints that a thermostat reports.
pub open spec fn with_reported(inst: InstanceView, t: JsonView) -> InstanceView {
    let warmed = match t.at("runtime"@).at("desiredHeat"@).as_i64() {
        Some(f10) => inst.noted("heat_c"@, JsonView::double(celsius_of(f10 as int))),
        None => inst,
    };
    match t.at("runtime"@).at("desiredCool"@).as_i64() {
        Some(f10) => warmed.noted("cool_c"@, JsonView::double(celsius_of(f10 as int))),
        None => warmed,
    }
}

/// The notifications of the temperature, to the thermostat and to its temperature sensor.
pub open spec fn temperature_notices(t: JsonView) -> Seq<HostCallView> {
    match t.at("runtime"@).at("actualTemperature"@).as_i64() {
        Some(f10) => {
            let c = JsonView::double(celsius_of(f10 as int));
            seq![
                notice(1, "temperature_changed"@, "celsius"@, c),
                notice(3, "value_changed"@, "value"@, c),
            ]
        },
        None => Seq::empty(),
    }
}

/// The notification of the humidity.
pub open spec fn humidity_notices(t: JsonView) -> Seq<HostCallView> {
    match t.at("runtime"@).at("actualHumidity"@).as_i64() {
        Some(h) => seq![
            notice(1, "humidity_changed"@, "percent"@, JsonView::double(Real::from_int(h as int))),
        ],
        None => Seq::empty(),
    }
}

/// The notification of the mode.
pub open spec fn mode_notices(t: JsonView) -> Seq<HostCallView> {
    match t.at("settings"@).at("hvacMode"@).as_str() {
        Some(mode) => seq![notice(1, "mode_changed"@, "mode"@, JsonView::Str(mode))],
        None => Seq::empty(),
    }
}

/// The thermostat's own sensor: the first one in its list whose type is "thermostat".
pub open spec fn built_in_sensor(t: JsonView) -> Option<JsonView> {
    match t.at("remoteSensors"@).as_array() {
        Some(sensors) => first_with(sensors, "type"@, "thermostat"@),
        None => None,
    }
}

/// The notification of the occupancy that the thermostat itself sees.
pub open spec fn occupancy_notices(t: JsonView) -> Seq<HostCallView> {
    match built_in_sensor(t) {
        Some(sensor) => match occupancy_of(sensor) {
            Some(occupied) => seq![
                notice(2, "detected_changed"@, "detected"@, JsonView::Bool(occupied)),
            ],
            None => Seq::empty(),
        },
        None => Seq::empty(),
    }
}

/// A poll reply: the thermostat, its runtime and its own sensor, fanned out to the bindings.
pub open spec fn poll_reply(inst: InstanceView, doc: JsonView) -> Outcome {
    match first_thermostat(doc) {
        Some(t) => (
            with_reported(inst, t),
            temperature_notices(t) + humidity_notices(t) + mode_notices(t) + occupancy_notices(t),
        ),
        None => (inst, Seq::empty()),
    }
}

/// What a thermostat does with a message from the host.
pub open spec fn event(
    inst: InstanceView,
    note: Seq<char>,
    args: Map<Seq<char>, JsonView>,
    clock: Clock,
) -> Outcome {
    let doc = at(args, "body"@);
    if note != "http_response"@ {
        (inst, Seq::empty())
    } else {
        match doc.at("access_token"@).as_str() {
            Some(access) => token_reply(inst, doc, access, clock),
            None => poll_reply(inst, doc),
        }
    }
}

/// Writes a document to the API.
pub fn post(inst: &Instance, text: &str, now: i64) -> (r: Option<HttpRequest>)
    ensures
        r.deep_view() == inst@.post(text@, now),
{
    auth(inst, HttpRequest::new("POST", API).json(text), now)
}

/// Reads what a selection picks.
pub fn poll(inst: &Instance, selection: &str, now: i64) -> (r: Option<HttpRequest>)
    ensures
        r.deep_view() == inst@.poll(selection@, now),
{
    let mut url = join(API, "?json=");
    url.append(selection);
    auth(inst, HttpRequest::new("GET", url.as_str()), now)
}

/// A request and what goes with it, or a warning where no token was ready for it.
fn send(request: Option<HttpRequest>) -> (r: Vec<HostCall>)
    ensures
        forall|inst: InstanceView|
            (inst, r.deep_view()) == #[trigger] sent_or_not_ready(
                inst,
                request.deep_view(),
                Seq::empty(),
            ),
{
    match request {
        Some(req) => {
            let calls = only(HostCall::Http(req));
            assert(seq![HostCallView::Http(req@)] + Seq::empty() =~= seq![
                HostCallView::Http(req@),
            ]);
            calls
        },
        None => only(HostCall::warn("ecobee: token not ready, try again shortly")),
    }
}

/// The setpoints after one of them is set.
pub fn hold_apart(heating: bool, c: &Binary64, heat: Binary64, cool: Binary64) -> (r: (
    Binary64,
    Binary64,
))
    ensures
        (r.0@, r.1@) == held_apart(heating, c@, heat@, cool@),
{
    if heating {
        let least = c.plus_two();
        if cool.less_than(&least) {
            (c.copy(), least)
        } else {
            (c.copy(), cool)
        }
    } else {
        let most = c.minus_two();
        if most.less_than(&heat) {
            (most, c.copy())
        } else {
            (heat, c.copy())
        }
    }
}

impl EcobeeThermostat {
    /// Which thermostat of the account this is.
    pub fn identifier(inst: &Instance) -> (r: Option<&str>)
        ensures
            r.deep_view() == inst@.identifier(),
    {
        inst.filled("Thermostat identifier")
    }

    /// Every write is a `setHold` with both setpoints stated absolutely. Ecobee requires both
    /// even when only one is changing, so the other is carried from last known state.
    pub fn hold(
        inst: &Instance,
        hold_type: &str,
        heat_c: &Binary64,
        cool_c: &Binary64,
        fan: Option<&str>,
        now: i64,
    ) -> (r: Option<HttpRequest>)
        ensures
            r.deep_view() == inst@.hold(hold_type@, heat_c@, cool_c@, fan.deep_view(), now),
    {
        match Self::identifier(inst) {
            Some(id) => {
                let text = hold_text(
                    id,
                    hold_type,
                    finite_c_to_f10(heat_c),
                    finite_c_to_f10(cool_c),
                    fan,
                );
                post(inst, text.as_str(), now)
            },
            None => None,
        }
    }

    /// The last known setpoints.
    pub fn setpoints(inst: &Instance) -> (r: (Binary64, Binary64))
        ensures
            (r.0@, r.1@) == inst@.setpoints(),
    {
        let heat = match inst.scratch.double_at("heat_c") {
            Some(heat) => heat,
            None => Binary64::from_i64(20),
        };
        let cool = match inst.scratch.double_at("cool_c") {
            Some(cool) => cool,
            None => Binary64::from_i64(24),
        };
        (heat, cool)
    }

    fn set_setpoint(inst: &mut Instance, heating: bool, args: &Object, now: i64) -> (r: Vec<
        HostCall,
    >)
        ensures
            (final(inst)@, r.deep_view()) == set_setpoint(old(inst)@, heating, args@, now),
    {
        let c = match args.double_at("celsius") {
            Some(c) => c,
            None => {
                return only(HostCall::warn("ecobee: no celsius value"));
            },
        };
        let (heat, cool) = Self::setpoints(inst);
        let (h, c2) = hold_apart(heating, &c, heat, cool);
        inst.scratch.insert("heat_c", Json::double(h.copy()));
        inst.scratch.insert("cool_c", Json::double(c2.copy()));
        match Self::hold(inst, "nextTransition", &h, &c2, None, now) {
            Some(req) => {
                let mut a = Object::new();
                a.insert(
                    "which",
                    Json::text(
                        if heating {
                            "heat"
                        } else {
                            "cool"
                        },
                    ),
                );
                a.insert("celsius", Json::double(c));
                both(HostCall::Http(req), HostCall::notify(1, "setpoint_changed", a))
            },
            None => only(
                HostCall::warn("ecobee: set the Thermostat identifier on this device first"),
            ),
        }
    }

    fn set_mode(inst: &Instance, args: &Object, now: i64) -> (r: Vec<HostCall>)
        ensures
            (inst@, r.deep_view()) == set_mode(inst@, args@, now),
    {
        let mode = match args.str_at("mode") {
            Some(mode) => mode,
            None => {
                return only(HostCall::warn("ecobee: no mode"));
            },
        };
        let id = match Self::identifier(inst) {
            Some(id) => id,
            None => {
                return only(HostCall::warn("ecobee: no Thermostat identifier"));
            },
        };
        let text = mode_text(id, mode);
        match post(inst, text.as_str(), now) {
            Some(req) => {
                let told = HostCall::notify_one(1, "mode_changed", "mode", Json::text(mode));
                let calls = both(HostCall::Http(req), told);
                assert(seq![HostCallView::Http(req@)] + seq![told@] =~= seq![
                    HostCallView::Http(req@),
                    told@,
                ]);
                calls
            },
            None => only(HostCall::warn("ecobee: token not ready, try again shortly")),
        }
    }

    fn set_fan_mode(inst: &Instance, args: &Object, now: i64) -> (r: Vec<HostCall>)
        ensures
            (inst@, r.deep_view()) == set_fan_mode(inst@, args@, now),
    {
        let mode = match args.str_at("mode") {
            Some(mode) => mode,
            None => {
                return only(HostCall::warn("ecobee: no fan mode"));
            },
        };
        if Self::identifier(inst).is_none() {
            return only(HostCall::warn("ecobee: no Thermostat identifier"));
        }
        let (heat, cool) = Self::setpoints(inst);
        send(Self::hold(inst, "nextTransition", &heat, &cool, Some(mode), now))
    }

    fn set_hold(inst: &Instance, args: &Object, now: i64) -> (r: Vec<HostCall>)
        ensures
            (inst@, r.deep_view()) == set_hold(inst@, args@, now),
    {
        let on: bool = match args.bool_at("hold") {
            Some(on) => on,
            None => false,
        };
        let id = match Self::identifier(inst) {
            Some(id) => id,
            None => {
                return only(HostCall::warn("ecobee: no Thermostat identifier"));
            },
        };
        if on {
            let (heat, cool) = Self::setpoints(inst);
            send(Self::hold(inst, "indefinite", &heat, &cool, None, now))
        } else {
            let text = resume_text(id);
            send(post(inst, text.as_str(), now))
        }
    }

    fn is_write(cmd: &str) -> (r: bool)
        ensures
            r == is_write(cmd@),
    {
        same(cmd, "set_heat_setpoint") || same(cmd, "set_cool_setpoint") || same(cmd, "set_mode")
            || same(cmd, "set_fan_mode") || same(cmd, "set_hold")
    }

    /// Asks for a token, and puts aside what has to wait for it.
    fn refresh_first(inst: &mut Instance, waiting: Object) -> (r: Vec<HostCall>)
        ensures
            (final(inst)@, r.deep_view()) == refresh_first(old(inst)@, waiting@),
    {
        match refresh_request(inst) {
            Some(refresh) => {
                inst.scratch.insert("pending_action", Json::object(waiting));
                only(refresh)
            },
            None => only(
                HostCall::warn("ecobee: set the API key and Refresh token on this device first"),
            ),
        }
    }

    /// Runs a command, the clock being read as it goes.
    pub fn on_command(&self, inst: &mut Instance, proxy: u32, cmd: &str, args: &Object) -> (r: Vec<
        HostCall,
    >)
        ensures
            exists|clock: Clock|
                (final(inst)@, r.deep_view()) == #[trigger] command(
                    old(inst)@,
                    cmd@,
                    args@,
                    clock,
                ),
    {
        let clock = Clock::read();
        self.on_command_at(inst, proxy, cmd, args, &clock)
    }

    /// Runs a command at given readings of the clock.
    ///
    /// The OAuth path needs a live access token before anything can go out. What was asked for
    /// is put aside and taken up again once the refresh response arrives.
    pub fn on_command_at(
        &self,
        inst: &mut Instance,
        proxy: u32,
        cmd: &str,
        args: &Object,
        clock: &Clock,
    ) -> (r: Vec<HostCall>)
        ensures
            (final(inst)@, r.deep_view()) == command(old(inst)@, cmd@, args@, *clock),
    {
        if Self::is_write(cmd) && needs_refresh(inst, clock.checked) {
            let mut waiting = Object::new();
            waiting.insert("cmd", Json::text(cmd));
            waiting.insert("args", Json::object(args.copy()));
            return Self::refresh_first(inst, waiting);
        }
        if same(cmd, "set_heat_setpoint") {
            Self::set_setpoint(inst, true, args, clock.sent)
        } else if same(cmd, "set_cool_setpoint") {
            Self::set_setpoint(inst, false, args, clock.sent)
        } else if same(cmd, "set_mode") {
            Self::set_mode(inst, args, clock.sent)
        } else if same(cmd, "set_fan_mode") {
            Self::set_fan_mode(inst, args, clock.sent)
        } else if same(cmd, "set_hold") {
            Self::set_hold(inst, args, clock.sent)
        } else {
            let mut message = join("ecobee: unhandled `", cmd);
            message.append("`");
            only(HostCall::warn(message.as_str()))
        }
    }

    /// Polls, the clock being read as it goes.
    pub fn on_bind(&self, inst: &mut Instance) -> (r: Vec<HostCall>)
        ensures
            exists|clock: Clock|
                (final(inst)@, r.deep_view()) == #[trigger] bind(old(inst)@, clock),
    {
        let clock = Clock::read();
        self.on_bind_at(inst, &clock)
    }

    /// Polls at given readings of the clock.
    pub fn on_bind_at(&self, inst: &mut Instance, clock: &Clock) -> (r: Vec<HostCall>)
        ensures
            (final(inst)@, r.deep_view()) == bind(old(inst)@, *clock),
    {
        if Self::identifier(inst).is_none() {
            return only(
                HostCall::warn(
                    "ecobee: set the Thermostat identifier and Refresh token on this device",
                ),
            );
        }
        if needs_refresh(inst, clock.checked) {
            let mut waiting = Object::new();
            waiting.insert("cmd", Json::text("__bind__"));
            return Self::refresh_first(inst, waiting);
        }
        match Self::identifier(inst) {
            Some(id) => {
                let selection = poll_text(id);
                send(poll(inst, selection.as_str(), clock.sent))
            },
            None => nothing(),
        }
    }

    /// Handles a message, the clock being read as it goes.
    pub fn on_event(&self, inst: &mut Instance, control: u32, note: &str, args: &Object) -> (r: Vec<
        HostCall,
    >)
        ensures
            exists|clock: Clock|
                (final(inst)@, r.deep_view()) == #[trigger] event(
                    old(inst)@,
                    note@,
                    args@,
                    clock,
                ),
    {
        let clock = Clock::read();
        self.on_event_at(inst, control, note, args, &clock)
    }

    /// Handles a message at given readings of the clock: a token reply or a poll reply.
    ///
    /// Ecobee returns the thermostat, its runtime, and its remote sensors in one document, which
    /// is fanned out to the right bindings.
    pub fn on_event_at(
        &self,
        inst: &mut Instance,
        control: u32,
        note: &str,
        args: &Object,
        clock: &Clock,
    ) -> (r: Vec<HostCall>)
        ensures
            (final(inst)@, r.deep_view()) == event(old(inst)@, note@, args@, *clock),
    {
        if !same(note, "http_response") {
            return nothing();
        }
        match args.get("body") {
            Some(doc) => match doc.str_at("access_token") {
                Some(access) => self.on_token(inst, doc, access, clock),
                None => Self::on_poll(inst, doc),
            },
            None => nothing(),
        }
    }

    /// Banks a token reply, then runs whatever was waiting for it.
    fn on_token(&self, inst: &mut Instance, doc: &Json, access: &str, clock: &Clock) -> (r: Vec<
        HostCall,
    >)
        ensures
            (final(inst)@, r.deep_view()) == token_reply(old(inst)@, doc@, access@, *clock),
    {
        let ttl: i64 = match doc.i64_at("expires_in") {
            Some(seconds) => seconds,
            None => 3600,
        };
        inst.scratch.insert("access_token", Json::text(access));
        inst.scratch.insert("access_expires_at", Json::integer(clock.received.wrapping_add(ttl)));
        match doc.str_at("refresh_token") {
            Some(refresh) => inst.scratch.insert("refresh_token", Json::text(refresh)),
            None => {},
        }
        let ghost paid = inst@;
        assert(paid == banked(old(inst)@, doc@, access@, clock.received));
        match inst.scratch.remove("pending_action") {
            Some(pending) => {
                assert(inst@ == paid.forgotten("pending_action"@));
                self.take_up(inst, &pending, clock)
            },
            None => {
                assert(inst@ =~= paid);
                nothing()
            },
        }
    }

    /// Takes up what was put aside.
    fn take_up(&self, inst: &mut Instance, pending: &Json, clock: &Clock) -> (r: Vec<HostCall>)
        ensures
            (final(inst)@, r.deep_view()) == resume(old(inst)@, pending@, *clock),
    {
        let cmd: String = match pending.str_at("cmd") {
            Some(cmd) => cmd.to_owned(),
            None => String::new(),
        };
        if same(cmd.as_str(), "__bind__") {
            return self.on_bind_at(inst, clock);
        }
        let args: Object = match pending.get("args") {
            Some(v) => match v.as_object() {
                Some(args) => args.copy(),
                None => Object::new(),
            },
            None => Object::new(),
        };
        self.on_command_at(inst, 1, cmd.as_str(), &args, clock)
    }

    /// Fans a poll reply out.
    fn on_poll(inst: &mut Instance, doc: &Json) -> (r: Vec<HostCall>)
        ensures
            (final(inst)@, r.deep_view()) == poll_reply(old(inst)@, doc@),
    {
        let t = match find_thermostat(doc) {
            Some(t) => t,
            None => {
                return nothing();
            },
        };
        let mut out: Vec<HostCall> = Vec::new();
        assert(out.deep_view() =~= Seq::empty());
        match t.i64_under("runtime", "actualTemperature") {
            Some(temp) => {
                let c = f10_to_c(temp);
                let first = HostCall::notify_one(
                    1,
                    "temperature_changed",
                    "celsius",
                    Json::double(c.copy()),
                );
                let second = HostCall::notify_one(3, "value_changed", "value", Json::double(c));
                out.push(first);
                out.push(second);
                assert(out.deep_view() =~= seq![first@, second@]);
            },
            None => {},
        }
        let ghost sofar = out.deep_view();
        assert(sofar == temperature_notices(t@));
        match t.i64_under("runtime", "actualHumidity") {
            Some(h) => {
                let call = HostCall::notify_one(
                    1,
                    "humidity_changed",
                    "percent",
                    Json::double(Binary64::from_i64(h)),
                );
                out.push(call);
                assert(out.deep_view() =~= sofar + seq![call@]);
            },
            None => {
                assert(out.deep_view() =~= sofar + Seq::empty());
            },
        }
        let ghost sofar = out.deep_view();
        match t.i64_under("runtime", "desiredHeat") {
            Some(heat) => inst.scratch.insert("heat_c", Json::double(f10_to_c(heat))),
            None => {},
        }
        match t.i64_under("runtime", "desiredCool") {
            Some(cool) => inst.scratch.insert("cool_c", Json::double(f10_to_c(cool))),
            None => {},
        }
        match t.str_under("settings", "hvacMode") {
            Some(mode) => {
                let call = HostCall::notify_one(1, "mode_changed", "mode", Json::text(mode));
                out.push(call);
                assert(out.deep_view() =~= sofar + seq![call@]);
            },
            None => {
                assert(out.deep_view() =~= sofar + Seq::empty());
            },
        }
        let ghost sofar = out.deep_view();
        match Self::own_occupancy(t) {
            Some(occupied) => {
                let call = HostCall::notify_one(
                    2,
                    "detected_changed",
                    "detected",
                    Json::boolean(occupied),
                );
                out.push(call);
                assert(out.deep_view() =~= sofar + seq![call@]);
            },
            None => {
                assert(out.deep_view() =~= sofar + Seq::empty());
            },
        }
        out
    }

    /// The occupancy that the thermostat itself sees. Its own sensor lives in the remoteSensors
    /// list too, as the one whose type is "thermostat".
    fn own_occupancy(t: &Json) -> (r: Option<bool>)
        ensures
            r == match built_in_sensor(t@) {
                Some(sensor) => occupancy_of(sensor),
                None => None,
            },
    {
        match t.array_at("remoteSensors") {
            Some(sensors) => match find_with(sensors, "type", "thermostat") {
                Some(sensor) => read_occupancy(sensor),
                None => None,
            },
            None => None,
        }
    }
}

} // verus!
