//! What each command asks of the host, read out of the requests and the documents it sends.

use vstd::prelude::*;

use crate::accuracy::lemma_from_int_exact;
use crate::binary64::{one, Real};
use crate::clock::Clock;
use crate::deadband::setpoints_go_out_apart;
use crate::documents::{hold_body, mode_body, poll_selection, registered_selection, resume_body};
use crate::driver::{device_command, device_event};
use crate::encode::compact_text;
use crate::host::{notice, HostCallView, HttpRequestView, InstanceView};
use crate::json::{at, JsonView, NumberView};
use crate::laws::{lemma_notes_differ, setpoints_are_remembered};
use crate::reading_laws::overflow_wraps;
use crate::sensor::sensor_event;
use crate::thermostat::{bind, command, event, held_apart, is_write};
use crate::units::{f10_of, whole_fahrenheit};

verus! {

/// The names of the members of an object.
pub open spec fn names(doc: JsonView) -> Set<Seq<char>> {
    doc->Object_0.dom()
}

/// A document that is about one thermostat: it has the member `rest` beside its selection.
pub open spec fn is_about(doc: JsonView, id: Seq<char>, rest: Seq<char>) -> bool {
    &&& doc is Object
    &&& names(doc) == set!["selection"@, rest]
    &&& doc.at("selection"@) is Object
    &&& names(doc.at("selection"@)) == set!["selectionType"@, "selectionMatch"@]
    &&& doc.at("selection"@).at("selectionType"@) == JsonView::Str("thermostats"@)
    &&& doc.at("selection"@).at("selectionMatch"@) == JsonView::Str(id)
}

/// The one function that a document runs.
pub open spec fn function(doc: JsonView) -> JsonView {
    doc.at("functions"@)->Array_0[0]
}

/// A document that runs one function on one thermostat.
pub open spec fn runs_one(doc: JsonView, id: Seq<char>, kind: Seq<char>) -> bool {
    &&& is_about(doc, id, "functions"@)
    &&& doc.at("functions"@) is Array
    &&& doc.at("functions"@)->Array_0.len() == 1
    &&& function(doc) is Object
    &&& names(function(doc)) == set!["type"@, "params"@]
    &&& function(doc).at("type"@) == JsonView::Str(kind)
    &&& function(doc).at("params"@) is Object
}

/// What a document states under a name for the function that it runs.
pub open spec fn stated(doc: JsonView, name: Seq<char>) -> JsonView {
    function(doc).at("params"@).at(name)
}

/// A document that holds one thermostat at two temperatures, in tenths of a degree Fahrenheit.
pub open spec fn holds_at(
    doc: JsonView,
    id: Seq<char>,
    hold_type: Seq<char>,
    heat: int,
    cool: int,
    fan: Option<Seq<char>>,
) -> bool {
    &&& runs_one(doc, id, "setHold"@)
    &&& names(function(doc).at("params"@)) == (match fan {
        Some(_) => set!["holdType"@, "heatHoldTemp"@, "coolHoldTemp"@, "fan"@],
        None => set!["holdType"@, "heatHoldTemp"@, "coolHoldTemp"@],
    })
    &&& stated(doc, "holdType"@) == JsonView::Str(hold_type)
    &&& stated(doc, "heatHoldTemp"@).as_i64() == Some(heat as i64)
    &&& stated(doc, "coolHoldTemp"@).as_i64() == Some(cool as i64)
    &&& i64::MIN <= heat <= i64::MAX
    &&& i64::MIN <= cool <= i64::MAX
    &&& fan matches Some(mode) ==> stated(doc, "fan"@) == JsonView::Str(mode)
}

/// A document that sets the mode of one thermostat.
pub open spec fn sets_mode(doc: JsonView, id: Seq<char>, mode: Seq<char>) -> bool {
    &&& is_about(doc, id, "thermostat"@)
    &&& doc.at("thermostat"@) is Object
    &&& names(doc.at("thermostat"@)) == set!["settings"@]
    &&& doc.at("thermostat"@).at("settings"@) is Object
    &&& names(doc.at("thermostat"@).at("settings"@)) == set!["hvacMode"@]
    &&& doc.at("thermostat"@).at("settings"@).at("hvacMode"@) == JsonView::Str(mode)
}

/// A document that ends a hold of one thermostat, and no other.
pub open spec fn resumes(doc: JsonView, id: Seq<char>) -> bool {
    &&& runs_one(doc, id, "resumeProgram"@)
    &&& names(function(doc).at("params"@)) == set!["resumeAll"@]
    &&& stated(doc, "resumeAll"@) == JsonView::Bool(false)
}

/// A selection of everything that a poll of one thermostat wants to know.
pub open spec fn selects_one(doc: JsonView, id: Seq<char>) -> bool {
    &&& doc is Object
    &&& names(doc) == set!["selection"@]
    &&& doc.at("selection"@) is Object
    &&& names(doc.at("selection"@)) == set![
        "selectionType"@,
        "selectionMatch"@,
        "includeRuntime"@,
        "includeSettings"@,
        "includeSensors"@,
    ]
    &&& doc.at("selection"@).at("selectionType"@) == JsonView::Str("thermostats"@)
    &&& doc.at("selection"@).at("selectionMatch"@) == JsonView::Str(id)
    &&& doc.at("selection"@).at("includeRuntime"@) == JsonView::Bool(true)
    &&& doc.at("selection"@).at("includeSettings"@) == JsonView::Bool(true)
    &&& doc.at("selection"@).at("includeSensors"@) == JsonView::Bool(true)
}

/// A selection of every thermostat on the account, with its sensors.
pub open spec fn selects_all(doc: JsonView) -> bool {
    &&& doc is Object
    &&& names(doc) == set!["selection"@]
    &&& doc.at("selection"@) is Object
    &&& names(doc.at("selection"@)) == set!["selectionType"@, "includeSensors"@]
    &&& doc.at("selection"@).at("selectionType"@) == JsonView::Str("registered"@)
    &&& doc.at("selection"@).at("includeSensors"@) == JsonView::Bool(true)
}

/// Each name in a document is its own.
proof fn lemma_document_names()
    ensures
        "selection"@ != "functions"@,
        "selection"@ != "thermostat"@,
        "type"@ != "params"@,
        "selectionType"@ != "selectionMatch"@,
        "selectionType"@ != "includeRuntime"@,
        "selectionType"@ != "includeSettings"@,
        "selectionType"@ != "includeSensors"@,
        "selectionMatch"@ != "includeRuntime"@,
        "selectionMatch"@ != "includeSettings"@,
        "selectionMatch"@ != "includeSensors"@,
        "includeRuntime"@ != "includeSettings"@,
        "includeRuntime"@ != "includeSensors"@,
        "includeSettings"@ != "includeSensors"@,
        "holdType"@ != "heatHoldTemp"@,
        "holdType"@ != "coolHoldTemp"@,
        "holdType"@ != "fan"@,
        "heatHoldTemp"@ != "coolHoldTemp"@,
        "heatHoldTemp"@ != "fan"@,
        "coolHoldTemp"@ != "fan"@,
{
    reveal_strlit("selection");
    reveal_strlit("functions");
    reveal_strlit("thermostat");
    reveal_strlit("type");
    reveal_strlit("params");
    reveal_strlit("selectionType");
    reveal_strlit("selectionMatch");
    reveal_strlit("includeRuntime");
    reveal_strlit("includeSettings");
    reveal_strlit("includeSensors");
    reveal_strlit("holdType");
    reveal_strlit("heatHoldTemp");
    reveal_strlit("coolHoldTemp");
    reveal_strlit("fan");
    assert("selection"@[0] != "functions"@[0]);
    assert("selection"@.len() == 9);
    assert("thermostat"@.len() == 10);
    assert("type"@.len() == 4);
    assert("params"@.len() == 6);
    assert("selectionType"@.len() == 13);
    assert("selectionMatch"@.len() == 14);
    assert("includeRuntime"@.len() == 14);
    assert("includeSettings"@.len() == 15);
    assert("includeSensors"@.len() == 14);
    assert("selectionMatch"@[0] != "includeRuntime"@[0]);
    assert("selectionMatch"@[0] != "includeSensors"@[0]);
    assert("includeRuntime"@[7] != "includeSensors"@[7]);
    assert("holdType"@.len() == 8);
    assert("heatHoldTemp"@.len() == 12);
    assert("coolHoldTemp"@.len() == 12);
    assert("fan"@.len() == 3);
    assert("heatHoldTemp"@[0] != "coolHoldTemp"@[0]);
}

/// A hold states the temperatures, and the fan mode, that it is given.
pub proof fn hold_states_what_it_is_given(
    id: Seq<char>,
    hold_type: Seq<char>,
    heat: i64,
    cool: i64,
    fan: Option<Seq<char>>,
)
    ensures
        holds_at(
            hold_body(id, hold_type, heat, cool, fan),
            id,
            hold_type,
            heat as int,
            cool as int,
            fan,
        ),
{
    let doc = hold_body(id, hold_type, heat, cool, fan);
    lemma_document_names();
    assert(names(doc) =~= set!["selection"@, "functions"@]);
    assert(names(doc.at("selection"@)) =~= set!["selectionType"@, "selectionMatch"@]);
    assert(names(function(doc)) =~= set!["type"@, "params"@]);
    match fan {
        Some(_) => {
            assert(names(function(doc).at("params"@)) =~= set![
                "holdType"@,
                "heatHoldTemp"@,
                "coolHoldTemp"@,
                "fan"@,
            ]);
        },
        None => {
            assert(names(function(doc).at("params"@)) =~= set![
                "holdType"@,
                "heatHoldTemp"@,
                "coolHoldTemp"@,
            ]);
        },
    }
}

/// The other documents say what they are given, too.
pub proof fn documents_say_what_they_are_given(id: Seq<char>, mode: Seq<char>)
    ensures
        sets_mode(mode_body(id, mode), id, mode),
        resumes(resume_body(id), id),
        selects_one(poll_selection(id), id),
        selects_all(registered_selection()),
{
    lemma_document_names();
    let m = mode_body(id, mode);
    assert(names(m) =~= set!["selection"@, "thermostat"@]);
    assert(names(m.at("selection"@)) =~= set!["selectionType"@, "selectionMatch"@]);
    assert(names(m.at("thermostat"@)) =~= set!["settings"@]);
    assert(names(m.at("thermostat"@).at("settings"@)) =~= set!["hvacMode"@]);
    let r = resume_body(id);
    assert(names(r) =~= set!["selection"@, "functions"@]);
    assert(names(r.at("selection"@)) =~= set!["selectionType"@, "selectionMatch"@]);
    assert(names(function(r)) =~= set!["type"@, "params"@]);
    assert(names(function(r).at("params"@)) =~= set!["resumeAll"@]);
    let p = poll_selection(id);
    assert(names(p) =~= set!["selection"@]);
    assert(names(p.at("selection"@)) =~= set![
        "selectionType"@,
        "selectionMatch"@,
        "includeRuntime"@,
        "includeSettings"@,
        "includeSensors"@,
    ]);
    let a = registered_selection();
    assert(names(a) =~= set!["selection"@]);
    assert(names(a.at("selection"@)) =~= set!["selectionType"@, "includeSensors"@]);
}

/// A document sent to the API with a token.
pub open spec fn written(doc: JsonView, token: Seq<char>) -> HostCallView {
    HostCallView::Http(
        HttpRequestView {
            method: "POST"@,
            url: "https://api.ecobee.com/1/thermostat"@,
            json: Some(compact_text(doc)),
            headers: seq![("authorization"@, "Bearer "@ + token)],
        },
    )
}

/// A selection asked of the API with a token.
pub open spec fn read(doc: JsonView, token: Seq<char>) -> HostCallView {
    HostCallView::Http(
        HttpRequestView {
            method: "GET"@,
            url: "https://api.ecobee.com/1/thermostat"@ + "?json="@ + compact_text(doc),
            json: None,
            headers: seq![("authorization"@, "Bearer "@ + token)],
        },
    )
}

/// Nothing but a warning.
pub open spec fn only_warns(
    inst: InstanceView,
    outcome: (InstanceView, Seq<HostCallView>),
    message: Seq<char>,
) -> bool {
    outcome.0 == inst && outcome.1 == seq![HostCallView::Warn(message)]
}

/// The setpoints are those noted last, and 20 and 24 degrees where none are.
pub proof fn setpoints_are_those_noted(inst: InstanceView)
    ensures
        match at(inst.scratch, "heat_c"@).as_double() {
            Some(x) => inst.setpoints().0 == x,
            None => inst.setpoints().0.units() == 20 * one(),
        },
        match at(inst.scratch, "cool_c"@).as_double() {
            Some(x) => inst.setpoints().1 == x,
            None => inst.setpoints().1.units() == 24 * one(),
        },
{
    lemma_from_int_exact(20);
    lemma_from_int_exact(24);
}

/// The setpoint that is not set is kept where it is at least two degrees away, and otherwise put
/// exactly that far away.
pub proof fn other_setpoint_moves_only_out_of_the_way(
    heating: bool,
    c: Real,
    heat: Real,
    cool: Real,
)
    ensures
        ({
            let (h, k) = held_apart(heating, c, heat, cool);
            &&& heating ==> h == c && k == (if cool.units() >= c.plus(2).units() {
                cool
            } else {
                c.plus(2)
            })
            &&& !heating ==> k == c && h == (if heat.units() <= c.plus(-2).units() {
                heat
            } else {
                c.plus(-2)
            })
        }),
{
}

proof fn lemma_command_names()
    ensures
        "set_heat_setpoint"@ != "set_cool_setpoint"@,
        "set_heat_setpoint"@ != "set_mode"@,
        "set_heat_setpoint"@ != "set_fan_mode"@,
        "set_heat_setpoint"@ != "set_hold"@,
        "set_cool_setpoint"@ != "set_mode"@,
        "set_cool_setpoint"@ != "set_fan_mode"@,
        "set_cool_setpoint"@ != "set_hold"@,
        "set_mode"@ != "set_fan_mode"@,
        "set_mode"@ != "set_hold"@,
        "set_fan_mode"@ != "set_hold"@,
        "heat_c"@ != "cool_c"@,
        "which"@ != "celsius"@,
{
    reveal_strlit("set_heat_setpoint");
    reveal_strlit("set_cool_setpoint");
    reveal_strlit("set_mode");
    reveal_strlit("set_fan_mode");
    reveal_strlit("set_hold");
    reveal_strlit("heat_c");
    reveal_strlit("cool_c");
    reveal_strlit("which");
    reveal_strlit("celsius");
    assert("set_heat_setpoint"@.len() == 17);
    assert("set_heat_setpoint"@[4] != "set_cool_setpoint"@[4]);
    assert("set_cool_setpoint"@.len() == 17);
    assert("set_mode"@.len() == 8);
    assert("set_fan_mode"@.len() == 12);
    assert("set_hold"@.len() == 8);
    assert("set_mode"@[4] != "set_hold"@[4]);
    assert("heat_c"@[0] != "cool_c"@[0]);
    assert("which"@.len() == 5);
    assert("celsius"@.len() == 7);
}

/// Setting a setpoint, with a token on hand or none needed: the hold that goes out states the
/// temperature asked for and the other one as it is then known, the host is told, and both are
/// noted. Nothing else that was noted changes.
pub proof fn setpoint_command_holds_both(
    inst: InstanceView,
    heating: bool,
    args: Map<Seq<char>, JsonView>,
    clock: Clock,
) -> (doc: JsonView)
    requires
        !inst.needs_refresh(clock.checked),
    ensures
        ({
            let cmd = if heating { "set_heat_setpoint"@ } else { "set_cool_setpoint"@ };
            let outcome = command(inst, cmd, args, clock);
            let (h, k) = outcome.0.setpoints();
            match at(args, "celsius"@).as_double() {
                None => only_warns(inst, outcome, "ecobee: no celsius value"@),
                Some(c) => {
                    &&& outcome.0.properties == inst.properties
                    &&& outcome.0.scratch == inst.scratch.insert(
                        "heat_c"@,
                        JsonView::Number(NumberView::Float(h)),
                    ).insert("cool_c"@, JsonView::Number(NumberView::Float(k)))
                    &&& heating ==> h == c && k == (if inst.setpoints().1.units() >= c.plus(
                        2,
                    ).units() {
                        inst.setpoints().1
                    } else {
                        c.plus(2)
                    })
                    &&& !heating ==> k == c && h == (if inst.setpoints().0.units() <= c.plus(
                        -2,
                    ).units() {
                        inst.setpoints().0
                    } else {
                        c.plus(-2)
                    })
                    &&& match (inst.identifier(), inst.bearer(clock.sent)) {
                        (Some(id), Some(token)) => {
                            &&& holds_at(doc, id, "nextTransition"@, f10_of(h), f10_of(k), None)
                            &&& outcome.1 == seq![
                                written(doc, token),
                                HostCallView::Notify {
                                    binding: 1,
                                    event: "setpoint_changed"@,
                                    args: map![
                                        "which"@ => JsonView::Str(
                                            if heating { "heat"@ } else { "cool"@ },
                                        ),
                                        "celsius"@ => JsonView::Number(NumberView::Float(c)),
                                    ],
                                },
                            ]
                        },
                        _ => outcome.1 == seq![
                            HostCallView::Warn(
                                "ecobee: set the Thermostat identifier on this device first"@,
                            ),
                        ],
                    }
                },
            }
        }),
{
    lemma_command_names();
    lemma_notes_differ();
    match (at(args, "celsius"@).as_double(), inst.identifier()) {
        (Some(c), Some(id)) => {
            let (heat, cool) = inst.setpoints();
            let (h, k) = held_apart(heating, c, heat, cool);
            setpoints_are_remembered(inst, h, k, clock.sent);
            overflow_wraps(10 * whole_fahrenheit(h));
            overflow_wraps(10 * whole_fahrenheit(k));
            hold_states_what_it_is_given(
                id,
                "nextTransition"@,
                f10_of(h) as i64,
                f10_of(k) as i64,
                None,
            );
            lemma_one_header(clock.sent, inst.with_setpoints(h, k));
            hold_body(id, "nextTransition"@, f10_of(h) as i64, f10_of(k) as i64, None)
        },
        _ => JsonView::Null,
    }
}

/// The first header of a request is the only one.
proof fn lemma_one_header(now: i64, inst: InstanceView)
    ensures
        forall|r: HttpRequestView|
            inst.bearer(now) is Some && r.headers.len() == 0 ==> (#[trigger] inst.authorized(
                r,
                now,
            ))->0.headers == seq![("authorization"@, "Bearer "@ + inst.bearer(now)->0)],
{
    assert forall|r: HttpRequestView|
        inst.bearer(now) is Some && r.headers.len() == 0 implies (#[trigger] inst.authorized(
        r,
        now,
    ))->0.headers == seq![("authorization"@, "Bearer "@ + inst.bearer(now)->0)] by {
        assert(inst.authorized(r, now)->0.headers =~= seq![
            ("authorization"@, "Bearer "@ + inst.bearer(now)->0),
        ]);
    }
}

/// The temperatures that such a hold states, read out of the document that is sent: the one asked
/// for, and another that is at least thirty tenths of a degree away, cooling above heating.
pub proof fn stated_temperatures_are_apart(
    inst: InstanceView,
    heating: bool,
    args: Map<Seq<char>, JsonView>,
    clock: Clock,
    c: Real,
    id: Seq<char>,
    token: Seq<char>,
) -> (doc: JsonView)
    requires
        at(args, "celsius"@).as_double() == Some(c),
        inst.identifier() == Some(id),
        !inst.needs_refresh(clock.checked),
        inst.bearer(clock.sent) == Some(token),
        c.is_double(),
        9 * c.magnitude() + 200 * one() <= 0xa0_0000_0000_0000 * one(),
        heating ==> 10 * whole_fahrenheit(inst.setpoints().1) <= i64::MAX,
        !heating ==> 10 * whole_fahrenheit(inst.setpoints().0) >= i64::MIN,
    ensures
        ({
            let cmd = if heating { "set_heat_setpoint"@ } else { "set_cool_setpoint"@ };
            let low = stated(doc, "heatHoldTemp"@).as_i64();
            let high = stated(doc, "coolHoldTemp"@).as_i64();
            &&& command(inst, cmd, args, clock).1[0] == written(doc, token)
            &&& low is Some
            &&& high is Some
            &&& heating ==> low->0 == f10_of(c)
            &&& !heating ==> high->0 == f10_of(c)
            &&& high->0 >= low->0 + 30
        }),
{
    let (heat, cool) = inst.setpoints();
    setpoints_go_out_apart(heating, c, heat, cool);
    setpoint_command_holds_both(inst, heating, args, clock)
}

/// Setting the mode sends it and tells the host, with nothing noted.
pub proof fn mode_command_sends_the_mode(
    inst: InstanceView,
    args: Map<Seq<char>, JsonView>,
    clock: Clock,
) -> (doc: JsonView)
    requires
        !inst.needs_refresh(clock.checked),
    ensures
        ({
            let outcome = command(inst, "set_mode"@, args, clock);
            &&& outcome.0 == inst
            &&& match at(args, "mode"@) {
                JsonView::Str(mode) => match (inst.identifier(), inst.bearer(clock.sent)) {
                    (None, _) => only_warns(inst, outcome, "ecobee: no Thermostat identifier"@),
                    (_, None) => only_warns(
                        inst,
                        outcome,
                        "ecobee: token not ready, try again shortly"@,
                    ),
                    (Some(id), Some(token)) => {
                        &&& sets_mode(doc, id, mode)
                        &&& outcome.1 == seq![
                            written(doc, token),
                            HostCallView::Notify {
                                binding: 1,
                                event: "mode_changed"@,
                                args: map!["mode"@ => JsonView::Str(mode)],
                            },
                        ]
                    },
                },
                _ => only_warns(inst, outcome, "ecobee: no mode"@),
            }
        }),
{
    lemma_command_names();
    lemma_one_header(clock.sent, inst);
    let id = inst.identifier()->0;
    let mode = at(args, "mode"@)->Str_0;
    documents_say_what_they_are_given(id, mode);
    let doc = mode_body(id, mode);
    let outcome = command(inst, "set_mode"@, args, clock);
    if at(args, "mode"@) is Str && inst.identifier() is Some && inst.bearer(clock.sent) is Some {
        assert(outcome.1 =~= seq![
            written(doc, inst.bearer(clock.sent)->0),
            HostCallView::Notify {
                binding: 1,
                event: "mode_changed"@,
                args: map!["mode"@ => JsonView::Str(mode)],
            },
        ]);
    }
    doc
}

/// Setting the fan mode sends a hold of the setpoints that are known, with nothing noted.
pub proof fn fan_command_holds_the_known_setpoints(
    inst: InstanceView,
    args: Map<Seq<char>, JsonView>,
    clock: Clock,
) -> (doc: JsonView)
    requires
        !inst.needs_refresh(clock.checked),
    ensures
        ({
            let outcome = command(inst, "set_fan_mode"@, args, clock);
            let (heat, cool) = inst.setpoints();
            &&& outcome.0 == inst
            &&& match at(args, "mode"@) {
                JsonView::Str(mode) => match (inst.identifier(), inst.bearer(clock.sent)) {
                    (None, _) => only_warns(inst, outcome, "ecobee: no Thermostat identifier"@),
                    (_, None) => only_warns(
                        inst,
                        outcome,
                        "ecobee: token not ready, try again shortly"@,
                    ),
                    (Some(id), Some(token)) => {
                        &&& holds_at(
                            doc,
                            id,
                            "nextTransition"@,
                            f10_of(heat),
                            f10_of(cool),
                            Some(mode),
                        )
                        &&& outcome.1 == seq![written(doc, token)]
                    },
                },
                _ => only_warns(inst, outcome, "ecobee: no fan mode"@),
            }
        }),
{
    lemma_command_names();
    lemma_one_header(clock.sent, inst);
    let (heat, cool) = inst.setpoints();
    let id = inst.identifier()->0;
    let mode = at(args, "mode"@)->Str_0;
    overflow_wraps(10 * whole_fahrenheit(heat));
    overflow_wraps(10 * whole_fahrenheit(cool));
    let (low, high) = (f10_of(heat) as i64, f10_of(cool) as i64);
    hold_states_what_it_is_given(id, "nextTransition"@, low, high, Some(mode));
    let doc = hold_body(id, "nextTransition"@, low, high, Some(mode));
    let outcome = command(inst, "set_fan_mode"@, args, clock);
    if at(args, "mode"@) is Str && inst.identifier() is Some && inst.bearer(clock.sent) is Some {
        assert(outcome.1 =~= seq![written(doc, inst.bearer(clock.sent)->0)]);
    }
    doc
}

/// Holding sends a hold of the setpoints that are known, for good, where `hold` is true, and the
/// end of the hold in every other case. Nothing is noted.
pub proof fn hold_command_holds_or_resumes(
    inst: InstanceView,
    args: Map<Seq<char>, JsonView>,
    clock: Clock,
) -> (doc: JsonView)
    requires
        !inst.needs_refresh(clock.checked),
    ensures
        ({
            let outcome = command(inst, "set_hold"@, args, clock);
            let (heat, cool) = inst.setpoints();
            &&& outcome.0 == inst
            &&& match (inst.identifier(), inst.bearer(clock.sent)) {
                (None, _) => only_warns(inst, outcome, "ecobee: no Thermostat identifier"@),
                (_, None) => only_warns(
                    inst,
                    outcome,
                    "ecobee: token not ready, try again shortly"@,
                ),
                (Some(id), Some(token)) => {
                    &&& at(args, "hold"@) == JsonView::Bool(true) ==> holds_at(
                        doc,
                        id,
                        "indefinite"@,
                        f10_of(heat),
                        f10_of(cool),
                        None,
                    )
                    &&& at(args, "hold"@) != JsonView::Bool(true) ==> resumes(doc, id)
                    &&& outcome.1 == seq![written(doc, token)]
                },
            }
        }),
{
    lemma_command_names();
    lemma_one_header(clock.sent, inst);
    let (heat, cool) = inst.setpoints();
    let id = inst.identifier()->0;
    overflow_wraps(10 * whole_fahrenheit(heat));
    overflow_wraps(10 * whole_fahrenheit(cool));
    let (low, high) = (f10_of(heat) as i64, f10_of(cool) as i64);
    hold_states_what_it_is_given(id, "indefinite"@, low, high, None);
    documents_say_what_they_are_given(id, id);
    let doc = if at(args, "hold"@) == JsonView::Bool(true) {
        hold_body(id, "indefinite"@, low, high, None)
    } else {
        resume_body(id)
    };
    let outcome = command(inst, "set_hold"@, args, clock);
    if inst.identifier() is Some && inst.bearer(clock.sent) is Some {
        assert(outcome.1 =~= seq![written(doc, inst.bearer(clock.sent)->0)]);
    }
    doc
}

/// The writes are these five commands. Any other is named in a warning, whatever else is known.
pub proof fn other_commands_are_named(
    inst: InstanceView,
    cmd: Seq<char>,
    args: Map<Seq<char>, JsonView>,
    clock: Clock,
)
    ensures
        is_write(cmd) <==> {
            ||| cmd == "set_heat_setpoint"@
            ||| cmd == "set_cool_setpoint"@
            ||| cmd == "set_mode"@
            ||| cmd == "set_fan_mode"@
            ||| cmd == "set_hold"@
        },
        !is_write(cmd) ==> only_warns(
            inst,
            command(inst, cmd, args, clock),
            "ecobee: unhandled `"@ + cmd + "`"@,
        ),
{
}

/// Binding polls, with a token on hand or none needed, and notes nothing.
pub proof fn binding_polls(inst: InstanceView, clock: Clock) -> (doc: JsonView)
    ensures
        ({
            let outcome = bind(inst, clock);
            match inst.identifier() {
                None => only_warns(
                    inst,
                    outcome,
                    "ecobee: set the Thermostat identifier and Refresh token on this device"@,
                ),
                Some(id) => !inst.needs_refresh(clock.checked) ==> {
                    &&& outcome.0 == inst
                    &&& match inst.bearer(clock.sent) {
                        None => only_warns(
                            inst,
                            outcome,
                            "ecobee: token not ready, try again shortly"@,
                        ),
                        Some(token) => selects_one(doc, id) && outcome.1 == seq![read(doc, token)],
                    }
                },
            }
        }),
{
    lemma_one_header(clock.sent, inst);
    let id = inst.identifier()->0;
    documents_say_what_they_are_given(id, id);
    let doc = poll_selection(id);
    if inst.identifier() is Some && !inst.needs_refresh(clock.checked) && inst.bearer(
        clock.sent,
    ) is Some {
        assert(bind(inst, clock).1 =~= seq![read(doc, inst.bearer(clock.sent)->0)]);
    }
    doc
}

/// A device that was given a `Sensor id` takes no commands and handles messages as a sensor; any
/// other is a thermostat.
pub proof fn live_calls_go_to_the_right_driver(
    inst: InstanceView,
    cmd: Seq<char>,
    note: Seq<char>,
    args: Map<Seq<char>, JsonView>,
    clock: Clock,
)
    ensures
        inst.is_sensor() ==> only_warns(
            inst,
            device_command(inst, cmd, args, clock),
            "ecobee sensor is read-only, got `"@ + cmd + "`"@,
        ),
        inst.is_sensor() ==> device_event(inst, note, args, clock) == sensor_event(
            inst,
            note,
            args,
        ),
        !inst.is_sensor() ==> device_command(inst, cmd, args, clock) == command(
            inst,
            cmd,
            args,
            clock,
        ),
        !inst.is_sensor() ==> device_event(inst, note, args, clock) == event(
            inst,
            note,
            args,
            clock,
        ),
{
}

/// A request is what it is built of: a method and a URL, a body that takes the place of any other,
/// and headers in the order in which they were put on.
pub proof fn requests_are_what_they_are_built_of(
    method: Seq<char>,
    url: Seq<char>,
    r: HttpRequestView,
    name: Seq<char>,
    text: Seq<char>,
)
    ensures
        HttpRequestView::new(method, url) == (HttpRequestView {
            method,
            url,
            json: None,
            headers: Seq::empty(),
        }),
        r.with_json(text) == (HttpRequestView { json: Some(text), ..r }),
        r.with_header(name, text) == (HttpRequestView {
            headers: r.headers.push((name, text)),
            ..r
        }),
{
}

/// Any text is sent to the API, and any selection asked of it, with the token on hand.
pub proof fn texts_go_to_the_api(inst: InstanceView, text: Seq<char>, now: i64)
    ensures
        match inst.bearer(now) {
            Some(token) => {
                &&& inst.post(text, now) == Some(
                    HttpRequestView {
                        method: "POST"@,
                        url: "https://api.ecobee.com/1/thermostat"@,
                        json: Some(text),
                        headers: seq![("authorization"@, "Bearer "@ + token)],
                    },
                )
                &&& inst.poll(text, now) == Some(
                    HttpRequestView {
                        method: "GET"@,
                        url: "https://api.ecobee.com/1/thermostat"@ + "?json="@ + text,
                        json: None,
                        headers: seq![("authorization"@, "Bearer "@ + token)],
                    },
                )
            },
            None => inst.post(text, now) is None && inst.poll(text, now) is None,
        },
{
    lemma_one_header(now, inst);
}

/// Any hold of a thermostat with an identifier is sent as a document that states it.
pub proof fn any_hold_is_written_out(
    inst: InstanceView,
    hold_type: Seq<char>,
    heat: Real,
    cool: Real,
    fan: Option<Seq<char>>,
    now: i64,
) -> (doc: JsonView)
    ensures
        match (inst.identifier(), inst.bearer(now)) {
            (Some(id), Some(token)) => {
                &&& holds_at(doc, id, hold_type, f10_of(heat), f10_of(cool), fan)
                &&& inst.hold(hold_type, heat, cool, fan, now) is Some
                &&& HostCallView::Http(inst.hold(hold_type, heat, cool, fan, now)->0) == written(
                    doc,
                    token,
                )
            },
            _ => inst.hold(hold_type, heat, cool, fan, now) is None,
        },
{
    let id = inst.identifier()->0;
    lemma_one_header(now, inst);
    overflow_wraps(10 * whole_fahrenheit(heat));
    overflow_wraps(10 * whole_fahrenheit(cool));
    let (low, high) = (f10_of(heat) as i64, f10_of(cool) as i64);
    hold_states_what_it_is_given(id, hold_type, low, high, fan);
    hold_body(id, hold_type, low, high, fan)
}

/// A notification with one argument has that argument and no other.
pub proof fn one_argument_is_told(
    binding: u32,
    event: Seq<char>,
    name: Seq<char>,
    value: JsonView,
)
    ensures
        notice(binding, event, name, value) == (HostCallView::Notify {
            binding,
            event,
            args: map![name => value],
        }),
{
}

} // verus!
