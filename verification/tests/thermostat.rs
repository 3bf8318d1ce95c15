use ecobee::binary64::Binary64;
use ecobee::json::{Json, Number, Object};

/// A library value out of JSON text.
fn json(text: &str) -> Json {
    convert(&serde_json::from_str(text).unwrap())
}

fn convert(value: &serde_json::Value) -> Json {
    match value {
        serde_json::Value::Null => Json::Null,
        serde_json::Value::Bool(b) => Json::Bool(*b),
        serde_json::Value::Number(n) => Json::Number(match (n.as_u64(), n.as_i64()) {
            (Some(u), _) => Number::PosInt(u),
            (None, Some(i)) => Number::NegInt(i),
            (None, None) => Number::Float(number(n.as_f64().unwrap())),
        }),
        serde_json::Value::String(s) => Json::Str(s.clone()),
        serde_json::Value::Array(items) => Json::Array(items.iter().map(convert).collect()),
        serde_json::Value::Object(o) => Json::Object(members(o)),
    }
}

fn members(o: &serde_json::Map<String, serde_json::Value>) -> Object {
    let mut out = Object::new();
    for (name, value) in o {
        out.insert(name, convert(value));
    }
    out
}

fn object(text: &str) -> Object {
    match json(text) {
        Json::Object(o) => o,
        _ => panic!("not an object: {}", text),
    }
}

fn number(x: f64) -> Binary64 {
    Binary64::from_bits(x.to_bits()).unwrap()
}

/// serde_json's value out of a library value.
fn back(value: &Json) -> serde_json::Value {
    match value {
        Json::Null => serde_json::Value::Null,
        Json::Bool(b) => serde_json::Value::from(*b),
        Json::Number(Number::PosInt(n)) => serde_json::Value::from(*n),
        Json::Number(Number::NegInt(n)) => serde_json::Value::from(*n),
        Json::Number(Number::Float(x)) => serde_json::Value::from(f64::from_bits(x.to_bits())),
        Json::Str(s) => serde_json::Value::from(s.as_str()),
        Json::Array(items) => serde_json::Value::Array(items.iter().map(back).collect()),
        Json::Object(o) => back_object(o),
    }
}

fn back_object(o: &Object) -> serde_json::Value {
    let mut out = serde_json::Map::new();
    for (name, value) in o.entries() {
        out.insert(name.clone(), back(value));
    }
    serde_json::Value::Object(out)
}

use ecobee::host::{HostCall, HttpRequest, Instance};

fn instance(properties: &str, scratch: &str) -> Instance {
    Instance { properties: object(properties), scratch: object(scratch) }
}

fn request_line(r: &HttpRequest) -> String {
    let mut line = format!("{} {}", r.method, r.url);
    for (name, value) in &r.headers {
        line = format!("{} [{}: {}]", line, name, value);
    }
    match &r.json {
        Some(body) => format!("{} {}", line, body),
        None => line,
    }
}

/// What the host is asked to do, one line for each thing.
fn lines(calls: &[HostCall]) -> Vec<String> {
    calls
        .iter()
        .map(|call| match call {
            HostCall::Http(r) => request_line(r),
            HostCall::Warn(message) => format!("warn {}", message),
            HostCall::Notify { binding, event, args } => {
                format!("notify {} {} {}", binding, event, back_object(args))
            }
        })
        .collect()
}

fn scratch(inst: &Instance) -> String {
    back_object(&inst.scratch).to_string()
}

use ecobee::clock::Clock;
use ecobee::documents::{hold_text, mode_text, poll_text, registered_text, resume_text};
use ecobee::thermostat::hold_apart;
use ecobee::units::finite_c_to_f10;
use ecobee::EcobeeThermostat;

const MANUAL: &str = r#"{"Refresh token":"tok","Thermostat identifier":"411"}"#;
const OAUTH: &str = r#"{"API key":"key","Refresh token":"first","Thermostat identifier":"411"}"#;

const API: &str = "https://api.ecobee.com/1/thermostat";
const REFRESH: &str = "POST https://api.ecobee.com/token?grant_type=refresh_token&code=first&client_id=key";

fn at(now: i64) -> Clock {
    Clock { received: now, checked: now, sent: now }
}

fn run(inst: &mut Instance, cmd: &str, args: &str) -> Vec<String> {
    lines(&EcobeeThermostat.on_command_at(inst, 1, cmd, &object(args), &at(1000)))
}

fn event(inst: &mut Instance, body: &str, now: i64) -> Vec<String> {
    let mut args = Object::new();
    args.insert("body", json(body));
    lines(&EcobeeThermostat.on_event_at(inst, 1, "http_response", &args, &at(now)))
}

fn posted(token: &str, body: &str) -> String {
    format!("POST {} [authorization: Bearer {}] {}", API, token, body)
}

fn hold_document(kind: &str, heat: i64, cool: i64) -> String {
    let params = format!(
        r#"{{"coolHoldTemp":{},"heatHoldTemp":{},"holdType":"{}"}}"#,
        cool, heat, kind
    );
    format!(
        r#"{{"functions":[{{"params":{},"type":"setHold"}}],"selection":{{"selectionMatch":"411","selectionType":"thermostats"}}}}"#,
        params
    )
}

#[test]
fn documents_are_compact_json() {
    assert_eq!(hold_text("411", "indefinite", 680, 750, None), hold_document("indefinite", 680, 750));
    assert_eq!(
        hold_text("4\"1", "nextTransition", -10, 0, Some("on")),
        r#"{"functions":[{"params":{"coolHoldTemp":0,"fan":"on","heatHoldTemp":-10,"holdType":"nextTransition"},"type":"setHold"}],"selection":{"selectionMatch":"4\"1","selectionType":"thermostats"}}"#
    );
    assert_eq!(
        resume_text("411"),
        r#"{"functions":[{"params":{"resumeAll":false},"type":"resumeProgram"}],"selection":{"selectionMatch":"411","selectionType":"thermostats"}}"#
    );
    assert_eq!(
        mode_text("411", "heat"),
        r#"{"selection":{"selectionMatch":"411","selectionType":"thermostats"},"thermostat":{"settings":{"hvacMode":"heat"}}}"#
    );
    assert_eq!(
        poll_text("411"),
        r#"{"selection":{"includeRuntime":true,"includeSensors":true,"includeSettings":true,"selectionMatch":"411","selectionType":"thermostats"}}"#
    );
    assert_eq!(
        registered_text(),
        r#"{"selection":{"includeSensors":true,"selectionType":"registered"}}"#
    );
}

#[test]
fn heat_setpoint_states_both_temperatures() {
    let mut inst = instance(MANUAL, "{}");
    assert_eq!(
        run(&mut inst, "set_heat_setpoint", r#"{"celsius":21.5}"#),
        vec![
            posted("tok", &hold_document("nextTransition", 710, 750)),
            r#"notify 1 setpoint_changed {"celsius":21.5,"which":"heat"}"#.to_string(),
        ]
    );
    assert_eq!(scratch(&inst), r#"{"cool_c":24.0,"heat_c":21.5}"#);
}

#[test]
fn cool_setpoint_pushes_heating_down() {
    let mut inst = instance(MANUAL, r#"{"heat_c":22,"cool_c":25.0}"#);
    assert_eq!(
        run(&mut inst, "set_cool_setpoint", r#"{"celsius":23}"#),
        vec![
            posted("tok", &hold_document("nextTransition", 700, 730)),
            r#"notify 1 setpoint_changed {"celsius":23.0,"which":"cool"}"#.to_string(),
        ]
    );
    assert_eq!(scratch(&inst), r#"{"cool_c":23.0,"heat_c":21.0}"#);
}

#[test]
fn a_setpoint_far_enough_away_is_left_alone() {
    let mut inst = instance(MANUAL, r#"{"heat_c":18.5,"cool_c":30.0}"#);
    run(&mut inst, "set_heat_setpoint", r#"{"celsius":20.0}"#);
    assert_eq!(scratch(&inst), r#"{"cool_c":30.0,"heat_c":20.0}"#);
    run(&mut inst, "set_cool_setpoint", r#"{"celsius":26.0}"#);
    assert_eq!(scratch(&inst), r#"{"cool_c":26.0,"heat_c":20.0}"#);
}

#[test]
fn setpoints_never_go_out_too_close() {
    for tenths in -400i32..500 {
        let c = number(tenths as f64 / 10.0);
        for other in [-10.0, 18.0, 21.0, 24.0, 60.0] {
            let (h, k) = hold_apart(true, &c, number(other), number(other));
            assert!(finite_c_to_f10(&k) >= finite_c_to_f10(&h) + 30);
            assert_eq!(h.to_bits(), c.to_bits());
            let (h, k) = hold_apart(false, &c, number(other), number(other));
            assert!(finite_c_to_f10(&k) >= finite_c_to_f10(&h) + 30);
            assert_eq!(k.to_bits(), c.to_bits());
        }
    }
}

#[test]
fn setpoint_without_a_number_is_refused() {
    let mut inst = instance(MANUAL, "{}");
    assert_eq!(run(&mut inst, "set_heat_setpoint", "{}"), vec!["warn ecobee: no celsius value"]);
    assert_eq!(
        run(&mut inst, "set_cool_setpoint", r#"{"celsius":"21"}"#),
        vec!["warn ecobee: no celsius value"]
    );
    assert_eq!(scratch(&inst), "{}");
}

#[test]
fn setpoint_without_an_identifier_is_noted_but_not_sent() {
    let mut inst = instance(r#"{"Refresh token":"tok","Thermostat identifier":""}"#, "{}");
    assert_eq!(
        run(&mut inst, "set_heat_setpoint", r#"{"celsius":19}"#),
        vec!["warn ecobee: set the Thermostat identifier on this device first"]
    );
    assert_eq!(scratch(&inst), r#"{"cool_c":24.0,"heat_c":19.0}"#);
}

#[test]
fn mode_is_sent_and_told() {
    let mut inst = instance(MANUAL, "{}");
    assert_eq!(
        run(&mut inst, "set_mode", r#"{"mode":"cool"}"#),
        vec![
            posted("tok", &mode_text("411", "cool")),
            r#"notify 1 mode_changed {"mode":"cool"}"#.to_string(),
        ]
    );
    assert_eq!(run(&mut inst, "set_mode", "{}"), vec!["warn ecobee: no mode"]);
    let mut bare = instance("{}", "{}");
    assert_eq!(
        run(&mut bare, "set_mode", r#"{"mode":"cool"}"#),
        vec!["warn ecobee: no Thermostat identifier"]
    );
}

#[test]
fn fan_mode_is_a_hold_of_the_known_setpoints() {
    let mut inst = instance(MANUAL, r#"{"heat_c":19.0,"cool_c":26.0}"#);
    assert_eq!(
        run(&mut inst, "set_fan_mode", r#"{"mode":"on"}"#),
        vec![posted("tok", &hold_text("411", "nextTransition", 660, 790, Some("on")))]
    );
    assert_eq!(run(&mut inst, "set_fan_mode", "{}"), vec!["warn ecobee: no fan mode"]);
    let mut bare = instance("{}", "{}");
    assert_eq!(
        run(&mut bare, "set_fan_mode", r#"{"mode":"on"}"#),
        vec!["warn ecobee: no Thermostat identifier"]
    );
}

#[test]
fn hold_is_set_for_good_or_resumed() {
    let mut inst = instance(MANUAL, r#"{"heat_c":19.0,"cool_c":26.0}"#);
    assert_eq!(
        run(&mut inst, "set_hold", r#"{"hold":true}"#),
        vec![posted("tok", &hold_document("indefinite", 660, 790))]
    );
    for args in [r#"{"hold":false}"#, "{}", r#"{"hold":"true"}"#] {
        assert_eq!(run(&mut inst, "set_hold", args), vec![posted("tok", &resume_text("411"))]);
    }
    let mut bare = instance("{}", "{}");
    assert_eq!(
        run(&mut bare, "set_hold", r#"{"hold":true}"#),
        vec!["warn ecobee: no Thermostat identifier"]
    );
}

#[test]
fn other_commands_are_named_in_the_warning() {
    let mut inst = instance(OAUTH, "{}");
    assert_eq!(run(&mut inst, "dance", "{}"), vec!["warn ecobee: unhandled `dance`"]);
    assert_eq!(run(&mut inst, "", "{}"), vec!["warn ecobee: unhandled ``"]);
    assert_eq!(scratch(&inst), "{}");
}

#[test]
fn without_a_refresh_token_the_bearer_is_empty() {
    let mut inst = instance(r#"{"Thermostat identifier":"411"}"#, "{}");
    assert_eq!(
        run(&mut inst, "set_hold", "{}"),
        vec![posted("", &resume_text("411"))]
    );
}

#[test]
fn a_command_waits_for_its_token_and_is_then_run() {
    let mut inst = instance(OAUTH, "{}");
    assert_eq!(run(&mut inst, "set_heat_setpoint", r#"{"celsius":21.5}"#), vec![REFRESH]);
    assert_eq!(
        scratch(&inst),
        r#"{"pending_action":{"args":{"celsius":21.5},"cmd":"set_heat_setpoint"}}"#
    );
    assert_eq!(
        event(&mut inst, r#"{"access_token":"acc","expires_in":600,"refresh_token":"second"}"#, 2000),
        vec![
            posted("acc", &hold_document("nextTransition", 710, 750)),
            r#"notify 1 setpoint_changed {"celsius":21.5,"which":"heat"}"#.to_string(),
        ]
    );
    assert_eq!(
        scratch(&inst),
        r#"{"access_expires_at":2600,"access_token":"acc","cool_c":24.0,"heat_c":21.5,"refresh_token":"second"}"#
    );
}

#[test]
fn a_binding_waits_for_its_token_and_is_then_run() {
    let mut inst = instance(OAUTH, "{}");
    assert_eq!(lines(&EcobeeThermostat.on_bind_at(&mut inst, &at(1000))), vec![REFRESH]);
    assert_eq!(scratch(&inst), r#"{"pending_action":{"cmd":"__bind__"}}"#);
    assert_eq!(
        event(&mut inst, r#"{"access_token":"acc"}"#, 2000),
        vec![format!("GET {}?json={} [authorization: Bearer acc]", API, poll_text("411"))]
    );
    assert_eq!(scratch(&inst), r#"{"access_expires_at":5600,"access_token":"acc"}"#);
}

#[test]
fn a_token_that_expires_at_once_is_asked_for_again() {
    let mut inst = instance(OAUTH, "{}");
    run(&mut inst, "set_hold", "{}");
    assert_eq!(
        event(&mut inst, r#"{"access_token":"acc","expires_in":30,"refresh_token":"next"}"#, 2000),
        vec!["POST https://api.ecobee.com/token?grant_type=refresh_token&code=next&client_id=key"]
    );
    assert!(inst.scratch.get("pending_action").is_some());
}

#[test]
fn a_token_reply_with_nothing_waiting_is_only_banked() {
    let mut inst = instance(OAUTH, "{}");
    assert!(event(&mut inst, r#"{"access_token":"acc","expires_in":60}"#, 1000).is_empty());
    assert_eq!(scratch(&inst), r#"{"access_expires_at":1060,"access_token":"acc"}"#);
}

#[test]
fn a_live_token_is_used_until_half_a_minute_before_it_expires() {
    let known = r#"{"access_token":"acc","access_expires_at":1031}"#;
    let mut inst = instance(OAUTH, known);
    assert_eq!(run(&mut inst, "set_hold", "{}"), vec![posted("acc", &resume_text("411"))]);
    let mut stale = instance(OAUTH, r#"{"access_token":"acc","access_expires_at":1030}"#);
    assert_eq!(run(&mut stale, "set_hold", "{}"), vec![REFRESH]);
}

#[test]
fn a_token_that_expires_while_the_request_is_built_is_not_ready() {
    let known = r#"{"access_token":"acc","access_expires_at":1031}"#;
    let clock = Clock { received: 1000, checked: 1000, sent: 1001 };
    let not_ready = vec!["warn ecobee: token not ready, try again shortly"];
    for (cmd, args) in
        [("set_mode", r#"{"mode":"heat"}"#), ("set_fan_mode", r#"{"mode":"on"}"#), ("set_hold", "{}")]
    {
        let mut inst = instance(OAUTH, known);
        let calls = EcobeeThermostat.on_command_at(&mut inst, 1, cmd, &object(args), &clock);
        assert_eq!(lines(&calls), not_ready);
    }
    let mut inst = instance(OAUTH, known);
    assert_eq!(lines(&EcobeeThermostat.on_bind_at(&mut inst, &clock)), not_ready);
}

#[test]
fn a_key_without_a_refresh_token_is_refused() {
    let mut inst = instance(r#"{"API key":"key","Thermostat identifier":"411"}"#, "{}");
    let warning = vec!["warn ecobee: set the API key and Refresh token on this device first"];
    assert_eq!(run(&mut inst, "set_hold", "{}"), warning);
    assert_eq!(lines(&EcobeeThermostat.on_bind_at(&mut inst, &at(0))), warning);
    assert_eq!(scratch(&inst), "{}");
}

#[test]
fn binding_polls_and_needs_an_identifier() {
    let mut inst = instance(MANUAL, "{}");
    assert_eq!(
        lines(&EcobeeThermostat.on_bind_at(&mut inst, &at(0))),
        vec![format!("GET {}?json={} [authorization: Bearer tok]", API, poll_text("411"))]
    );
    let mut bare = instance("{}", "{}");
    assert_eq!(
        lines(&EcobeeThermostat.on_bind_at(&mut bare, &at(0))),
        vec!["warn ecobee: set the Thermostat identifier and Refresh token on this device"]
    );
}

const POLL: &str = r#"{"thermostatList":[{
    "runtime":{"actualTemperature":725,"actualHumidity":41,"desiredHeat":680,"desiredCool":760},
    "settings":{"hvacMode":"auto"},
    "remoteSensors":[
        {"id":"rs:1","type":"ecobee3_remote_sensor","capability":[{"type":"occupancy","value":"false"}]},
        {"id":"ei:0","type":"thermostat","capability":[{"type":"temperature","value":"725"},{"type":"occupancy","value":"true"}]}
    ]}]}"#;

#[test]
fn a_poll_is_fanned_out() {
    let mut inst = instance(MANUAL, "{}");
    assert_eq!(
        event(&mut inst, POLL, 0),
        vec![
            r#"notify 1 temperature_changed {"celsius":22.5}"#,
            r#"notify 3 value_changed {"value":22.5}"#,
            r#"notify 1 humidity_changed {"percent":41.0}"#,
            r#"notify 1 mode_changed {"mode":"auto"}"#,
            r#"notify 2 detected_changed {"detected":true}"#,
        ]
    );
    assert_eq!(scratch(&inst), r#"{"cool_c":24.4,"heat_c":20.0}"#);
}

#[test]
fn polled_setpoints_are_held_as_they_were_reported() {
    let mut inst = instance(MANUAL, "{}");
    event(&mut inst, POLL, 0);
    assert_eq!(
        run(&mut inst, "set_hold", r#"{"hold":true}"#),
        vec![posted("tok", &hold_document("indefinite", 680, 760))]
    );
}

#[test]
fn messages_that_say_nothing_change_nothing() {
    let mut inst = instance(MANUAL, "{}");
    let other = EcobeeThermostat.on_event_at(&mut inst, 1, "tick", &object(r#"{"body":{}}"#), &at(0));
    assert!(other.is_empty());
    let bare = EcobeeThermostat.on_event_at(&mut inst, 1, "http_response", &object("{}"), &at(0));
    assert!(bare.is_empty());
    for body in ["{}", "[]", r#"{"thermostatList":[]}"#, r#"{"thermostatList":[{}]}"#] {
        assert!(event(&mut inst, body, 0).is_empty());
    }
    assert_eq!(scratch(&inst), "{}");
}

#[test]
fn the_clock_is_read_when_none_is_given() {
    let mut live = instance(OAUTH, r#"{"access_token":"acc","access_expires_at":9000000000000}"#);
    let calls = EcobeeThermostat.on_command(&mut live, 1, "set_hold", &object("{}"));
    assert_eq!(lines(&calls), vec![posted("acc", &resume_text("411"))]);
    let mut stale = instance(OAUTH, r#"{"access_token":"acc","access_expires_at":1000}"#);
    assert_eq!(lines(&EcobeeThermostat.on_bind(&mut stale)), vec![REFRESH]);
    let mut args = Object::new();
    args.insert("body", json(r#"{"access_token":"new","expires_in":600}"#));
    let resumed = EcobeeThermostat.on_event(&mut stale, 1, "http_response", &args);
    assert_eq!(
        lines(&resumed),
        vec![format!("GET {}?json={} [authorization: Bearer new]", API, poll_text("411"))]
    );
    assert!(stale.scratch.i64_at("access_expires_at").unwrap() > 1_600_000_000);
}

#[test]
fn the_asked_setpoint_does_not_depend_on_what_is_known() {
    for known in ["{}", r#"{"heat_c":5}"#, r#"{"heat_c":30.0,"cool_c":12.5}"#, r#"{"heat_c":"warm"}"#] {
        let mut inst = instance(MANUAL, known);
        let sent = run(&mut inst, "set_heat_setpoint", r#"{"celsius":20}"#);
        assert!(sent[0].contains(r#""heatHoldTemp":680,"#), "{}", sent[0]);
        let mut inst = instance(MANUAL, known);
        let sent = run(&mut inst, "set_cool_setpoint", r#"{"celsius":25}"#);
        assert!(sent[0].contains(r#""coolHoldTemp":770,"#), "{}", sent[0]);
    }
}

#[test]
fn setpoints_go_out_apart_whatever_was_known() {
    let gap = |heating: bool, c: f64, heat: f64, cool: f64| -> i64 {
        let (h, k) = hold_apart(heating, &number(c), number(heat), number(cool));
        finite_c_to_f10(&k) - finite_c_to_f10(&h)
    };
    for c in [-1000.0, -40.0, 0.0, 21.3, 1000.0] {
        for other in [f64::MIN, -5e17, -1e12, 0.0, 23.0, 1e12, 5e17] {
            assert!(gap(true, c, f64::MAX, other) >= 30, "{} {}", c, other);
        }
        for other in [-5e17, -1e12, 0.0, 23.0, 1e12, 5e17, f64::MAX] {
            assert!(gap(false, c, other, f64::MIN) >= 30, "{} {}", c, other);
        }
    }
    let mut x: u64 = 0x9e37_79b9_7f4a_7c15;
    for _ in 0..100_000 {
        x ^= x << 13;
        x ^= x >> 7;
        x ^= x << 17;
        let c = (x % 5_003_999_585_967_195) as f64 + (x >> 60) as f64 / 16.0;
        for c in [c, -c] {
            assert!(gap(true, c, 20.0, c) >= 30, "{}", c);
            assert!(gap(false, c, c, 24.0) >= 30, "{}", c);
        }
    }
}

#[test]
fn warmer_celsius_is_never_cooler_fahrenheit() {
    let rising = [-5e17, -5e15, -273.15, -0.3, 0.0, 0.2, 19.9, 20.0, 20.1, 5e15, 5e17];
    for pair in rising.windows(2) {
        assert!(finite_c_to_f10(&number(pair[0])) <= finite_c_to_f10(&number(pair[1])));
    }
}
