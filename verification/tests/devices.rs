use ecobee::binary64::Binary64;
use ecobee::json::{Json, Number, Object};

/// A library value out of JSON text.
fn json(text: &str) -> Json {
    convert(&serde_json::from_str(text).unwrap())
}

fn convert(value: &serde_json::Value) -> Json {
    match value {
        serde_json::Value::Null => Json::Null,
        serde_json::Value::Bool(b) => Json::Bool(*b),
        serde_json::Value::Number(n) => Json::Number(match (n.as_u64(), n.as_i64()) {
            (Some(u), _) => Number::PosInt(u),
            (None, Some(i)) => Number::NegInt(i),
            (None, None) => Number::Float(number(n.as_f64().unwrap())),
        }),
        serde_json::Value::String(s) => Json::Str(s.clone()),
        serde_json::Value::Array(items) => Json::Array(items.iter().map(convert).collect()),
        serde_json::Value::Object(o) => Json::Object(members(o)),
    }
}

fn members(o: &serde_json::Map<String, serde_json::Value>) -> Object {
    let mut out = Object::new();
    for (name, value) in o {
        out.insert(name, convert(value));
    }
    out
}

fn object(text: &str) -> Object {
    match json(text) {
        Json::Object(o) => o,
        _ => panic!("not an object: {}", text),
    }
}

fn number(x: f64) -> Binary64 {
    Binary64::from_bits(x.to_bits()).unwrap()
}

/// serde_json's value out of a library value.
fn back(value: &Json) -> serde_json::Value {
    match value {
        Json::Null => serde_json::Value::Null,
        Json::Bool(b) => serde_json::Value::from(*b),
        Json::Number(Number::PosInt(n)) => serde_json::Value::from(*n),
        Json::Number(Number::NegInt(n)) => serde_json::Value::from(*n),
        Json::Number(Number::Float(x)) => serde_json::Value::from(f64::from_bits(x.to_bits())),
        Json::Str(s) => serde_json::Value::from(s.as_str()),
        Json::Array(items) => serde_json::Value::Array(items.iter().map(back).collect()),
        Json::Object(o) => back_object(o),
    }
}

fn back_object(o: &Object) -> serde_json::Value {
    let mut out = serde_json::Map::new();
    for (name, value) in o.entries() {
        out.insert(name.clone(), back(value));
    }
    serde_json::Value::Object(out)
}

use ecobee::host::{HostCall, HttpRequest, Instance};

fn instance(properties: &str, scratch: &str) -> Instance {
    Instance { properties: object(properties), scratch: object(scratch) }
}

fn request_line(r: &HttpRequest) -> String {
    let mut line = format!("{} {}", r.method, r.url);
    for (name, value) in &r.headers {
        line = format!("{} [{}: {}]", line, name, value);
    }
    match &r.json {
        Some(body) => format!("{} {}", line, body),
        None => line,
    }
}

/// What the host is asked to do, one line for each thing.
fn lines(calls: &[HostCall]) -> Vec<String> {
    calls
        .iter()
        .map(|call| match call {
            HostCall::Http(r) => request_line(r),
            HostCall::Warn(message) => format!("warn {}", message),
            HostCall::Notify { binding, event, args } => {
                format!("notify {} {} {}", binding, event, back_object(args))
            }
        })
        .collect()
}

fn scratch(inst: &Instance) -> String {
    back_object(&inst.scratch).to_string()
}

use ecobee::auth::access_token;
use ecobee::clock::Clock;
use ecobee::driver::is_sensor;
use ecobee::sensor::{read_occupancy, read_temperature_c};
use ecobee::{Ecobee, EcobeeRemoteSensor, EcobeeThermostat};

const SENSOR: &str = r#"{"Thermostat identifier":"411","Sensor id":"rs:1"}"#;

const CLOCK: Clock = Clock { received: 1000, checked: 1000, sent: 1000 };

fn poll(temperature: &str, occupancy: &str) -> Object {
    let capability = format!(
        r#"[{{"type":"temperature","value":"{}"}},{{"type":"occupancy","value":"{}"}}]"#,
        temperature, occupancy
    );
    let body = format!(
        r#"{{"thermostatList":[{{"remoteSensors":[{{"id":"ei:0","capability":[]}},{{"id":"rs:1","capability":{}}}]}}]}}"#,
        capability
    );
    let mut args = Object::new();
    args.insert("body", json(&body));
    args
}

#[test]
fn sensors_are_read_only() {
    let mut inst = instance(SENSOR, "{}");
    let calls = EcobeeRemoteSensor.on_command(&mut inst, 1, "set_mode", &object("{}"));
    assert_eq!(lines(&calls), vec!["warn ecobee sensor is read-only, got `set_mode`"]);
    assert_eq!(scratch(&inst), "{}");
}

#[test]
fn occupancy_is_told_when_it_changes_and_temperature_every_time() {
    let mut inst = instance(SENSOR, "{}");
    let mut told = |args: &Object| lines(&EcobeeRemoteSensor.on_event(&mut inst, 1, "http_response", args));
    assert_eq!(
        told(&poll("725", "true")),
        vec![
            r#"notify 1 detected_changed {"detected":true}"#,
            r#"notify 2 value_changed {"value":22.5}"#,
        ]
    );
    assert_eq!(told(&poll("725", "true")), vec![r#"notify 2 value_changed {"value":22.5}"#]);
    assert_eq!(told(&poll("unknown", "false")), vec![r#"notify 1 detected_changed {"detected":false}"#]);
    assert!(told(&poll("unknown", "false")).is_empty());
    assert_eq!(scratch(&inst), r#"{"occupied":false}"#);
}

#[test]
fn other_messages_and_other_sensors_are_ignored() {
    let mut inst = instance(r#"{"Sensor id":"rs:9"}"#, "{}");
    assert!(EcobeeRemoteSensor.on_event(&mut inst, 1, "http_response", &poll("725", "true")).is_empty());
    let mut mine = instance(SENSOR, "{}");
    assert!(EcobeeRemoteSensor.on_event(&mut mine, 1, "tick", &poll("725", "true")).is_empty());
    assert!(EcobeeRemoteSensor.on_event(&mut mine, 1, "http_response", &object("{}")).is_empty());
    assert_eq!(scratch(&mine), "{}");
}

#[test]
fn readings_come_out_of_the_capability_list() {
    let sensor = json(
        r#"{"capability":[{"type":"temperature","value":"701"},{"type":"occupancy","value":"yes"},{"type":"occupancy","value":"true"}]}"#,
    );
    assert_eq!(read_occupancy(&sensor), Some(false));
    assert_eq!(f64::from_bits(read_temperature_c(&sensor).unwrap().to_bits()), 21.2);
    for bare in ["{}", r#"{"capability":{}}"#, r#"{"capability":[]}"#, r#"{"capability":[{"type":"occupancy","value":true},{"type":"temperature"}]}"#] {
        assert_eq!(read_occupancy(&json(bare)), None);
        assert!(read_temperature_c(&json(bare)).is_none());
    }
    let unknown = json(r#"{"capability":[{"type":"temperature","value":"unknown"}]}"#);
    assert!(read_temperature_c(&unknown).is_none());
}

#[test]
fn a_sensor_is_the_instance_with_a_sensor_id() {
    assert!(is_sensor(&instance(SENSOR, "{}")));
    assert!(!is_sensor(&instance(r#"{"Sensor id":""}"#, "{}")));
    assert!(!is_sensor(&instance(r#"{"Sensor id":7}"#, "{}")));
    assert!(!is_sensor(&instance("{}", r#"{"Sensor id":"rs:1"}"#)));
}

#[test]
fn live_calls_are_routed_by_kind() {
    let mut sensor = instance(SENSOR, "{}");
    assert_eq!(
        lines(&Ecobee.on_command_at(&mut sensor, 1, "set_hold", &object("{}"), &CLOCK)),
        vec!["warn ecobee sensor is read-only, got `set_hold`"]
    );
    assert_eq!(
        lines(&Ecobee.on_event_at(&mut sensor, 1, "http_response", &poll("725", "false"), &CLOCK)),
        vec![
            r#"notify 1 detected_changed {"detected":false}"#,
            r#"notify 2 value_changed {"value":22.5}"#,
        ]
    );
    assert!(Ecobee.on_bind_at(&mut sensor, &CLOCK).is_none());
    assert!(Ecobee.on_bind(&mut sensor).is_none());

    let mut thermostat = instance("{}", "{}");
    assert_eq!(
        lines(&Ecobee.on_command(&mut thermostat, 1, "set_hold", &object("{}"))),
        vec!["warn ecobee: no Thermostat identifier"]
    );
    assert!(Ecobee.on_event(&mut thermostat, 1, "http_response", &poll("725", "true")).is_empty());
    assert_eq!(
        lines(&Ecobee.on_bind_at(&mut thermostat, &CLOCK).unwrap()),
        vec!["warn ecobee: set the Thermostat identifier and Refresh token on this device"]
    );
}

#[test]
fn drivers_have_a_default() {
    let mut inst = instance(SENSOR, "{}");
    assert_eq!(EcobeeRemoteSensor::default().on_command(&mut inst, 1, "x", &object("{}")).len(), 1);
    assert_eq!(Ecobee::default().on_command(&mut inst, 1, "x", &object("{}")).len(), 1);
    assert_eq!(EcobeeThermostat::default().on_command(&mut inst, 1, "x", &object("{}")).len(), 1);
}

#[test]
fn an_access_token_is_live_only_with_an_api_key() {
    let known = r#"{"access_token":"tok","access_expires_at":1031}"#;
    let keyed = instance(r#"{"API key":"key"}"#, known);
    assert_eq!(access_token(&keyed, 1000), Some("tok"));
    assert_eq!(access_token(&keyed, 1001), None);
    assert_eq!(access_token(&instance("{}", known), 1000), None);
    assert_eq!(access_token(&instance(r#"{"API key":""}"#, known), 1000), None);
    assert_eq!(access_token(&instance(r#"{"API key":7}"#, known), 1000), None);
    let key = r#"{"API key":"key"}"#;
    assert_eq!(access_token(&instance(key, "{}"), 1000), None);
    assert_eq!(access_token(&instance(key, r#"{"access_token":"tok"}"#), 1000), None);
    assert_eq!(access_token(&instance(key, r#"{"access_token":"tok"}"#), -31), Some("tok"));
}
