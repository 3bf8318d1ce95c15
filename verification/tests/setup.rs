use ecobee::binary64::Binary64;
use ecobee::json::{Json, Number, Object};

/// A library value out of JSON text.
fn json(text: &str) -> Json {
    convert(&serde_json::from_str(text).unwrap())
}

fn convert(value: &serde_json::Value) -> Json {
    match value {
        serde_json::Value::Null => Json::Null,
        serde_json::Value::Bool(b) => Json::Bool(*b),
        serde_json::Value::Number(n) => Json::Number(match (n.as_u64(), n.as_i64()) {
            (Some(u), _) => Number::PosInt(u),
            (None, Some(i)) => Number::NegInt(i),
            (None, None) => Number::Float(number(n.as_f64().unwrap())),
        }),
        serde_json::Value::String(s) => Json::Str(s.clone()),
        serde_json::Value::Array(items) => Json::Array(items.iter().map(convert).collect()),
        serde_json::Value::Object(o) => Json::Object(members(o)),
    }
}

fn members(o: &serde_json::Map<String, serde_json::Value>) -> Object {
    let mut out = Object::new();
    for (name, value) in o {
        out.insert(name, convert(value));
    }
    out
}

fn object(text: &str) -> Object {
    match json(text) {
        Json::Object(o) => o,
        _ => panic!("not an object: {}", text),
    }
}

fn number(x: f64) -> Binary64 {
    Binary64::from_bits(x.to_bits()).unwrap()
}

/// JSON text out of a library value.
fn text(value: &Json) -> String {
    back(value).to_string()
}

fn back(value: &Json) -> serde_json::Value {
    match value {
        Json::Null => serde_json::Value::Null,
        Json::Bool(b) => serde_json::Value::from(*b),
        Json::Number(Number::PosInt(n)) => serde_json::Value::from(*n),
        Json::Number(Number::NegInt(n)) => serde_json::Value::from(*n),
        Json::Number(Number::Float(x)) => serde_json::Value::from(f64::from_bits(x.to_bits())),
        Json::Str(s) => serde_json::Value::from(s.as_str()),
        Json::Array(items) => serde_json::Value::Array(items.iter().map(back).collect()),
        Json::Object(o) => back_object(o),
    }
}

fn back_object(o: &Object) -> serde_json::Value {
    let mut out = serde_json::Map::new();
    for (name, value) in o.entries() {
        out.insert(name.clone(), back(value));
    }
    serde_json::Value::Object(out)
}

use ecobee::host::{HttpRequest, Instance};

fn request_line(r: &HttpRequest) -> String {
    let mut line = format!("{} {}", r.method, r.url);
    for (name, value) in &r.headers {
        line = format!("{} [{}: {}]", line, name, value);
    }
    match &r.json {
        Some(body) => format!("{} {}", line, body),
        None => line,
    }
}

use ecobee::driver::is_sensor;
use ecobee::setup::{Candidate, SetupStep};
use ecobee::Ecobee;

fn step(state: &Json, input: &str) -> (SetupStep, Json) {
    Ecobee.discover("ecobee.thermostat", state, &object(input))
}

fn fetch(step: &SetupStep) -> (String, String) {
    match step {
        SetupStep::Fetch { request, note } => (request_line(request), note.clone()),
        _ => panic!("not a request"),
    }
}

fn offered(step: SetupStep) -> Vec<Candidate> {
    match step {
        SetupStep::Choose { title, body, options, multiple } => {
            assert_eq!(title, "Add these ecobee devices");
            assert_eq!(body, "");
            assert!(multiple);
            options
        }
        _ => panic!("not a choice"),
    }
}

fn describe(c: &Candidate) -> String {
    format!("{} {} {} {}", c.label, c.kind, c.driver_id, back_object(&c.properties))
}

#[test]
fn the_wizard_asks_for_a_key_first() {
    for state in ["null", "{}", r#"{"stage":"start"}"#, r#"{"stage":"elsewhere"}"#, r#"{"stage":"authorizing"}"#, r#"{"stage":"listing"}"#] {
        let (first, next) = step(&json(state), "{}");
        assert_eq!(text(&next), r#"{"stage":"start"}"#);
        match first {
            SetupStep::Form { title, body, fields } => {
                assert_eq!(title, "Connect an ecobee account");
                assert_eq!(body, "Create an app at ecobee.com/developer (Add Application → My apps) to get an API key.");
                assert_eq!(fields.len(), 1);
                assert_eq!(fields[0].name, "api_key");
                assert_eq!(fields[0].label, "API key");
                assert_eq!(fields[0].kind, "password");
                assert_eq!(fields[0].help, "From the ecobee developer portal");
                assert!(fields[0].default.is_none());
                assert!(fields[0].options.is_empty());
                assert!(fields[0].required);
            }
            _ => panic!("not a form"),
        }
    }
}

#[test]
fn the_wizard_runs_from_key_to_devices() {
    let (first, state) = step(&Json::null(), r#"{"api_key":"key"}"#);
    assert_eq!(
        fetch(&first),
        (
            "GET https://api.ecobee.com/authorize?response_type=ecobeePin&client_id=key&scope=smartWrite".to_string(),
            "authorize".to_string()
        )
    );
    assert_eq!(text(&state), r#"{"api_key":"key","stage":"authorizing"}"#);

    let (second, state) = step(
        &state,
        r#"{"note":"authorize","response":{"ecobeePin":"ab12","code":"c0de","interval":12}}"#,
    );
    match second {
        SetupStep::Instruct { title, body, continue_label } => {
            assert_eq!(title, "Authorize Juno on ecobee.com");
            assert_eq!(
                body,
                "On the ecobee web portal, open Menu → My Apps → Add Application, and enter this PIN:\n\nab12\n\nThen come back and continue."
            );
            assert_eq!(continue_label, "I've entered the PIN");
        }
        _ => panic!("no instruction"),
    }
    assert_eq!(text(&state), r#"{"api_key":"key","code":"c0de","interval":12,"stage":"pending"}"#);

    let (third, state) = step(&state, "{}");
    assert_eq!(
        fetch(&third),
        (
            "POST https://api.ecobee.com/token?grant_type=ecobeePin&code=c0de&client_id=key".to_string(),
            "token".to_string()
        )
    );

    let (fourth, state) =
        step(&state, r#"{"note":"token","response":{"error":"authorization_pending"}}"#);
    match fourth {
        SetupStep::Wait { title, body, retry_ms } => {
            assert_eq!(title, "Waiting for the PIN to be entered on ecobee.com");
            assert_eq!(body, "");
            assert_eq!(retry_ms, 12_000);
        }
        _ => panic!("no pause"),
    }
    assert_eq!(text(&state), r#"{"api_key":"key","code":"c0de","interval":12,"stage":"pending"}"#);

    let (fifth, state) = step(
        &state,
        r#"{"note":"token","response":{"access_token":"acc","refresh_token":"ref"}}"#,
    );
    assert_eq!(
        fetch(&fifth),
        (
            r#"GET https://api.ecobee.com/1/thermostat?json={"selection":{"includeSensors":true,"selectionType":"registered"}} [authorization: Bearer acc]"#.to_string(),
            "list".to_string()
        )
    );
    assert_eq!(text(&state), r#"{"api_key":"key","refresh_token":"ref","stage":"listing"}"#);

    let (last, state) = step(
        &state,
        r#"{"note":"list","response":{"thermostatList":[
            {"identifier":"411","name":"Hall","remoteSensors":[
                {"id":"ei:0","type":"thermostat","name":"Hall"},
                {"id":"rs:1","type":"ecobee3_remote_sensor","name":"Attic"},
                {"id":"rs:2"},
                {"name":"nameless"}]},
            {"name":"no id","remoteSensors":[{"id":"rs:3"}]},
            {"identifier":"412"}]}}"#,
    );
    assert_eq!(text(&state), "null");
    let devices = offered(last);
    assert_eq!(
        devices.iter().map(describe).collect::<Vec<_>>(),
        vec![
            r#"Hall thermostat ecobee.thermostat {"API key":"key","Refresh token":"ref","Thermostat identifier":"411"}"#,
            r#"Attic sensor ecobee.remote_sensor {"Sensor id":"rs:1","Thermostat identifier":"411"}"#,
            r#"rs:2 sensor ecobee.remote_sensor {"Sensor id":"rs:2","Thermostat identifier":"411"}"#,
            r#"412 thermostat ecobee.thermostat {"API key":"key","Refresh token":"ref","Thermostat identifier":"412"}"#,
        ]
    );
    for device in devices {
        assert_eq!(device.verified, "confirmed by the ecobee API");
        let sensor = device.kind == "sensor";
        assert_eq!(is_sensor(&Instance { properties: device.properties, scratch: Object::new() }), sensor);
    }
}

#[test]
fn a_missing_pin_is_a_failure() {
    let state = json(r#"{"stage":"authorizing","api_key":"key"}"#);
    for response in ["{}", r#"{"ecobeePin":"ab12"}"#, r#"{"code":"c0de"}"#, "null"] {
        let (failed, next) =
            step(&state, &format!(r#"{{"note":"authorize","response":{}}}"#, response));
        assert_eq!(text(&next), "null");
        match failed {
            SetupStep::Instruct { title, body, continue_label } => {
                assert_eq!(title, "Could not connect to ecobee");
                assert_eq!(body, "ecobee did not return a PIN — check the API key");
                assert_eq!(continue_label, "Try again");
            }
            _ => panic!("no failure"),
        }
    }
}

#[test]
fn the_interval_defaults_to_half_a_minute() {
    let state = json(r#"{"stage":"authorizing","api_key":"key"}"#);
    let (_, next) =
        step(&state, r#"{"note":"authorize","response":{"ecobeePin":"p","code":"c"}}"#);
    assert_eq!(text(&next), r#"{"api_key":"key","code":"c","interval":30,"stage":"pending"}"#);
}

#[test]
fn the_pause_is_at_least_five_seconds() {
    for (interval, expected) in [
        ("2", 5_000u32),
        ("-7", 5_000),
        ("5", 5_000),
        ("45", 45_000),
        ("null", 30_000),
        ("4294967", 4_294_967_000),
        ("4294968", 704),
        ("4294967301", 5_000),
    ] {
        let state = json(&format!(r#"{{"stage":"pending","interval":{}}}"#, interval));
        let (wait, next) = step(&state, r#"{"note":"token"}"#);
        assert_eq!(text(&next), text(&state));
        match wait {
            SetupStep::Wait { retry_ms, .. } => assert_eq!(retry_ms, expected, "{}", interval),
            _ => panic!("no pause"),
        }
    }
}

#[test]
fn an_empty_account_offers_nothing() {
    let state = json(r#"{"stage":"listing"}"#);
    for input in [r#"{"note":"list"}"#, r#"{"note":"list","response":{"thermostatList":[]}}"#] {
        let (choice, next) = step(&state, input);
        assert!(offered(choice).is_empty());
        assert_eq!(text(&next), "null");
    }
}

#[test]
fn a_key_can_be_entered_again_at_any_dead_end() {
    let (again, next) = step(&json(r#"{"stage":"authorizing","api_key":"old"}"#), r#"{"api_key":"new"}"#);
    assert_eq!(fetch(&again).1, "authorize");
    assert_eq!(text(&next), r#"{"api_key":"new","stage":"authorizing"}"#);
}

#[test]
fn replies_without_an_interval_or_a_refresh_token_go_through() {
    let (_, state) = step(&Json::null(), r#"{"api_key":"key"}"#);
    let (_, state) =
        step(&state, r#"{"note":"authorize","response":{"ecobeePin":"p","code":"c","interval":"12"}}"#);
    assert_eq!(text(&state), r#"{"api_key":"key","code":"c","interval":30,"stage":"pending"}"#);
    let (asked, state) = step(&state, "{}");
    assert_eq!(
        fetch(&asked).0,
        "POST https://api.ecobee.com/token?grant_type=ecobeePin&code=c&client_id=key"
    );
    let (_, state) = step(&state, r#"{"note":"token","response":{"access_token":"acc"}}"#);
    assert_eq!(text(&state), r#"{"api_key":"key","refresh_token":"","stage":"listing"}"#);
    let (last, _) = step(
        &state,
        r#"{"note":"list","response":{"thermostatList":[{"identifier":"411"}]}}"#,
    );
    assert_eq!(
        offered(last).iter().map(describe).collect::<Vec<_>>(),
        vec![r#"411 thermostat ecobee.thermostat {"API key":"key","Refresh token":"","Thermostat identifier":"411"}"#]
    );
}
