//! The documents that the ecobee API is sent.

use vstd::prelude::*;

use crate::encode::{boolean_value, compact_text, content, empty_object, integer_value, list_of_one, put, string_value, to_text};
use crate::json::JsonView;

verus! {

/// The members that pick one thermostat.
pub open spec fn one_thermostat(id: Seq<char>) -> Map<Seq<char>, JsonView> {
    map![
        "selectionType"@ => JsonView::Str("thermostats"@),
        "selectionMatch"@ => JsonView::Str(id),
    ]
}

/// The parameters of a hold: both setpoints, in tenths of a degree Fahrenheit, and a fan mode
/// where one is asked for.
pub open spec fn hold_params(
    hold_type: Seq<char>,
    heat: i64,
    cool: i64,
    fan: Option<Seq<char>>,
) -> Map<Seq<char>, JsonView> {
    let temperatures =
        map![
        "holdType"@ => JsonView::Str(hold_type),
        "heatHoldTemp"@ => JsonView::integer(heat),
        "coolHoldTemp"@ => JsonView::integer(cool),
    ];
    match fan {
        Some(mode) => temperatures.insert("fan"@, JsonView::Str(mode)),
        None => temperatures,
    }
}

/// One function to run on one thermostat.
pub open spec fn function_body(
    id: Seq<char>,
    function: Seq<char>,
    params: Map<Seq<char>, JsonView>,
) -> JsonView {
    JsonView::Object(
        map![
            "selection"@ => JsonView::Object(one_thermostat(id)),
            "functions"@ => JsonView::Array(seq![
                JsonView::Object(map![
                    "type"@ => JsonView::Str(function),
                    "params"@ => JsonView::Object(params),
                ]),
            ]),
        ],
    )
}

/// A hold on one thermostat.
pub open spec fn hold_body(
    id: Seq<char>,
    hold_type: Seq<char>,
    heat: i64,
    cool: i64,
    fan: Option<Seq<char>>,
) -> JsonView {
    function_body(id, "setHold"@, hold_params(hold_type, heat, cool, fan))
}

/// The end of a hold.
pub open spec fn resume_body(id: Seq<char>) -> JsonView {
    function_body(id, "resumeProgram"@, map!["resumeAll"@ => JsonView::Bool(false)])
}

/// A change of the heating and cooling mode.
pub open spec fn mode_body(id: Seq<char>, mode: Seq<char>) -> JsonView {
    JsonView::Object(
        map![
            "selection"@ => JsonView::Object(one_thermostat(id)),
            "thermostat"@ => JsonView::Object(map![
                "settings"@ => JsonView::Object(map![
                    "hvacMode"@ => JsonView::Str(mode),
                ]),
            ]),
        ],
    )
}

/// Everything that a poll of one thermostat asks for.
pub open spec fn poll_selection(id: Seq<char>) -> JsonView {
    JsonView::Object(
        map![
            "selection"@ => JsonView::Object(
                one_thermostat(id)
                    .insert("includeRuntime"@, JsonView::Bool(true))
                    .insert("includeSettings"@, JsonView::Bool(true))
                    .insert("includeSensors"@, JsonView::Bool(true)),
            ),
        ],
    )
}

/// Every thermostat on the account, with its sensors.
pub open spec fn registered_selection() -> JsonView {
    JsonView::Object(
        map![
            "selection"@ => JsonView::Object(map![
                "selectionType"@ => JsonView::Str("registered"@),
                "includeSensors"@ => JsonView::Bool(true),
            ]),
        ],
    )
}

fn one_thermostat_value(id: &str) -> (r: serde_json::Value)
    ensures
        content(r) == JsonView::Object(one_thermostat(id@)),
{
    let mut selection = empty_object();
    put(&mut selection, "selectionType", string_value("thermostats"));
    put(&mut selection, "selectionMatch", string_value(id));
    selection
}

fn function_text(id: &str, function: &str, params: serde_json::Value) -> (text: String)
    requires
        content(params) is Object,
    ensures
        text@ == compact_text(function_body(id@, function@, content(params)->Object_0)),
{
    let mut call = empty_object();
    put(&mut call, "type", string_value(function));
    put(&mut call, "params", params);
    let mut body = empty_object();
    put(&mut body, "selection", one_thermostat_value(id));
    put(&mut body, "functions", list_of_one(call));
    to_text(&body)
}

/// Writes a hold.
pub fn hold_text(id: &str, hold_type: &str, heat: i64, cool: i64, fan: Option<&str>) -> (text: String)
    ensures
        text@ == compact_text(hold_body(id@, hold_type@, heat, cool, fan.deep_view())),
{
    let mut params = empty_object();
    put(&mut params, "holdType", string_value(hold_type));
    put(&mut params, "heatHoldTemp", integer_value(heat));
    put(&mut params, "coolHoldTemp", integer_value(cool));
    match fan {
        Some(mode) => put(&mut params, "fan", string_value(mode)),
        None => {},
    }
    function_text(id, "setHold", params)
}

/// Writes the end of a hold.
pub fn resume_text(id: &str) -> (text: String)
    ensures
        text@ == compact_text(resume_body(id@)),
{
    let mut params = empty_object();
    put(&mut params, "resumeAll", boolean_value(false));
    function_text(id, "resumeProgram", params)
}

/// Writes a change of mode.
pub fn mode_text(id: &str, mode: &str) -> (text: String)
    ensures
        text@ == compact_text(mode_body(id@, mode@)),
{
    let mut settings = empty_object();
    put(&mut settings, "hvacMode", string_value(mode));
    let mut thermostat = empty_object();
    put(&mut thermostat, "settings", settings);
    let mut body = empty_object();
    put(&mut body, "selection", one_thermostat_value(id));
    put(&mut body, "thermostat", thermostat);
    to_text(&body)
}

/// Writes what a poll of one thermostat asks for.
pub fn poll_text(id: &str) -> (text: String)
    ensures
        text@ == compact_text(poll_selection(id@)),
{
    let mut selection = one_thermostat_value(id);
    put(&mut selection, "includeRuntime", boolean_value(true));
    put(&mut selection, "includeSettings", boolean_value(true));
    put(&mut selection, "includeSensors", boolean_value(true));
    let mut body = empty_object();
    put(&mut body, "selection", selection);
    to_text(&body)
}

/// Writes the selection of every thermostat on the account.
pub fn registered_text() -> (text: String)
    ensures
        text@ == compact_text(registered_selection()),
{
    let mut selection = empty_object();
    put(&mut selection, "selectionType", string_value("registered"));
    put(&mut selection, "includeSensors", boolean_value(true));
    let mut body = empty_object();
    put(&mut body, "selection", selection);
    to_text(&body)
}

} // verus!
