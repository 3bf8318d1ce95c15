//! What each step of the wizard asks, read out of its state and of what it is given.

use vstd::prelude::*;

use crate::command_laws::{documents_say_what_they_are_given, selects_all};
use crate::documents::registered_selection;
use crate::encode::compact_text;
use crate::json::{at, JsonView};
use crate::setup::{
    discover, failure_step, list_step, offers, retry_ms, sensor_offers, thermostat_offer, CandidateView, FieldView,
    SetupStepView,
};

verus! {

/// The text of a value, or an empty one.
pub open spec fn text_of(v: JsonView) -> Seq<char> {
    match v {
        JsonView::Str(text) => text,
        _ => Seq::empty(),
    }
}

/// Whether a sensor can be adopted: it has an id, and is not built into its thermostat.
pub open spec fn is_adoptable_sensor() -> spec_fn(JsonView) -> bool {
    |s: JsonView| s.at("id"@) is Str && s.at("type"@) != JsonView::Str("thermostat"@)
}

/// Whether a thermostat can be adopted: it has an identifier.
pub open spec fn is_adoptable_thermostat() -> spec_fn(JsonView) -> bool {
    |t: JsonView| t.at("identifier"@) is Str
}

/// The candidate of a sensor: it goes by its name, or else its id, and names its thermostat.
pub open spec fn as_sensor(id: Seq<char>) -> spec_fn(JsonView) -> CandidateView {
    |s: JsonView|
        CandidateView {
            label: text_of(if s.at("name"@) is Str { s.at("name"@) } else { s.at("id"@) }),
            kind: "sensor"@,
            driver_id: "ecobee.remote_sensor"@,
            properties: map![
                "Thermostat identifier"@ => JsonView::Str(id),
                "Sensor id"@ => s.at("id"@),
            ],
            verified: "confirmed by the ecobee API"@,
        }
}

/// The candidate of a thermostat: it goes by its name, or else its identifier, and carries the
/// credentials of the account.
pub open spec fn as_thermostat(t: JsonView, key: Seq<char>, refresh: Seq<char>) -> CandidateView {
    CandidateView {
        label: text_of(if t.at("name"@) is Str { t.at("name"@) } else { t.at("identifier"@) }),
        kind: "thermostat"@,
        driver_id: "ecobee.thermostat"@,
        properties: map![
            "API key"@ => JsonView::Str(key),
            "Refresh token"@ => JsonView::Str(refresh),
            "Thermostat identifier"@ => t.at("identifier"@),
        ],
        verified: "confirmed by the ecobee API"@,
    }
}

/// The sensors of a thermostat that can be adopted, in their order.
pub open spec fn adoptable_sensors(t: JsonView) -> Seq<CandidateView> {
    match t.at("remoteSensors"@) {
        JsonView::Array(sensors) => sensors.filter(is_adoptable_sensor()).map_values(
            as_sensor(text_of(t.at("identifier"@))),
        ),
        _ => Seq::empty(),
    }
}

/// A thermostat, and then its sensors.
pub open spec fn household(key: Seq<char>, refresh: Seq<char>) -> spec_fn(JsonView) -> Seq<
    CandidateView,
> {
    |t: JsonView| seq![as_thermostat(t, key, refresh)] + adoptable_sensors(t)
}

proof fn lemma_sensors_in_order(sensors: Seq<JsonView>, id: Seq<char>)
    ensures
        sensor_offers(sensors, id) == sensors.filter(is_adoptable_sensor()).map_values(
            as_sensor(id),
        ),
    decreases sensors.len(),
{
    reveal(Seq::filter);
    let p = is_adoptable_sensor();
    let f = as_sensor(id);
    if sensors.len() == 0 {
        assert(sensors.filter(p).map_values(f) =~= Seq::empty());
    } else {
        let rest = sensors.drop_last();
        let s = sensors.last();
        lemma_sensors_in_order(rest, id);
        if p(s) {
            assert(sensors.filter(p) == rest.filter(p).push(s));
            assert(rest.filter(p).push(s).map_values(f) =~= rest.filter(p).map_values(f) + seq![
                f(s),
            ]);
        } else {
            assert(sensors.filter(p) == rest.filter(p));
            assert(sensor_offers(sensors, id) =~= sensor_offers(rest, id));
        }
    }
}

proof fn lemma_household(t: JsonView, key: Seq<char>, refresh: Seq<char>)
    ensures
        is_adoptable_thermostat()(t) ==> thermostat_offer(t, key, refresh) == household(
            key,
            refresh,
        )(t),
        !is_adoptable_thermostat()(t) ==> thermostat_offer(t, key, refresh) == Seq::<
            CandidateView,
        >::empty(),
{
    match (t.at("identifier"@), t.at("remoteSensors"@)) {
        (JsonView::Str(id), JsonView::Array(sensors)) => {
            lemma_sensors_in_order(sensors, id);
        },
        _ => {},
    }
}

proof fn lemma_households_in_order(list: Seq<JsonView>, key: Seq<char>, refresh: Seq<char>)
    ensures
        offers(list, key, refresh) == list.filter(is_adoptable_thermostat()).map_values(
            household(key, refresh),
        ).flatten(),
    decreases list.len(),
{
    reveal(Seq::filter);
    let p = is_adoptable_thermostat();
    let f = household(key, refresh);
    if list.len() == 0 {
        assert(list.filter(p).map_values(f) =~= Seq::empty());
    } else {
        let rest = list.drop_last();
        let t = list.last();
        lemma_households_in_order(rest, key, refresh);
        lemma_household(t, key, refresh);
        let found = rest.filter(p).map_values(f);
        if p(t) {
            assert(list.filter(p) == rest.filter(p).push(t));
            assert(rest.filter(p).push(t).map_values(f) =~= found.push(f(t)));
            found.push(f(t)).lemma_flatten_and_flatten_alt_are_equivalent();
            found.lemma_flatten_and_flatten_alt_are_equivalent();
            assert(found.push(f(t)).drop_last() =~= found);
            assert(found.push(f(t)).last() == f(t));
        } else {
            assert(list.filter(p) == rest.filter(p));
            assert(offers(list, key, refresh) =~= offers(rest, key, refresh));
        }
    }
}

/// The listing stage offers every thermostat of the account that has an identifier, each followed
/// by those of its sensors that have an id and are not built in, in the order of the list, and
/// nothing else; the wizard is then done.
pub proof fn listing_offers_all_in_order(state: JsonView, input: Map<Seq<char>, JsonView>)
    requires
        state.at("stage"@) == JsonView::Str("listing"@),
        at(input, "note"@) == JsonView::Str("list"@),
    ensures
        ({
            let key = text_of(state.at("api_key"@));
            let refresh = text_of(state.at("refresh_token"@));
            discover(state, input) == (
                SetupStepView::Choose {
                    title: "Add these ecobee devices"@,
                    body: Seq::empty(),
                    options: match at(input, "response"@).at("thermostatList"@) {
                        JsonView::Array(list) => list.filter(is_adoptable_thermostat()).map_values(
                            household(key, refresh),
                        ).flatten(),
                        _ => Seq::empty(),
                    },
                    multiple: true,
                },
                JsonView::Null,
            )
        }),
{
    lemma_stages_differ();
    match at(input, "response"@).at("thermostatList"@) {
        JsonView::Array(list) => {
            lemma_households_in_order(
                list,
                text_of(state.at("api_key"@)),
                text_of(state.at("refresh_token"@)),
            );
        },
        _ => {},
    }
}

proof fn lemma_stages_differ()
    ensures
        "authorizing"@ != "pending"@,
        "authorizing"@ != "listing"@,
        "pending"@ != "listing"@,
{
    reveal_strlit("authorizing");
    reveal_strlit("pending");
    reveal_strlit("listing");
    assert("authorizing"@.len() == 11);
    assert("pending"@.len() == 7);
    assert("listing"@.len() == 7);
    assert("pending"@[0] != "listing"@[0]);
}

/// A request for the host to send and to come back with.
pub open spec fn fetches(
    step: SetupStepView,
    method: Seq<char>,
    url: Seq<char>,
    headers: Seq<(Seq<char>, Seq<char>)>,
    note: Seq<char>,
) -> bool {
    &&& step is Fetch
    &&& step->request.method == method
    &&& step->request.url == url
    &&& step->request.json is None
    &&& step->request.headers == headers
    &&& step->Fetch_note == note
}

/// Before anything is known, and wherever a stage is not met by its own reply, the wizard asks for
/// a key, and with one it asks ecobee for a PIN.
pub proof fn wizard_starts_with_a_key(state: JsonView, input: Map<Seq<char>, JsonView>)
    requires
        state.at("stage"@) != JsonView::Str("pending"@),
        state.at("stage"@) == JsonView::Str("authorizing"@) ==> at(input, "note"@)
            != JsonView::Str("authorize"@),
        state.at("stage"@) == JsonView::Str("listing"@) ==> at(input, "note"@)
            != JsonView::Str("list"@),
    ensures
        ({
            let (step, next) = discover(state, input);
            match at(input, "api_key"@) {
                JsonView::Str(key) => {
                    &&& fetches(
                        step,
                        "GET"@,
                        "https://api.ecobee.com/authorize"@ + "?response_type=ecobeePin&client_id="@
                            + key + "&scope=smartWrite"@,
                        Seq::empty(),
                        "authorize"@,
                    )
                    &&& next == JsonView::Object(
                        map![
                            "stage"@ => JsonView::Str("authorizing"@),
                            "api_key"@ => JsonView::Str(key),
                        ],
                    )
                },
                _ => {
                    &&& step is Form
                    &&& step->Form_title == "Connect an ecobee account"@
                    &&& step->fields == seq![
                        FieldView {
                            name: "api_key"@,
                            label: "API key"@,
                            kind: "password"@,
                            help: "From the ecobee developer portal"@,
                            default: None,
                            options: Seq::empty(),
                            required: true,
                        },
                    ]
                    &&& step->Form_body
                        == "Create an app at ecobee.com/developer (Add Application \u{2192} My apps) to get an API key."@
                    &&& next == JsonView::Object(map!["stage"@ => JsonView::Str("start"@)])
                },
            }
        }),
{
}

/// The PIN of the reply is shown, and the key, the code and the interval of the reply go on to the
/// next stage. A reply without a PIN or a code is a failure.
pub proof fn wizard_shows_the_pin(state: JsonView, input: Map<Seq<char>, JsonView>)
    requires
        state.at("stage"@) == JsonView::Str("authorizing"@),
        at(input, "note"@) == JsonView::Str("authorize"@),
    ensures
        ({
            let reply = at(input, "response"@);
            let (step, next) = discover(state, input);
            match (reply.at("ecobeePin"@), reply.at("code"@)) {
                (JsonView::Str(pin), JsonView::Str(code)) => {
                    &&& step == (SetupStepView::Instruct {
                        title: "Authorize Juno on ecobee.com"@,
                        body: "On the ecobee web portal, open Menu \u{2192} My Apps \u{2192} Add Application, and enter this PIN:\n\n"@
                            + pin + "\n\nThen come back and continue."@,
                        continue_label: "I've entered the PIN"@,
                    })
                    &&& next == JsonView::Object(
                        map![
                            "stage"@ => JsonView::Str("pending"@),
                            "api_key"@ => JsonView::Str(text_of(state.at("api_key"@))),
                            "code"@ => JsonView::Str(code),
                            "interval"@ => next.at("interval"@),
                        ],
                    )
                    &&& next.at("interval"@).as_i64() == Some(
                        match reply.at("interval"@).as_i64() {
                            Some(seconds) => seconds,
                            None => 30,
                        },
                    )
                },
                _ => {
                    &&& step == (SetupStepView::Instruct {
                        title: "Could not connect to ecobee"@,
                        body: "ecobee did not return a PIN \u{2014} check the API key"@,
                        continue_label: "Try again"@,
                    })
                    &&& next == JsonView::Null
                },
            }
        }),
{
    lemma_stages_differ();
}

/// While the PIN is to be entered, the wizard asks for tokens with the code and the key of its
/// state, which stays as it is.
pub proof fn wizard_asks_for_tokens(state: JsonView, input: Map<Seq<char>, JsonView>)
    requires
        state.at("stage"@) == JsonView::Str("pending"@),
        at(input, "note"@) != JsonView::Str("token"@),
    ensures
        discover(state, input).1 == state,
        fetches(
            discover(state, input).0,
            "POST"@,
            "https://api.ecobee.com/token"@ + "?grant_type=ecobeePin&code="@ + text_of(
                state.at("code"@),
            ) + "&client_id="@ + text_of(state.at("api_key"@)),
            Seq::empty(),
            "token"@,
        ),
{
    lemma_stages_differ();
}

/// With tokens the account is listed, and the key and the refresh token go on to the next stage;
/// without an access token the wizard waits, and its state stays as it is.
pub proof fn wizard_lists_or_waits(state: JsonView, input: Map<Seq<char>, JsonView>) -> (doc:
    JsonView)
    requires
        state.at("stage"@) == JsonView::Str("pending"@),
        at(input, "note"@) == JsonView::Str("token"@),
    ensures
        selects_all(doc),
        ({
            let reply = at(input, "response"@);
            let (step, next) = discover(state, input);
            match reply.at("access_token"@) {
                JsonView::Str(access) => {
                    &&& fetches(
                        step,
                        "GET"@,
                        "https://api.ecobee.com/1/thermostat"@ + "?json="@ + compact_text(doc),
                        seq![("authorization"@, "Bearer "@ + access)],
                        "list"@,
                    )
                    &&& next == JsonView::Object(
                        map![
                            "stage"@ => JsonView::Str("listing"@),
                            "api_key"@ => JsonView::Str(text_of(state.at("api_key"@))),
                            "refresh_token"@ => JsonView::Str(text_of(reply.at("refresh_token"@))),
                        ],
                    )
                },
                _ => {
                    &&& step == (SetupStepView::Wait {
                        title: "Waiting for the PIN to be entered on ecobee.com"@,
                        body: Seq::empty(),
                        retry_ms: retry_ms(state.at("interval"@).as_i64()),
                    })
                    &&& next == state
                },
            }
        }),
{
    lemma_stages_differ();
    documents_say_what_they_are_given(Seq::empty(), Seq::empty());
    match at(input, "response"@).at("access_token"@) {
        JsonView::Str(access) => {
            assert(discover(state, input).0->request.headers =~= seq![
                ("authorization"@, "Bearer "@ + access),
            ]);
        },
        _ => {},
    }
    registered_selection()
}

/// The pause is a thousand milliseconds for each second of the interval, of at least five, up to
/// a multiple of `2^32`; without an interval it is half a minute.
pub proof fn pause_follows_the_interval(interval: i64)
    ensures
        retry_ms(None) == 30_000,
        interval <= 5 ==> retry_ms(Some(interval)) == 5_000,
        interval > 5 ==> (retry_ms(Some(interval)) - 1000 * interval) % 0x1_0000_0000 == 0,
{
    if interval > 5 {
        let m: int = 0x1_0000_0000;
        let low = interval as int % m;
        let q = interval as int / m;
        let r = (low * 1000) / m;
        assert(interval == m * q + low);
        assert(low * 1000 == m * r + (low * 1000) % m);
        assert(retry_ms(Some(interval)) - 1000 * interval == m * (-r - 1000 * q));
    }
}

/// Any failure is shown with its message, and any account is listed with its token.
pub proof fn steps_show_what_they_are_given(text: Seq<char>, access: Seq<char>)
    ensures
        failure_step(text) == (SetupStepView::Instruct {
            title: "Could not connect to ecobee"@,
            body: text,
            continue_label: "Try again"@,
        }),
        fetches(
            list_step(access, text),
            "GET"@,
            "https://api.ecobee.com/1/thermostat"@ + "?json="@ + text,
            seq![("authorization"@, "Bearer "@ + access)],
            "list"@,
        ),
{
    assert(list_step(access, text)->request.headers =~= seq![
        ("authorization"@, "Bearer "@ + access),
    ]);
}

} // verus!
