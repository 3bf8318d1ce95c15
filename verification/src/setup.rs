//! The ecobee PIN authorization wizard: from a developer's API key to the devices on the account.

use vstd::prelude::*;

use crate::auth::{token_url, write_token_url};
use crate::documents::{registered_selection, registered_text};
use crate::encode::compact_text;
use crate::host::{or_empty, HttpRequest, HttpRequestView};
use crate::json::{at, Json, JsonView, Object};
use crate::text::{join, same};
use crate::thermostat::{EcobeeThermostat, API};

verus! {

/// Where a PIN is asked for.
pub const AUTHORIZE_API: &'static str = "https://api.ecobee.com/authorize";

/// Something for the installer to fill in.
pub struct Field {
    pub name: String,
    pub label: String,
    pub kind: String,
    pub help: String,
    pub default: Option<String>,
    pub options: Vec<String>,
    pub required: bool,
}

#[verifier::ext_equal]
pub struct FieldView {
    pub name: Seq<char>,
    pub label: Seq<char>,
    pub kind: Seq<char>,
    pub help: Seq<char>,
    pub default: Option<Seq<char>>,
    pub options: Seq<Seq<char>>,
    pub required: bool,
}

impl View for Field {
    type V = FieldView;

    open spec fn view(&self) -> FieldView {
        FieldView {
            name: self.name@,
            label: self.label@,
            kind: self.kind@,
            help: self.help@,
            default: self.default.deep_view(),
            options: self.options.deep_view(),
            required: self.required,
        }
    }
}

impl DeepView for Field {
    type V = FieldView;

    open spec fn deep_view(&self) -> FieldView {
        self@
    }
}

/// A device that can be adopted.
pub struct Candidate {
    pub label: String,
    pub kind: String,
    pub driver_id: String,
    pub properties: Object,
    pub verified: String,
}

#[verifier::ext_equal]
pub struct CandidateView {
    pub label: Seq<char>,
    pub kind: Seq<char>,
    pub driver_id: Seq<char>,
    pub properties: Map<Seq<char>, JsonView>,
    pub verified: Seq<char>,
}

impl View for Candidate {
    type V = CandidateView;

    open spec fn view(&self) -> CandidateView {
        CandidateView {
            label: self.label@,
            kind: self.kind@,
            driver_id: self.driver_id@,
            properties: self.properties@,
            verified: self.verified@,
        }
    }
}

impl DeepView for Candidate {
    type V = CandidateView;

    open spec fn deep_view(&self) -> CandidateView {
        self@
    }
}

/// One step of the wizard.
pub enum SetupStep {
    /// Fill something in.
    Form { title: String, body: String, fields: Vec<Field> },
    /// Do something, then continue.
    Instruct { title: String, body: String, continue_label: String },
    /// Send a request, and come back with its response under the note.
    Fetch { request: HttpRequest, note: String },
    /// Try again later.
    Wait { title: String, body: String, retry_ms: u32 },
    /// Pick among devices.
    Choose { title: String, body: String, options: Vec<Candidate>, multiple: bool },
}

#[verifier::ext_equal]
pub enum SetupStepView {
    Form { title: Seq<char>, body: Seq<char>, fields: Seq<FieldView> },
    Instruct { title: Seq<char>, body: Seq<char>, continue_label: Seq<char> },
    Fetch { request: HttpRequestView, note: Seq<char> },
    Wait { title: Seq<char>, body: Seq<char>, retry_ms: u32 },
    Choose { title: Seq<char>, body: Seq<char>, options: Seq<CandidateView>, multiple: bool },
}

impl View for SetupStep {
    type V = SetupStepView;

    open spec fn view(&self) -> SetupStepView {
        match self {
            SetupStep::Form { title, body, fields } => SetupStepView::Form {
                title: title@,
                body: body@,
                fields: fields.deep_view(),
            },
            SetupStep::Instruct { title, body, continue_label } => SetupStepView::Instruct {
                title: title@,
                body: body@,
                continue_label: continue_label@,
            },
            SetupStep::Fetch { request, note } => SetupStepView::Fetch {
                request: request@,
                note: note@,
            },
            SetupStep::Wait { title, body, retry_ms } => SetupStepView::Wait {
                title: title@,
                body: body@,
                retry_ms: *retry_ms,
            },
            SetupStep::Choose { title, body, options, multiple } => SetupStepView::Choose {
                title: title@,
                body: body@,
                options: options.deep_view(),
                multiple: *multiple,
            },
        }
    }
}

/// The form that asks for the API key.
pub open spec fn api_key_form() -> SetupStepView {
    SetupStepView::Form {
        title: "Connect an ecobee account"@,
        body: "Create an app at ecobee.com/developer (Add Application \u{2192} My apps) to get an API key."@,
        fields: seq![
            FieldView {
                name: "api_key"@,
                label: "API key"@,
                kind: "password"@,
                help: "From the ecobee developer portal"@,
                default: None,
                options: Seq::empty(),
                required: true,
            },
        ],
    }
}

/// The step that says what went wrong.
pub open spec fn failure_step(message: Seq<char>) -> SetupStepView {
    SetupStepView::Instruct {
        title: "Could not connect to ecobee"@,
        body: message,
        continue_label: "Try again"@,
    }
}

/// The step that shows the PIN.
pub open spec fn pin_step(pin: Seq<char>) -> SetupStepView {
    SetupStepView::Instruct {
        title: "Authorize Juno on ecobee.com"@,
        body: "On the ecobee web portal, open Menu \u{2192} My Apps \u{2192} Add Application, and enter this PIN:\n\n"@
            + pin + "\n\nThen come back and continue."@,
        continue_label: "I've entered the PIN"@,
    }
}

/// The step that asks for a PIN.
pub open spec fn authorize_step(key: Seq<char>) -> SetupStepView {
    SetupStepView::Fetch {
        request: HttpRequestView::new(
            "GET"@,
            AUTHORIZE_API@ + "?response_type=ecobeePin&client_id="@ + key + "&scope=smartWrite"@,
        ),
        note: "authorize"@,
    }
}

/// The step that exchanges the code that came with the PIN for tokens.
pub open spec fn token_step(code: Seq<char>, key: Seq<char>) -> SetupStepView {
    SetupStepView::Fetch {
        request: HttpRequestView::new(
            "POST"@,
            token_url("?grant_type=ecobeePin&code="@, code, key),
        ),
        note: "token"@,
    }
}

/// The step that lists what is on the account, given the text of the selection.
pub open spec fn list_step(access: Seq<char>, selection: Seq<char>) -> SetupStepView {
    SetupStepView::Fetch {
        request: HttpRequestView::new("GET"@, API@ + "?json="@ + selection).with_header(
            "authorization"@,
            "Bearer "@ + access,
        ),
        note: "list"@,
    }
}

/// The pause until the token is asked for again, in milliseconds: the interval in seconds, but
/// at least five, reduced to thirty-two bits before and after the product.
pub open spec fn retry_ms(interval: Option<i64>) -> u32 {
    let seconds = match interval {
        Some(i) => i,
        None => 30,
    };
    let at_least: int = if seconds < 5 {
        5
    } else {
        seconds as int
    };
    ((at_least % 0x1_0000_0000) * 1000 % 0x1_0000_0000) as u32
}

/// The step that waits for the PIN to be entered.
pub open spec fn wait_step(interval: Option<i64>) -> SetupStepView {
    SetupStepView::Wait {
        title: "Waiting for the PIN to be entered on ecobee.com"@,
        body: Seq::empty(),
        retry_ms: retry_ms(interval),
    }
}

/// A thermostat on offer.
pub open spec fn thermostat_candidate(
    t: JsonView,
    id: Seq<char>,
    key: Seq<char>,
    refresh: Seq<char>,
) -> CandidateView {
    CandidateView {
        label: match t.at("name"@).as_str() {
            Some(name) => name,
            None => id,
        },
        kind: "thermostat"@,
        driver_id: "ecobee.thermostat"@,
        properties: map![
            "API key"@ => JsonView::Str(key),
            "Refresh token"@ => JsonView::Str(refresh),
            "Thermostat identifier"@ => JsonView::Str(id),
        ],
        verified: "confirmed by the ecobee API"@,
    }
}

/// A sensor on offer.
pub open spec fn sensor_candidate(s: JsonView, id: Seq<char>, sid: Seq<char>) -> CandidateView {
    CandidateView {
        label: match s.at("name"@).as_str() {
            Some(name) => name,
            None => sid,
        },
        kind: "sensor"@,
        driver_id: "ecobee.remote_sensor"@,
        properties: map![
            "Thermostat identifier"@ => JsonView::Str(id),
            "Sensor id"@ => JsonView::Str(sid),
        ],
        verified: "confirmed by the ecobee API"@,
    }
}

/// What one sensor of a thermostat adds to the offer. The built-in sensor ships as part of the
/// thermostat itself, not as something separate to adopt.
pub open spec fn sensor_offer(s: JsonView, id: Seq<char>) -> Seq<CandidateView> {
    match s.at("id"@).as_str() {
        Some(sid) if s.at("type"@).as_str() != Some("thermostat"@) => seq![
            sensor_candidate(s, id, sid),
        ],
        _ => Seq::empty(),
    }
}

/// What the sensors of a thermostat add to the offer, in their order.
pub open spec fn sensor_offers(sensors: Seq<JsonView>, id: Seq<char>) -> Seq<CandidateView>
    decreases sensors.len(),
{
    if sensors.len() == 0 {
        Seq::empty()
    } else {
        sensor_offers(sensors.drop_last(), id) + sensor_offer(sensors.last(), id)
    }
}

/// What one thermostat adds to the offer: itself, then its sensors.
pub open spec fn thermostat_offer(t: JsonView, key: Seq<char>, refresh: Seq<char>) -> Seq<
    CandidateView,
> {
    match t.at("identifier"@).as_str() {
        Some(id) => seq![thermostat_candidate(t, id, key, refresh)] + (match t.at(
            "remoteSensors"@,
        ).as_array() {
            Some(sensors) => sensor_offers(sensors, id),
            None => Seq::empty(),
        }),
        None => Seq::empty(),
    }
}

/// The offer: every thermostat with its sensors, in the order of the list.
pub open spec fn offers(list: Seq<JsonView>, key: Seq<char>, refresh: Seq<char>) -> Seq<
    CandidateView,
>
    decreases list.len(),
{
    if list.len() == 0 {
        Seq::empty()
    } else {
        offers(list.drop_last(), key, refresh) + thermostat_offer(list.last(), key, refresh)
    }
}

/// The step that offers what is on the account.
pub open spec fn choose_step(list: Option<Seq<JsonView>>, key: Seq<char>, refresh: Seq<char>) -> SetupStepView {
    SetupStepView::Choose {
        title: "Add these ecobee devices"@,
        body: Seq::empty(),
        options: match list {
            Some(thermostats) => offers(thermostats, key, refresh),
            None => Seq::empty(),
        },
        multiple: true,
    }
}

/// The state before a key is known.
pub open spec fn start_state() -> JsonView {
    JsonView::Object(map!["stage"@ => JsonView::Str("start"@)])
}

/// The state while a PIN is asked for.
pub open spec fn authorizing_state(key: Seq<char>) -> JsonView {
    JsonView::Object(
        map!["stage"@ => JsonView::Str("authorizing"@), "api_key"@ => JsonView::Str(key)],
    )
}

/// The state while the PIN is to be entered.
pub open spec fn pending_state(key: Seq<char>, code: Seq<char>, interval: i64) -> JsonView {
    JsonView::Object(
        map![
            "stage"@ => JsonView::Str("pending"@),
            "api_key"@ => JsonView::Str(key),
            "code"@ => JsonView::Str(code),
            "interval"@ => JsonView::integer(interval),
        ],
    )
}

/// The state while the account is listed.
pub open spec fn listing_state(key: Seq<char>, refresh: Seq<char>) -> JsonView {
    JsonView::Object(
        map![
            "stage"@ => JsonView::Str("listing"@),
            "api_key"@ => JsonView::Str(key),
            "refresh_token"@ => JsonView::Str(refresh),
        ],
    )
}

/// The step after ecobee was asked for a PIN.
pub open spec fn after_authorize(key: Seq<char>, response: JsonView) -> (SetupStepView, JsonView) {
    match (response.at("ecobeePin"@).as_str(), response.at("code"@).as_str()) {
        (Some(pin), Some(code)) => (
            pin_step(pin),
            pending_state(
                key,
                code,
                match response.at("interval"@).as_i64() {
                    Some(interval) => interval,
                    None => 30,
                },
            ),
        ),
        _ => (
            failure_step("ecobee did not return a PIN \u{2014} check the API key"@),
            JsonView::Null,
        ),
    }
}

/// The step after ecobee was asked for tokens.
pub open spec fn after_token(key: Seq<char>, state: JsonView, response: JsonView) -> (
    SetupStepView,
    JsonView,
) {
    match response.at("access_token"@).as_str() {
        Some(access) => (
            list_step(access, compact_text(registered_selection())),
            listing_state(key, or_empty(response.at("refresh_token"@).as_str())),
        ),
        None => (wait_step(state.at("interval"@).as_i64()), state),
    }
}

/// The next step of the wizard, and the state that goes with it.
pub open spec fn discover(state: JsonView, input: Map<Seq<char>, JsonView>) -> (
    SetupStepView,
    JsonView,
) {
    let stage = state.at("stage"@).as_str();
    let note = at(input, "note"@).as_str();
    let key = or_empty(state.at("api_key"@).as_str());
    let response = at(input, "response"@);
    if stage == Some("authorizing"@) && note == Some("authorize"@) {
        after_authorize(key, response)
    } else if stage == Some("pending"@) && note != Some("token"@) {
        (token_step(or_empty(state.at("code"@).as_str()), key), state)
    } else if stage == Some("pending"@) {
        after_token(key, state, response)
    } else if stage == Some("listing"@) && note == Some("list"@) {
        (
            choose_step(
                response.at("thermostatList"@).as_array(),
                key,
                or_empty(state.at("refresh_token"@).as_str()),
            ),
            JsonView::Null,
        )
    } else {
        match at(input, "api_key"@).as_str() {
            Some(entered) => (authorize_step(entered), authorizing_state(entered)),
            None => (api_key_form(), start_state()),
        }
    }
}

/// The text of the member with a name, or an empty one.
fn text_or_empty<'a>(value: &'a Json, name: &str) -> (r: &'a str)
    ensures
        r@ == or_empty(value@.at(name@).as_str()),
{
    match value.str_at(name) {
        Some(s) => s,
        None => {
            proof {
                reveal_strlit("");
                assert(""@ =~= Seq::empty());
            }
            ""
        },
    }
}

/// Whether a text is there and says this.
fn says(text: Option<&str>, this: &str) -> (r: bool)
    ensures
        r == (text.deep_view() == Some(this@)),
{
    match text {
        Some(s) => same(s, this),
        None => false,
    }
}

/// An object with a stage.
fn staged(stage: &str) -> (r: Object)
    ensures
        r@ == Map::<Seq<char>, JsonView>::empty().insert("stage"@, JsonView::Str(stage@)),
{
    let mut o = Object::new();
    o.insert("stage", Json::text(stage));
    o
}

/// The pause until the token is asked for again.
fn pause(interval: Option<i64>) -> (r: u32)
    ensures
        r == retry_ms(interval),
{
    let seconds: i64 = match interval {
        Some(i) => i,
        None => 30,
    };
    let at_least: i64 = if seconds < 5 {
        5
    } else {
        seconds
    };
    let low: u64 = at_least as u64 % 0x1_0000_0000;
    (low * 1000 % 0x1_0000_0000) as u32
}

/// Lists the account with an access token, given the text of the selection.
pub fn list_account(access: &str, selection: &str) -> (r: SetupStep)
    ensures
        r@ == list_step(access@, selection@),
{
    let mut url = join(API, "?json=");
    url.append(selection);
    let request = HttpRequest::new("GET", url.as_str()).header(
        "authorization",
        join("Bearer ", access).as_str(),
    );
    SetupStep::Fetch { request, note: "list".to_owned() }
}

impl EcobeeThermostat {
    /// The form that asks for the API key.
    pub fn ask_api_key() -> (r: SetupStep)
        ensures
            r@ == api_key_form(),
    {
        let field = Field {
            name: "api_key".to_owned(),
            label: "API key".to_owned(),
            kind: "password".to_owned(),
            help: "From the ecobee developer portal".to_owned(),
            default: None,
            options: Vec::new(),
            required: true,
        };
        assert(field@.options =~= Seq::empty());
        let mut fields: Vec<Field> = Vec::new();
        fields.push(field);
        assert(fields.deep_view() =~= seq![field@]);
        SetupStep::Form {
            title: "Connect an ecobee account".to_owned(),
            body: "Create an app at ecobee.com/developer (Add Application \u{2192} My apps) to get an API key.".to_owned(),
            fields,
        }
    }

    /// The step that says what went wrong.
    pub fn failure(msg: &str) -> (r: SetupStep)
        ensures
            r@ == failure_step(msg@),
    {
        SetupStep::Instruct {
            title: "Could not connect to ecobee".to_owned(),
            body: msg.to_owned(),
            continue_label: "Try again".to_owned(),
        }
    }

    fn authorized(key: &str, response: Option<&Json>) -> (r: (SetupStep, Json))
        ensures
            (r.0@, r.1@) == after_authorize(
                key@,
                match response {
                    Some(v) => v@,
                    None => JsonView::Null,
                },
            ),
    {
        let (pin, code, interval) = match response {
            Some(body) => (body.str_at("ecobeePin"), body.str_at("code"), body.i64_at("interval")),
            None => (None, None, None),
        };
        match (pin, code) {
            (Some(pin), Some(code)) => {
                let mut body = join(
                    "On the ecobee web portal, open Menu \u{2192} My Apps \u{2192} Add Application, and enter this PIN:\n\n",
                    pin,
                );
                body.append("\n\nThen come back and continue.");
                let step = SetupStep::Instruct {
                    title: "Authorize Juno on ecobee.com".to_owned(),
                    body,
                    continue_label: "I've entered the PIN".to_owned(),
                };
                let mut next = staged("pending");
                next.insert("api_key", Json::text(key));
                next.insert("code", Json::text(code));
                let seconds: i64 = match interval {
                    Some(interval) => interval,
                    None => 30,
                };
                next.insert("interval", Json::integer(seconds));
                (step, Json::object(next))
            },
            _ => (
                Self::failure("ecobee did not return a PIN \u{2014} check the API key"),
                Json::null(),
            ),
        }
    }

    fn with_tokens(key: &str, state: &Json, response: Option<&Json>) -> (r: (SetupStep, Json))
        ensures
            (r.0@, r.1@) == after_token(
                key@,
                state@,
                match response {
                    Some(v) => v@,
                    None => JsonView::Null,
                },
            ),
    {
        match response {
            Some(body) => match body.str_at("access_token") {
                Some(access) => {
                    let selection = registered_text();
                    let mut next = staged("listing");
                    next.insert("api_key", Json::text(key));
                    next.insert("refresh_token", Json::text(text_or_empty(body, "refresh_token")));
                    return (list_account(access, selection.as_str()), Json::object(next));
                },
                None => {},
            },
            None => {},
        }
        // Ecobee answers `authorization_pending` while waiting for the PIN to be entered, which
        // is the expected state and not a failure.
        let step = SetupStep::Wait {
            title: "Waiting for the PIN to be entered on ecobee.com".to_owned(),
            body: String::new(),
            retry_ms: pause(state.i64_at("interval")),
        };
        (step, state.copy())
    }

    fn offer_sensors(out: &mut Vec<Candidate>, sensors: &Vec<Json>, id: &str)
        ensures
            final(out).deep_view() == old(out).deep_view() + sensor_offers(
                sensors.deep_view(),
                id@,
            ),
    {
        let ghost all = sensors.deep_view();
        let ghost before = out.deep_view();
        let mut i: usize = 0;
        assert(all.take(0) =~= Seq::empty());
        assert(out.deep_view() =~= before + Seq::empty());
        while i < sensors.len()
            invariant
                i <= sensors@.len(),
                all == sensors.deep_view(),
                out.deep_view() == before + sensor_offers(all.take(i as int), id@),
            decreases sensors@.len() - i,
        {
            let s = &sensors[i];
            let ghost sofar = out.deep_view();
            assert(all.take(i + 1).drop_last() =~= all.take(i as int));
            assert(all.take(i + 1).last() == s@);
            let built_in: bool = says(s.str_at("type"), "thermostat");
            match s.str_at("id") {
                Some(sid) => {
                    if !built_in {
                        let name: &str = match s.str_at("name") {
                            Some(name) => name,
                            None => sid,
                        };
                        let mut properties = Object::new();
                        properties.insert("Thermostat identifier", Json::text(id));
                        properties.insert("Sensor id", Json::text(sid));
                        let candidate = Candidate {
                            label: name.to_owned(),
                            kind: "sensor".to_owned(),
                            driver_id: "ecobee.remote_sensor".to_owned(),
                            properties,
                            verified: "confirmed by the ecobee API".to_owned(),
                        };
                        out.push(candidate);
                        assert(out.deep_view() =~= sofar + seq![candidate@]);
                    }
                },
                None => {},
            }
            assert(out.deep_view() =~= sofar + sensor_offer(s@, id@));
            assert(out.deep_view() =~= before + (sensor_offers(all.take(i as int), id@)
                + sensor_offer(s@, id@)));
            i = i + 1;
        }
        assert(all.take(i as int) =~= all);
    }

    fn offer_thermostat(out: &mut Vec<Candidate>, t: &Json, key: &str, refresh: &str)
        ensures
            final(out).deep_view() == old(out).deep_view() + thermostat_offer(
                t@,
                key@,
                refresh@,
            ),
    {
        let ghost before = out.deep_view();
        match t.str_at("identifier") {
            Some(id) => {
                let name: &str = match t.str_at("name") {
                    Some(name) => name,
                    None => id,
                };
                let mut properties = Object::new();
                properties.insert("API key", Json::text(key));
                properties.insert("Refresh token", Json::text(refresh));
                properties.insert("Thermostat identifier", Json::text(id));
                let candidate = Candidate {
                    label: name.to_owned(),
                    kind: "thermostat".to_owned(),
                    driver_id: "ecobee.thermostat".to_owned(),
                    properties,
                    verified: "confirmed by the ecobee API".to_owned(),
                };
                out.push(candidate);
                assert(out.deep_view() =~= before + seq![candidate@]);
                match t.array_at("remoteSensors") {
                    Some(sensors) => {
                        Self::offer_sensors(out, sensors, id);
                        assert(out.deep_view() =~= before + (seq![candidate@] + sensor_offers(
                            sensors.deep_view(),
                            id@,
                        )));
                    },
                    None => {
                        assert(out.deep_view() =~= before + (seq![candidate@] + Seq::empty()));
                    },
                }
            },
            None => {
                assert(out.deep_view() =~= before + Seq::empty());
            },
        }
    }

    fn listed(list: Option<&Vec<Json>>, key: &str, refresh: &str) -> (r: SetupStep)
        ensures
            r@ == choose_step(list.deep_view(), key@, refresh@),
    {
        let mut options: Vec<Candidate> = Vec::new();
        assert(options.deep_view() =~= Seq::empty());
        match list {
            Some(thermostats) => {
                let ghost all = thermostats.deep_view();
                assert(all.take(0) =~= Seq::empty());
                let mut i: usize = 0;
                while i < thermostats.len()
                    invariant
                        i <= thermostats@.len(),
                        all == thermostats.deep_view(),
                        options.deep_view() == offers(all.take(i as int), key@, refresh@),
                    decreases thermostats@.len() - i,
                {
                    assert(all.take(i + 1).drop_last() =~= all.take(i as int));
                    assert(all.take(i + 1).last() == thermostats@[i as int]@);
                    Self::offer_thermostat(&mut options, &thermostats[i], key, refresh);
                    i = i + 1;
                }
                assert(all.take(i as int) =~= all);
            },
            None => {},
        }
        SetupStep::Choose {
            title: "Add these ecobee devices".to_owned(),
            body: String::new(),
            options,
            multiple: true,
        }
    }

    /// The PIN authorization wizard: ask for the developer API key, get a PIN, wait for it to be
    /// entered on ecobee.com, exchange it for tokens, then list what is on the account so the
    /// installer can pick which thermostats and sensors to adopt.
    ///
    /// Driven entirely by `state`, so that any step can be replayed.
    pub fn discover(&self, driver_id: &str, state: &Json, input: &Object) -> (r: (SetupStep, Json))
        ensures
            (r.0@, r.1@) == discover(state@, input@),
    {
        let stage = state.str_at("stage");
        let note = input.str_at("note");
        let key: &str = text_or_empty(state, "api_key");
        let response = input.get("response");
        if says(stage, "authorizing") && says(note, "authorize") {
            return Self::authorized(key, response);
        }
        if says(stage, "pending") {
            if says(note, "token") {
                return Self::with_tokens(key, state, response);
            }
            let url = write_token_url(
                "?grant_type=ecobeePin&code=",
                text_or_empty(state, "code"),
                key,
            );
            let step = SetupStep::Fetch {
                request: HttpRequest::new("POST", url.as_str()),
                note: "token".to_owned(),
            };
            return (step, state.copy());
        }
        if says(stage, "listing") && says(note, "list") {
            let list: Option<&Vec<Json>> = match response {
                Some(body) => body.array_at("thermostatList"),
                None => None,
            };
            let step = Self::listed(list, key, text_or_empty(state, "refresh_token"));
            return (step, Json::null());
        }
        match input.str_at("api_key") {
            Some(entered) => {
                let mut url = join(AUTHORIZE_API, "?response_type=ecobeePin&client_id=");
                url.append(entered);
                url.append("&scope=smartWrite");
                let step = SetupStep::Fetch {
                    request: HttpRequest::new("GET", url.as_str()),
                    note: "authorize".to_owned(),
                };
                let mut next = staged("authorizing");
                next.insert("api_key", Json::text(entered));
                (step, Json::object(next))
            },
            None => (Self::ask_api_key(), Json::object(staged("start"))),
        }
    }
}

} // verus!
