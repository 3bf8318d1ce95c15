//! What holds of the wizard and of the devices it offers.

use vstd::prelude::*;

use crate::documents::registered_selection;
use crate::encode::compact_text;
use crate::host::{nonempty, or_empty, InstanceView};
use crate::json::{at, JsonView};
use crate::setup::{
    api_key_form, authorize_step, authorizing_state, choose_step, discover,
    list_step, listing_state, offers, pending_state, pin_step, retry_ms, sensor_candidate,
    sensor_offer, sensor_offers, start_state, thermostat_candidate, thermostat_offer, token_step,
    wait_step, CandidateView,
};

verus! {

/// Each stage, and each member of a state, has its own name.
proof fn lemma_names_differ()
    ensures
        "authorizing"@ != "pending"@,
        "authorizing"@ != "listing"@,
        "pending"@ != "listing"@,
        "start"@ != "authorizing"@,
        "start"@ != "pending"@,
        "start"@ != "listing"@,
        "stage"@ != "api_key"@,
        "stage"@ != "code"@,
        "stage"@ != "interval"@,
        "stage"@ != "refresh_token"@,
        "api_key"@ != "code"@,
        "api_key"@ != "interval"@,
        "api_key"@ != "refresh_token"@,
        "code"@ != "interval"@,
        "authorize"@ != "token"@,
        "list"@ != "token"@,
{
    reveal_strlit("authorizing");
    reveal_strlit("pending");
    reveal_strlit("listing");
    reveal_strlit("start");
    reveal_strlit("stage");
    reveal_strlit("api_key");
    reveal_strlit("code");
    reveal_strlit("interval");
    reveal_strlit("refresh_token");
    reveal_strlit("authorize");
    reveal_strlit("token");
    reveal_strlit("list");
    assert("authorizing"@.len() == 11);
    assert("pending"@.len() == 7);
    assert("listing"@.len() == 7);
    assert("pending"@[0] != "listing"@[0]);
    assert("start"@.len() == 5);
    assert("stage"@.len() == 5);
    assert("api_key"@.len() == 7);
    assert("code"@.len() == 4);
    assert("interval"@.len() == 8);
    assert("refresh_token"@.len() == 13);
    assert("authorize"@.len() == 9);
    assert("token"@.len() == 5);
    assert("list"@.len() == 4);
}

/// The wizard from a key to the devices of the account. The key entered first, the code that
/// came with the PIN and the refresh token all reach the steps that need them, through nothing
/// but the state that each step hands to the next. A reply without an interval stands for half a
/// minute, and one without a refresh token for an empty one.
pub proof fn wizard_runs_on_its_state(
    key: Seq<char>,
    pin: Seq<char>,
    code: Seq<char>,
    interval: i64,
    access: Seq<char>,
    refresh: Seq<char>,
    entered: Map<Seq<char>, JsonView>,
    authorized: Map<Seq<char>, JsonView>,
    continued: Map<Seq<char>, JsonView>,
    paid: Map<Seq<char>, JsonView>,
    listed: Map<Seq<char>, JsonView>,
)
    requires
        at(entered, "api_key"@) == JsonView::Str(key),
        at(authorized, "note"@) == JsonView::Str("authorize"@),
        at(authorized, "response"@).at("ecobeePin"@) == JsonView::Str(pin),
        at(authorized, "response"@).at("code"@) == JsonView::Str(code),
        interval == (match at(authorized, "response"@).at("interval"@).as_i64() {
            Some(i) => i,
            None => 30,
        }),
        at(continued, "note"@).as_str() != Some("token"@),
        at(paid, "note"@) == JsonView::Str("token"@),
        at(paid, "response"@).at("access_token"@) == JsonView::Str(access),
        refresh == or_empty(at(paid, "response"@).at("refresh_token"@).as_str()),
        at(listed, "note"@) == JsonView::Str("list"@),
    ensures
        discover(start_state(), entered) == (authorize_step(key), authorizing_state(key)),
        discover(authorizing_state(key), authorized) == (
            pin_step(pin),
            pending_state(key, code, interval),
        ),
        discover(pending_state(key, code, interval), continued) == (
            token_step(code, key),
            pending_state(key, code, interval),
        ),
        discover(pending_state(key, code, interval), paid) == (
            list_step(access, compact_text(registered_selection())),
            listing_state(key, refresh),
        ),
        discover(listing_state(key, refresh), listed) == (
            choose_step(
                at(listed, "response"@).at("thermostatList"@).as_array(),
                key,
                refresh,
            ),
            JsonView::Null,
        ),
{
    lemma_names_differ();
}

/// Until the PIN has been entered the wizard stays where it is: it asks, it waits, and its state
/// does not change, so that it can be asked again any number of times.
pub proof fn waiting_changes_nothing(state: JsonView, input: Map<Seq<char>, JsonView>)
    requires
        state.at("stage"@).as_str() == Some("pending"@),
        at(input, "note"@).as_str() != Some("token"@) || at(input, "response"@).at(
            "access_token"@,
        ).as_str() is None,
    ensures
        discover(state, input).1 == state,
        at(input, "note"@).as_str() == Some("token"@) ==> discover(state, input).0 == wait_step(
            state.at("interval"@).as_i64(),
        ),
{
    lemma_names_differ();
}

/// After a failure, and after the devices were offered, the wizard starts over.
pub proof fn wizard_starts_over(input: Map<Seq<char>, JsonView>)
    requires
        at(input, "api_key"@).as_str() is None,
    ensures
        discover(JsonView::Null, input) == (api_key_form(), start_state()),
        discover(start_state(), input) == (api_key_form(), start_state()),
{
    lemma_names_differ();
}

/// The pause is the interval that ecobee asked for, and never below five seconds, for intervals
/// whose milliseconds thirty-two bits can count.
pub proof fn pause_is_at_least_five_seconds(interval: i64)
    requires
        interval <= 4_294_967,
    ensures
        retry_ms(Some(interval)) == 1000 * (if interval < 5 {
            5
        } else {
            interval as int
        }),
        retry_ms(Some(interval)) >= 5000,
        retry_ms(None) == 30_000,
{
}

/// The properties by which devices are told apart and connected have names of their own.
proof fn lemma_properties_differ()
    ensures
        "Sensor id"@ != "API key"@,
        "Sensor id"@ != "Refresh token"@,
        "Sensor id"@ != "Thermostat identifier"@,
        "API key"@ != "Refresh token"@,
        "API key"@ != "Thermostat identifier"@,
        "Refresh token"@ != "Thermostat identifier"@,
        "sensor"@ != "thermostat"@,
{
    reveal_strlit("Sensor id");
    reveal_strlit("API key");
    reveal_strlit("Refresh token");
    reveal_strlit("Thermostat identifier");
    reveal_strlit("sensor");
    reveal_strlit("thermostat");
    assert("Sensor id"@.len() == 9);
    assert("API key"@.len() == 7);
    assert("Refresh token"@.len() == 13);
    assert("Thermostat identifier"@.len() == 21);
    assert("sensor"@.len() == 6);
    assert("thermostat"@.len() == 10);
}

/// A device as it is right after a candidate was adopted.
pub open spec fn adopted(candidate: CandidateView) -> InstanceView {
    InstanceView { properties: candidate.properties, scratch: Map::empty() }
}

/// A thermostat of the list: one that has an identifier, with the credentials of the account. Once
/// adopted it is driven as a thermostat, and has all it needs to connect.
pub open spec fn is_listed_thermostat(
    candidate: CandidateView,
    list: Seq<JsonView>,
    i: int,
    id: Seq<char>,
    key: Seq<char>,
    refresh: Seq<char>,
) -> bool {
    &&& 0 <= i < list.len()
    &&& list[i].at("identifier"@).as_str() == Some(id)
    &&& candidate == thermostat_candidate(list[i], id, key, refresh)
    &&& !adopted(candidate).is_sensor()
    &&& adopted(candidate).identifier() == nonempty(Some(id))
    &&& adopted(candidate).api_key() == nonempty(Some(key))
    &&& adopted(candidate).refresh_token() == nonempty(Some(refresh))
}

/// A sensor of a thermostat of the list: one that has an id and is not built in. Once adopted it
/// names that thermostat, and is driven as a sensor unless its id is empty.
pub open spec fn is_listed_sensor(
    candidate: CandidateView,
    list: Seq<JsonView>,
    i: int,
    id: Seq<char>,
    j: int,
    sid: Seq<char>,
) -> bool {
    &&& 0 <= i < list.len()
    &&& list[i].at("identifier"@).as_str() == Some(id)
    &&& list[i].at("remoteSensors"@).as_array() matches Some(sensors)
    &&& 0 <= j < sensors.len()
    &&& sensors[j].at("id"@).as_str() == Some(sid)
    &&& sensors[j].at("type"@).as_str() != Some("thermostat"@)
    &&& candidate == sensor_candidate(sensors[j], id, sid)
    &&& adopted(candidate).identifier() == nonempty(Some(id))
    &&& adopted(candidate).is_sensor() <==> sid.len() > 0
}

/// A thermostat of the list, or a sensor of one.
pub open spec fn is_sound(
    candidate: CandidateView,
    list: Seq<JsonView>,
    key: Seq<char>,
    refresh: Seq<char>,
) -> bool {
    ||| exists|i: int, id: Seq<char>| #[trigger]
        is_listed_thermostat(candidate, list, i, id, key, refresh)
    ||| exists|i: int, id: Seq<char>, j: int, sid: Seq<char>| #[trigger]
        is_listed_sensor(candidate, list, i, id, j, sid)
}

/// Which sensor of a thermostat an offer comes from.
proof fn lemma_sensor_source(sensors: Seq<JsonView>, id: Seq<char>, n: int) -> (j: int)
    requires
        0 <= n < sensor_offers(sensors, id).len(),
    ensures
        0 <= j < sensors.len(),
        sensors[j].at("id"@).as_str() is Some,
        sensors[j].at("type"@).as_str() != Some("thermostat"@),
        sensor_offers(sensors, id)[n] == sensor_candidate(
            sensors[j],
            id,
            sensors[j].at("id"@).as_str()->0,
        ),
    decreases sensors.len(),
{
    let head = sensor_offers(sensors.drop_last(), id);
    if n < head.len() {
        assert(sensor_offers(sensors, id)[n] == head[n]);
        lemma_sensor_source(sensors.drop_last(), id, n)
    } else {
        sensors.len() - 1
    }
}

/// What a thermostat and its sensors offer is sound.
proof fn lemma_thermostat_offer(
    list: Seq<JsonView>,
    i: int,
    key: Seq<char>,
    refresh: Seq<char>,
    n: int,
)
    requires
        0 <= i < list.len(),
        0 <= n < thermostat_offer(list[i], key, refresh).len(),
    ensures
        is_sound(thermostat_offer(list[i], key, refresh)[n], list, key, refresh),
{
    let candidate = thermostat_offer(list[i], key, refresh)[n];
    let id = list[i].at("identifier"@).as_str()->0;
    lemma_properties_differ();
    if n == 0 {
        assert(is_listed_thermostat(candidate, list, i, id, key, refresh));
    } else {
        let sensors = list[i].at("remoteSensors"@).as_array()->0;
        let j = lemma_sensor_source(sensors, id, n - 1);
        assert(candidate == sensor_offers(sensors, id)[n - 1]);
        let sid = sensors[j].at("id"@).as_str()->0;
        assert(is_listed_sensor(candidate, list, i, id, j, sid));
    }
}

/// Every device on offer is sound: a thermostat of the account, which never has a `Sensor id` and
/// is therefore driven as a thermostat, or a sensor of one that is not built into it.
pub proof fn offers_are_sound(list: Seq<JsonView>, key: Seq<char>, refresh: Seq<char>)
    ensures
        forall|n: int|
            0 <= n < offers(list, key, refresh).len() ==> is_sound(
                #[trigger] offers(list, key, refresh)[n],
                list,
                key,
                refresh,
            ),
    decreases list.len(),
{
    if list.len() > 0 {
        let rest = list.drop_last();
        let head = offers(rest, key, refresh);
        let tail = thermostat_offer(list.last(), key, refresh);
        offers_are_sound(rest, key, refresh);
        assert forall|n: int| 0 <= n < offers(list, key, refresh).len() implies is_sound(
            #[trigger] offers(list, key, refresh)[n],
            list,
            key,
            refresh,
        ) by {
            let candidate = offers(list, key, refresh)[n];
            if n < head.len() {
                assert(candidate == head[n]);
                lemma_sound_in_longer(candidate, list, key, refresh);
            } else {
                assert(candidate == tail[n - head.len()]);
                lemma_thermostat_offer(list, list.len() - 1, key, refresh, n - head.len());
            }
        }
    }
}

/// What is sound stays so when the list grows.
proof fn lemma_sound_in_longer(
    candidate: CandidateView,
    list: Seq<JsonView>,
    key: Seq<char>,
    refresh: Seq<char>,
)
    requires
        list.len() > 0,
        is_sound(candidate, list.drop_last(), key, refresh),
    ensures
        is_sound(candidate, list, key, refresh),
{
    let rest = list.drop_last();
    if exists|i: int, id: Seq<char>| #[trigger]
        is_listed_thermostat(candidate, rest, i, id, key, refresh) {
        let (i, id) = choose|i: int, id: Seq<char>| #[trigger]
            is_listed_thermostat(candidate, rest, i, id, key, refresh);
        assert(is_listed_thermostat(candidate, list, i, id, key, refresh));
    } else {
        let (i, id, j, sid) = choose|i: int, id: Seq<char>, j: int, sid: Seq<char>| #[trigger]
            is_listed_sensor(candidate, rest, i, id, j, sid);
        assert(is_listed_sensor(candidate, list, i, id, j, sid));
    }
}

/// Where what one thermostat offers stands in the whole offer.
proof fn lemma_offer_contains(
    list: Seq<JsonView>,
    i: int,
    key: Seq<char>,
    refresh: Seq<char>,
    candidate: CandidateView,
)
    requires
        0 <= i < list.len(),
        thermostat_offer(list[i], key, refresh).contains(candidate),
    ensures
        offers(list, key, refresh).contains(candidate),
    decreases list.len(),
{
    let head = offers(list.drop_last(), key, refresh);
    let tail = thermostat_offer(list.last(), key, refresh);
    if i == list.len() - 1 {
        let j = tail.index_of(candidate);
        assert((head + tail)[head.len() + j] == candidate);
    } else {
        lemma_offer_contains(list.drop_last(), i, key, refresh, candidate);
        let j = head.index_of(candidate);
        assert((head + tail)[j] == candidate);
    }
}

/// Where one sensor stands among those of its thermostat.
proof fn lemma_sensor_contained(sensors: Seq<JsonView>, i: int, id: Seq<char>, sid: Seq<char>)
    requires
        0 <= i < sensors.len(),
        sensors[i].at("id"@).as_str() == Some(sid),
        sensors[i].at("type"@).as_str() != Some("thermostat"@),
    ensures
        sensor_offers(sensors, id).contains(sensor_candidate(sensors[i], id, sid)),
    decreases sensors.len(),
{
    let candidate = sensor_candidate(sensors[i], id, sid);
    let head = sensor_offers(sensors.drop_last(), id);
    let tail = sensor_offer(sensors.last(), id);
    if i == sensors.len() - 1 {
        assert(tail[0] == candidate);
        assert((head + tail)[head.len() as int] == candidate);
    } else {
        lemma_sensor_contained(sensors.drop_last(), i, id, sid);
        let j = head.index_of(candidate);
        assert((head + tail)[j] == candidate);
    }
}

/// Every thermostat of the account that has an identifier is on offer.
pub proof fn every_thermostat_is_offered(
    list: Seq<JsonView>,
    key: Seq<char>,
    refresh: Seq<char>,
    i: int,
    id: Seq<char>,
)
    requires
        0 <= i < list.len(),
        list[i].at("identifier"@).as_str() == Some(id),
    ensures
        offers(list, key, refresh).contains(thermostat_candidate(list[i], id, key, refresh)),
        adopted(thermostat_candidate(list[i], id, key, refresh)).identifier() == nonempty(Some(id)),
{
    let candidate = thermostat_candidate(list[i], id, key, refresh);
    lemma_properties_differ();
    assert(thermostat_offer(list[i], key, refresh)[0] == candidate);
    lemma_offer_contains(list, i, key, refresh, candidate);
}

/// Every sensor with an id that is not built into its thermostat is on offer beside it.
pub proof fn every_sensor_is_offered(
    list: Seq<JsonView>,
    key: Seq<char>,
    refresh: Seq<char>,
    i: int,
    id: Seq<char>,
    sensors: Seq<JsonView>,
    j: int,
    sid: Seq<char>,
)
    requires
        0 <= i < list.len(),
        list[i].at("identifier"@).as_str() == Some(id),
        list[i].at("remoteSensors"@).as_array() == Some(sensors),
        0 <= j < sensors.len(),
        sensors[j].at("id"@).as_str() == Some(sid),
        sensors[j].at("type"@).as_str() != Some("thermostat"@),
    ensures
        offers(list, key, refresh).contains(sensor_candidate(sensors[j], id, sid)),
        adopted(sensor_candidate(sensors[j], id, sid)).identifier() == nonempty(Some(id)),
{
    let candidate = sensor_candidate(sensors[j], id, sid);
    lemma_properties_differ();
    lemma_sensor_contained(sensors, j, id, sid);
    let found = sensor_offers(sensors, id);
    let n = found.index_of(candidate);
    assert(thermostat_offer(list[i], key, refresh)[n + 1] == candidate);
    lemma_offer_contains(list, i, key, refresh, candidate);
}

} // verus!
