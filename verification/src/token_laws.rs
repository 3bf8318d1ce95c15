//! What holds of the properties that connect a device, of its tokens, and of how they are renewed.

use vstd::prelude::*;

use crate::auth::token_url;
use crate::clock::Clock;
use crate::host::{nonempty, HostCallView, HttpRequestView, InstanceView};
use crate::json::{at, JsonView};
use crate::laws::lemma_notes_differ;
use crate::thermostat::{banked, bind, command, event, is_write};
use crate::units::wrap_i64;

verus! {

/// Whether a property is filled in with a text.
pub open spec fn is_filled_in(inst: InstanceView, name: Seq<char>, text: Seq<char>) -> bool {
    &&& inst.properties.contains_key(name)
    &&& inst.properties[name] == JsonView::Str(text)
    &&& text.len() > 0
}

/// A property counts only where it is filled in with a text.
pub proof fn properties_count_when_filled_in(
    inst: InstanceView,
    name: Seq<char>,
    text: Seq<char>,
)
    ensures
        nonempty(inst.property(name).as_str()) == Some(text) <==> is_filled_in(inst, name, text),
        inst.property(name) == at(inst.properties, name),
        inst.api_key() == Some(text) <==> is_filled_in(inst, "API key"@, text),
        inst.identifier() == Some(text) <==> is_filled_in(inst, "Thermostat identifier"@, text),
        is_filled_in(inst, "Sensor id"@, text) ==> inst.is_sensor(),
        inst.is_sensor() ==> exists|id: Seq<char>| #[trigger]
            is_filled_in(inst, "Sensor id"@, id),
{
    if inst.is_sensor() {
        let id = inst.properties["Sensor id"@]->Str_0;
        assert(is_filled_in(inst, "Sensor id"@, id));
    }
}

/// An access token is live exactly where a key is filled in, that token is noted, and the noted
/// time of expiry, or the epoch where none is, is more than half a minute away.
pub proof fn access_token_is_live_until_it_expires(inst: InstanceView, token: Seq<char>, now: i64)
    ensures
        inst.access_token(now) == Some(token) <==> {
            &&& exists|key: Seq<char>| #[trigger] is_filled_in(inst, "API key"@, key)
            &&& at(inst.scratch, "access_token"@) == JsonView::Str(token)
            &&& match at(inst.scratch, "access_expires_at"@).as_i64() {
                Some(expires) => expires > wrap_i64(now + 30),
                None => 0 > wrap_i64(now + 30),
            }
        },
{
    if inst.api_key() is Some {
        assert(is_filled_in(inst, "API key"@, inst.api_key()->0));
    }
}

/// A request carries the live access token where a key is filled in, and the `Refresh token`
/// property where none is. Nothing else of the request changes.
pub proof fn requests_carry_the_token(
    inst: InstanceView,
    request: HttpRequestView,
    token: Seq<char>,
    now: i64,
)
    ensures
        inst.bearer(now) == Some(token) <==> {
            ||| inst.api_key() is Some && inst.access_token(now) == Some(token)
            ||| {
                &&& inst.api_key() is None
                &&& match at(inst.properties, "Refresh token"@) {
                    JsonView::Str(text) => token == text,
                    _ => token == Seq::<char>::empty(),
                }
            }
        },
        inst.needs_refresh(now) <==> inst.bearer(now) is None,
        inst.authorized(request, now) is None <==> inst.bearer(now) is None,
        inst.bearer(now) == Some(token) ==> inst.authorized(request, now) == Some(
            HttpRequestView {
                method: request.method,
                url: request.url,
                json: request.json,
                headers: request.headers.push(("authorization"@, "Bearer "@ + token)),
            },
        ),
{
}

/// The refresh token is the noted one, and the one filled in where none is noted. With a key it
/// is exchanged by one request, and without either there is none.
pub proof fn refresh_token_is_exchanged(inst: InstanceView, key: Seq<char>, token: Seq<char>)
    ensures
        inst.refresh_token() == Some(token) <==> {
            ||| at(inst.scratch, "refresh_token"@) == JsonView::Str(token)
            ||| at(inst.scratch, "refresh_token"@) !is Str && is_filled_in(
                inst,
                "Refresh token"@,
                token,
            )
        },
        inst.refresh_request() is Some <==> inst.api_key() is Some && inst.refresh_token() is Some,
        inst.api_key() == Some(key) && inst.refresh_token() == Some(token)
            ==> inst.refresh_request() == Some(
            HostCallView::Http(
                HttpRequestView {
                    method: "POST"@,
                    url: "https://api.ecobee.com/token"@ + "?grant_type=refresh_token&code="@ + token
                        + "&client_id="@ + key,
                    json: None,
                    headers: Seq::empty(),
                },
            ),
        ),
{
}

/// A token exchange names its grant, what is exchanged, and the key, in this order.
pub proof fn token_urls_name_all_three(grant: Seq<char>, code: Seq<char>, key: Seq<char>)
    ensures
        token_url(grant, code, key) == "https://api.ecobee.com/token"@ + grant + code
            + "&client_id="@ + key,
{
}

/// The tokens of a reply are noted, and every other note keeps its value: the setpoints that were
/// known before are known after it.
pub proof fn renewal_keeps_every_other_note(
    inst: InstanceView,
    doc: JsonView,
    access: Seq<char>,
    now: i64,
    name: Seq<char>,
)
    ensures
        ({
            let paid = banked(inst, doc, access, now);
            let expires = wrap_i64(
                now + match doc.at("expires_in"@).as_i64() {
                    Some(seconds) => seconds,
                    None => 3600,
                },
            );
            &&& paid.properties == inst.properties
            &&& at(paid.scratch, "access_token"@) == JsonView::Str(access)
            &&& at(paid.scratch, "access_expires_at"@).as_i64() == Some(expires as i64)
            &&& at(paid.scratch, "refresh_token"@) == (match doc.at("refresh_token"@) {
                JsonView::Str(refresh) => JsonView::Str(refresh),
                _ => at(inst.scratch, "refresh_token"@),
            })
            &&& name != "access_token"@ && name != "access_expires_at"@ && name
                != "refresh_token"@ ==> {
                &&& paid.scratch.contains_key(name) == inst.scratch.contains_key(name)
                &&& at(paid.scratch, name) == at(inst.scratch, name)
            }
            &&& paid.setpoints() == inst.setpoints()
        }),
{
    lemma_notes_differ();
    lemma_setpoints_are_no_tokens();
}

proof fn lemma_setpoints_are_no_tokens()
    ensures
        "heat_c"@ != "access_token"@,
        "heat_c"@ != "access_expires_at"@,
        "heat_c"@ != "refresh_token"@,
        "heat_c"@ != "pending_action"@,
        "cool_c"@ != "access_token"@,
        "cool_c"@ != "access_expires_at"@,
        "cool_c"@ != "refresh_token"@,
        "cool_c"@ != "pending_action"@,
{
    reveal_strlit("heat_c");
    reveal_strlit("cool_c");
    reveal_strlit("access_token");
    reveal_strlit("access_expires_at");
    reveal_strlit("refresh_token");
    reveal_strlit("pending_action");
    assert("heat_c"@.len() == 6);
    assert("cool_c"@.len() == 6);
    assert("access_token"@.len() == 12);
    assert("access_expires_at"@.len() == 17);
    assert("refresh_token"@.len() == 13);
    assert("pending_action"@.len() == 14);
}

/// A token reply with nothing pending notes the tokens and asks for nothing. Otherwise what is
/// pending is no longer noted, and is done as if it were asked for with those tokens on hand: a
/// binding, or the command that was put aside with its arguments.
pub proof fn token_reply_takes_up_what_waits(
    inst: InstanceView,
    args: Map<Seq<char>, JsonView>,
    access: Seq<char>,
    clock: Clock,
)
    requires
        at(args, "body"@).at("access_token"@) == JsonView::Str(access),
    ensures
        ({
            let paid = banked(inst, at(args, "body"@), access, clock.received);
            let pending = at(inst.scratch, "pending_action"@);
            let rest = InstanceView {
                properties: inst.properties,
                scratch: paid.scratch.remove("pending_action"@),
            };
            let cmd = pending.at("cmd"@);
            let kept = pending.at("args"@);
            let outcome = event(inst, "http_response"@, args, clock);
            &&& !inst.scratch.contains_key("pending_action"@) ==> outcome == (
                paid,
                Seq::<HostCallView>::empty(),
            )
            &&& inst.scratch.contains_key("pending_action"@) ==> {
                &&& cmd == JsonView::Str("__bind__"@) ==> outcome == bind(rest, clock)
                &&& cmd != JsonView::Str("__bind__"@) ==> outcome == command(
                    rest,
                    match cmd {
                        JsonView::Str(text) => text,
                        _ => Seq::empty(),
                    },
                    match kept {
                        JsonView::Object(members) => members,
                        _ => Map::empty(),
                    },
                    clock,
                )
            }
            &&& rest.setpoints() == inst.setpoints()
            &&& rest.identifier() == inst.identifier()
        }),
{
    lemma_notes_differ();
    lemma_setpoints_are_no_tokens();
    reveal_strlit("__bind__");
    assert("__bind__"@.len() == 8);
}

/// A command that needs a token, and a binding that does, are put aside whole, and one request is
/// sent for the token; where none can be asked for, that is said, and nothing is put aside.
pub proof fn waiting_is_noted(
    inst: InstanceView,
    cmd: Seq<char>,
    args: Map<Seq<char>, JsonView>,
    clock: Clock,
)
    requires
        inst.needs_refresh(clock.checked),
    ensures
        ({
            let refused = (
                inst,
                seq![
                    HostCallView::Warn(
                        "ecobee: set the API key and Refresh token on this device first"@,
                    ),
                ],
            );
            let outcome = command(inst, cmd, args, clock);
            let bound = bind(inst, clock);
            &&& is_write(cmd) ==> match inst.refresh_request() {
                Some(request) => {
                    &&& outcome.1 == seq![request]
                    &&& outcome.0.properties == inst.properties
                    &&& outcome.0.scratch == inst.scratch.insert(
                        "pending_action"@,
                        outcome.0.scratch["pending_action"@],
                    )
                    &&& outcome.0.scratch["pending_action"@] == JsonView::Object(
                        map!["cmd"@ => JsonView::Str(cmd), "args"@ => JsonView::Object(args)],
                    )
                },
                None => outcome == refused,
            }
            &&& inst.identifier() is Some ==> match inst.refresh_request() {
                Some(request) => {
                    &&& bound.1 == seq![request]
                    &&& bound.0.properties == inst.properties
                    &&& bound.0.scratch == inst.scratch.insert(
                        "pending_action"@,
                        JsonView::Object(map!["cmd"@ => JsonView::Str("__bind__"@)]),
                    )
                },
                None => bound == refused,
            }
        }),
{
}

} // verus!
