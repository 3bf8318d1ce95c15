//! What the driver is given by the host, and what it asks of it.

use vstd::prelude::*;

use crate::json::{at, Json, JsonView, Object};

verus! {

/// A device as the host keeps it: the properties its installer filled in, and what the driver
/// noted for itself.
pub struct Instance {
    pub properties: Object,
    pub scratch: Object,
}

#[verifier::ext_equal]
pub struct InstanceView {
    pub properties: Map<Seq<char>, JsonView>,
    pub scratch: Map<Seq<char>, JsonView>,
}

impl View for Instance {
    type V = InstanceView;

    open spec fn view(&self) -> InstanceView {
        InstanceView { properties: self.properties@, scratch: self.scratch@ }
    }
}

/// The text without which there is nothing: `None` in place of an empty text.
pub open spec fn nonempty(text: Option<Seq<char>>) -> Option<Seq<char>> {
    match text {
        Some(s) if s.len() > 0 => Some(s),
        _ => None,
    }
}

/// The text, or an empty one.
pub open spec fn or_empty(text: Option<Seq<char>>) -> Seq<char> {
    match text {
        Some(s) => s,
        None => Seq::empty(),
    }
}

impl InstanceView {
    /// The value of a property, or null.
    pub open spec fn property(self, name: Seq<char>) -> JsonView {
        at(self.properties, name)
    }

    /// The instance with one more note.
    pub open spec fn noted(self, name: Seq<char>, value: JsonView) -> InstanceView {
        InstanceView { properties: self.properties, scratch: self.scratch.insert(name, value) }
    }

    /// The instance without a note.
    pub open spec fn forgotten(self, name: Seq<char>) -> InstanceView {
        InstanceView { properties: self.properties, scratch: self.scratch.remove(name) }
    }
}

impl Instance {
    /// The text of a property that is filled in with one.
    pub fn filled(&self, name: &str) -> (r: Option<&str>)
        ensures
            r.deep_view() == nonempty(self@.property(name@).as_str()),
    {
        match self.properties.str_at(name) {
            Some(s) => if s.is_empty() {
                None
            } else {
                Some(s)
            },
            None => None,
        }
    }
}

/// A request for the host to send.
pub struct HttpRequest {
    pub method: String,
    pub url: String,
    pub json: Option<String>,
    pub headers: Vec<(String, String)>,
}

#[verifier::ext_equal]
pub struct HttpRequestView {
    pub method: Seq<char>,
    pub url: Seq<char>,
    pub json: Option<Seq<char>>,
    pub headers: Seq<(Seq<char>, Seq<char>)>,
}

impl View for HttpRequest {
    type V = HttpRequestView;

    open spec fn view(&self) -> HttpRequestView {
        HttpRequestView {
            method: self.method@,
            url: self.url@,
            json: self.json.deep_view(),
            headers: self.headers.deep_view(),
        }
    }
}

impl DeepView for HttpRequest {
    type V = HttpRequestView;

    open spec fn deep_view(&self) -> HttpRequestView {
        self@
    }
}

impl HttpRequestView {
    /// A request with no body and no headers.
    pub open spec fn new(method: Seq<char>, url: Seq<char>) -> HttpRequestView {
        HttpRequestView { method, url, json: None, headers: Seq::empty() }
    }

    /// The request with a JSON body.
    pub open spec fn with_json(self, text: Seq<char>) -> HttpRequestView {
        HttpRequestView {
            method: self.method,
            url: self.url,
            json: Some(text),
            headers: self.headers,
        }
    }

    /// The request with one more header.
    pub open spec fn with_header(self, name: Seq<char>, value: Seq<char>) -> HttpRequestView {
        HttpRequestView {
            method: self.method,
            url: self.url,
            json: self.json,
            headers: self.headers.push((name, value)),
        }
    }
}

impl HttpRequest {
    /// A request with no body and no headers.
    pub fn new(method: &str, url: &str) -> (r: HttpRequest)
        ensures
            r@ == HttpRequestView::new(method@, url@),
    {
        let r = HttpRequest {
            method: method.to_owned(),
            url: url.to_owned(),
            json: None,
            headers: Vec::new(),
        };
        assert(r@.headers =~= Seq::empty());
        r
    }

    /// The request with a JSON body.
    pub fn json(self, text: &str) -> (r: HttpRequest)
        ensures
            r@ == self@.with_json(text@),
    {
        HttpRequest {
            method: self.method,
            url: self.url,
            json: Some(text.to_owned()),
            headers: self.headers,
        }
    }

    /// The request with one more header.
    pub fn header(self, name: &str, value: &str) -> (r: HttpRequest)
        ensures
            r@ == self@.with_header(name@, value@),
    {
        let ghost before = self.headers.deep_view();
        let mut headers = self.headers;
        headers.push((name.to_owned(), value.to_owned()));
        assert(headers.deep_view() =~= before.push((name@, value@)));
        HttpRequest { method: self.method, url: self.url, json: self.json, headers }
    }
}

/// Something for the host to do.
pub enum HostCall {
    /// Send a request.
    Http(HttpRequest),
    /// Tell the installer that something is amiss.
    Warn(String),
    /// Tell the device behind a binding what happened.
    Notify { binding: u32, event: String, args: Object },
}

#[verifier::ext_equal]
pub enum HostCallView {
    Http(HttpRequestView),
    Warn(Seq<char>),
    Notify { binding: u32, event: Seq<char>, args: Map<Seq<char>, JsonView> },
}

impl View for HostCall {
    type V = HostCallView;

    open spec fn view(&self) -> HostCallView {
        match self {
            HostCall::Http(request) => HostCallView::Http(request@),
            HostCall::Warn(message) => HostCallView::Warn(message@),
            HostCall::Notify { binding, event, args } => HostCallView::Notify {
                binding: *binding,
                event: event@,
                args: args@,
            },
        }
    }
}

impl DeepView for HostCall {
    type V = HostCallView;

    open spec fn deep_view(&self) -> HostCallView {
        self@
    }
}

/// A notification with one argument.
pub open spec fn notice(
    binding: u32,
    event: Seq<char>,
    name: Seq<char>,
    value: JsonView,
) -> HostCallView {
    HostCallView::Notify { binding, event, args: Map::empty().insert(name, value) }
}

impl HostCall {
    /// A warning.
    pub fn warn(message: &str) -> (r: HostCall)
        ensures
            r@ == HostCallView::Warn(message@),
    {
        HostCall::Warn(message.to_owned())
    }

    /// A notification.
    pub fn notify(binding: u32, event: &str, args: Object) -> (r: HostCall)
        ensures
            r@ == (HostCallView::Notify { binding, event: event@, args: args@ }),
    {
        HostCall::Notify { binding, event: event.to_owned(), args }
    }

    /// A notification with one argument.
    pub fn notify_one(binding: u32, event: &str, name: &str, value: Json) -> (r: HostCall)
        ensures
            r@ == notice(binding, event@, name@, value@),
    {
        let mut args = Object::new();
        args.insert(name, value);
        HostCall::notify(binding, event, args)
    }
}

/// A list of one thing to do.
pub fn only(call: HostCall) -> (r: Vec<HostCall>)
    ensures
        r.deep_view() == seq![call@],
{
    let mut calls: Vec<HostCall> = Vec::new();
    calls.push(call);
    assert(calls.deep_view() =~= seq![call@]);
    calls
}

/// A list of two things to do.
pub fn both(first: HostCall, second: HostCall) -> (r: Vec<HostCall>)
    ensures
        r.deep_view() == seq![first@, second@],
{
    let mut calls: Vec<HostCall> = Vec::new();
    calls.push(first);
    calls.push(second);
    assert(calls.deep_view() =~= seq![first@, second@]);
    calls
}

/// Nothing to do.
pub fn nothing() -> (r: Vec<HostCall>)
    ensures
        r.deep_view() == Seq::<HostCallView>::empty(),
{
    let calls: Vec<HostCall> = Vec::new();
    assert(calls.deep_view() =~= Seq::empty());
    calls
}

} // verus!
