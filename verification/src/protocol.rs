//! The message model of the protocol: requests, responses, events, and the
//! service definition, with their wire shapes.

use crate::json::Json;
use crate::json::JsonV;
use crate::json::json_seq_view;
use crate::json::obj_get;
use crate::parse::parse_json;
use crate::text::bytes_to_string;
use vstd::string::StringExecFns;
use vstd::string::StrSliceExecFns;
use vstd::prelude::*;

verus! {

broadcast use vstd::std_specs::vec::group_vec_axioms, vstd::seq::group_seq_axioms;

/// A request sent by the directory server.
#[derive(Debug)]
pub struct Request {
    pub id: String,
    pub service: String,
    pub device: String,
    pub function: String,
    pub params: Vec<Json>,
    pub client_id: Option<String>,
}

/// The mathematical model of a request.
pub struct RequestV {
    pub id: Seq<char>,
    pub service: Seq<char>,
    pub device: Seq<char>,
    pub function: Seq<char>,
    pub params: Seq<JsonV>,
    pub client_id: Option<Seq<char>>,
}

impl View for Request {
    type V = RequestV;

    open spec fn view(&self) -> RequestV {
        RequestV {
            id: self.id@,
            service: self.service@,
            device: self.device@,
            function: self.function@,
            params: json_seq_view(self.params@),
            client_id: match self.client_id {
                Some(c) => Some(c@),
                None => None,
            },
        }
    }
}

/// The request shape read out of a parsed JSON document: four required
/// string fields, a required parameter array, and an optional client id
/// (absent and null both mean none).  Unknown members are ignored.
pub open spec fn request_of_json(j: JsonV) -> Option<RequestV> {
    match j {
        JsonV::Obj(ms) => {
            match (
                obj_get(ms, "id"@),
                obj_get(ms, "service"@),
                obj_get(ms, "device"@),
                obj_get(ms, "function"@),
                obj_get(ms, "params"@),
            ) {
                (
                    Some(JsonV::Str(id)),
                    Some(JsonV::Str(service)),
                    Some(JsonV::Str(device)),
                    Some(JsonV::Str(function)),
                    Some(JsonV::Arr(params)),
                ) => match obj_get(ms, "clientId"@) {
                    None => Some(
                        RequestV { id, service, device, function, params, client_id: None },
                    ),
                    Some(JsonV::Null) => Some(
                        RequestV { id, service, device, function, params, client_id: None },
                    ),
                    Some(JsonV::Str(c)) => Some(
                        RequestV { id, service, device, function, params, client_id: Some(c) },
                    ),
                    Some(_) => None,
                },
                _ => None,
            }
        },
        _ => None,
    }
}

/// What one inbound datagram means: decoded as UTF-8, parsed as JSON, and
/// read as a request; or nothing, if any stage fails.
pub open spec fn datagram_request(bytes: Seq<u8>) -> Option<RequestV> {
    if vstd::utf8::valid_utf8(bytes) {
        match parse_json(vstd::utf8::decode_utf8(bytes)) {
            Some(j) => request_of_json(j),
            None => None,
        }
    } else {
        None
    }
}

impl Request {
    /// Reads a request out of a parsed JSON document.
    pub fn from_json(j: &Json) -> (r: Option<Request>)
        ensures
            match r {
                Some(req) => request_of_json(j@) == Some(req@),
                None => request_of_json(j@) is None,
            },
    {
        match j {
            Json::Obj(_) => {},
            _ => {
                return None;
            },
        }
        let id = match j.get("id") {
            Some(Json::Str(s)) => s.clone(),
            _ => {
                return None;
            },
        };
        let service = match j.get("service") {
            Some(Json::Str(s)) => s.clone(),
            _ => {
                return None;
            },
        };
        let device = match j.get("device") {
            Some(Json::Str(s)) => s.clone(),
            _ => {
                return None;
            },
        };
        let function = match j.get("function") {
            Some(Json::Str(s)) => s.clone(),
            _ => {
                return None;
            },
        };
        let params = match j.get("params") {
            Some(p) => {
                match p {
                    Json::Arr(_) => {},
                    _ => {
                        return None;
                    },
                }
                match p.duplicate() {
                    Json::Arr(v) => v,
                    _ => {
                        proof {
                            assert(false);
                        }
                        return None;
                    },
                }
            },
            _ => {
                return None;
            },
        };
        let client_id = match j.get("clientId") {
            None => None,
            Some(Json::Null) => None,
            Some(Json::Str(s)) => Some(s.clone()),
            Some(_) => {
                return None;
            },
        };
        Some(Request { id, service, device, function, params, client_id })
    }

    /// Decodes one datagram into a request, or nothing if the datagram is
    /// malformed at any stage.
    pub fn from_datagram(bytes: Vec<u8>) -> (r: Option<Request>)
        ensures
            match r {
                Some(req) => datagram_request(bytes@) == Some(req@),
                None => datagram_request(bytes@) is None,
            },
    {
        match bytes_to_string(bytes) {
            Some(s) => match Json::from_text(s.as_str()) {
                Some(j) => Request::from_json(&j),
                None => None,
            },
            None => None,
        }
    }
}

/// The reserved function name the engine answers by itself.
pub open spec fn is_heartbeat(r: RequestV) -> bool {
    r.function == "heartbeat"@
}

/// The reply the engine owes a heartbeat: an empty result list, correlated
/// to the heartbeat's id and service.
pub open spec fn heartbeat_reply_v(def_id: Seq<char>, r: RequestV) -> ResponseV {
    ResponseV {
        id: def_id,
        request: r.id,
        service: r.service,
        body: ResponseBodyV::Values(Seq::empty()),
    }
}

/// The datagram bytes of a response: its wire document's canonical text,
/// as UTF-8.
pub open spec fn response_datagram(r: ResponseV) -> Seq<u8> {
    vstd::utf8::encode_utf8(crate::json::json_text(response_json(r)))
}

/// What the engine does with one inbound datagram: queue the request for
/// the application, answer a heartbeat at once, or drop a malformed
/// datagram.  Both engine variants share this decision.
#[derive(Debug)]
pub enum InboundAction {
    Queue(Request),
    Reply(Response),
    Drop,
}

/// Decides one inbound datagram: a malformed datagram is dropped, a
/// heartbeat gets its reply, and any other request is queued.
pub fn classify_datagram(definition_id: &str, bytes: Vec<u8>) -> (r: InboundAction)
    ensures
        match r {
            InboundAction::Queue(req) => datagram_request(bytes@) == Some(req@) && !is_heartbeat(
                req@,
            ),
            InboundAction::Reply(resp) => (match datagram_request(bytes@) {
                Some(rv) => is_heartbeat(rv) && resp@ == heartbeat_reply_v(definition_id@, rv),
                None => false,
            }),
            InboundAction::Drop => datagram_request(bytes@) is None,
        },
{
    match Request::from_datagram(bytes) {
        Some(msg) => {
            if crate::json::str_eq(msg.function.as_str(), "heartbeat") {
                let reply = Response::heartbeat_reply(definition_id, &msg);
                InboundAction::Reply(reply)
            } else {
                InboundAction::Queue(msg)
            }
        },
        None => InboundAction::Drop,
    }
}

/// An asynchronous event notification carried inside a response.
#[derive(Debug)]
pub struct EventResponse {
    pub event_type: Option<String>,
    pub args: Option<Vec<(String, String)>>,
}

pub struct EventResponseV {
    pub event_type: Option<Seq<char>>,
    pub args: Option<Seq<(Seq<char>, Seq<char>)>>,
}

/// The view of a list of name-value string pairs.
pub open spec fn pairs_view(v: Seq<(String, String)>) -> Seq<(Seq<char>, Seq<char>)> {
    v.map_values(|p: (String, String)| (p.0@, p.1@))
}

impl View for EventResponse {
    type V = EventResponseV;

    open spec fn view(&self) -> EventResponseV {
        EventResponseV {
            event_type: match self.event_type {
                Some(t) => Some(t@),
                None => None,
            },
            args: match self.args {
                Some(a) => Some(pairs_view(a@)),
                None => None,
            },
        }
    }
}

/// What a response carries: result values, an event, or an error message.
/// A response holds exactly one of the three, never two; an empty result
/// list is a value distinct from any of the others.
#[derive(Debug)]
pub enum ResponseBody {
    Values(Vec<Json>),
    Event(EventResponse),
    Error(String),
}

pub enum ResponseBodyV {
    Values(Seq<JsonV>),
    Event(EventResponseV),
    Error(Seq<char>),
}

impl View for ResponseBody {
    type V = ResponseBodyV;

    open spec fn view(&self) -> ResponseBodyV {
        match self {
            ResponseBody::Values(vs) => ResponseBodyV::Values(json_seq_view(vs@)),
            ResponseBody::Event(e) => ResponseBodyV::Event(e@),
            ResponseBody::Error(m) => ResponseBodyV::Error(m@),
        }
    }
}

/// A response sent to the directory server, correlated to a request id or
/// to an application-chosen token.
#[derive(Debug)]
pub struct Response {
    pub id: String,
    pub request: String,
    pub service: String,
    pub body: ResponseBody,
}

pub struct ResponseV {
    pub id: Seq<char>,
    pub request: Seq<char>,
    pub service: Seq<char>,
    pub body: ResponseBodyV,
}

impl View for Response {
    type V = ResponseV;

    open spec fn view(&self) -> ResponseV {
        ResponseV { id: self.id@, request: self.request@, service: self.service@, body: self.body@ }
    }
}

/// A string or null, for fields that may be unset.
pub open spec fn opt_str_json(v: Option<Seq<char>>) -> JsonV {
    match v {
        Some(s) => JsonV::Str(s),
        None => JsonV::Null,
    }
}

/// The wire shape of the event part of a response.
pub open spec fn event_response_json(e: EventResponseV) -> JsonV {
    JsonV::Obj(
        seq![
            ("type"@, opt_str_json(e.event_type)),
            (
                "args"@,
                match e.args {
                    Some(pairs) => JsonV::Obj(
                        pairs.map_values(|p: (Seq<char>, Seq<char>)| (p.0, JsonV::Str(p.1))),
                    ),
                    None => JsonV::Null,
                },
            ),
        ],
    )
}

/// The one wire member a response body contributes: `response`, `event` or
/// `error`, the other two absent.
pub open spec fn body_members(b: ResponseBodyV) -> Seq<(Seq<char>, JsonV)> {
    match b {
        ResponseBodyV::Values(vs) => seq![("response"@, JsonV::Arr(vs))],
        ResponseBodyV::Event(e) => seq![("event"@, event_response_json(e))],
        ResponseBodyV::Error(m) => seq![("error"@, JsonV::Str(m))],
    }
}

/// The wire shape of a response: the three correlation fields, then exactly
/// one of `response`, `event`, `error`.
pub open spec fn response_json(r: ResponseV) -> JsonV {
    JsonV::Obj(
        seq![
            ("id"@, JsonV::Str(r.id)),
            ("request"@, JsonV::Str(r.request)),
            ("service"@, JsonV::Str(r.service)),
        ] + body_members(r.body),
    )
}

impl EventResponse {
    /// Builds the wire document for this event.
    pub fn into_json(self) -> (r: Json)
        ensures
            r@ == event_response_json(self@),
    {
        let type_json = match self.event_type {
            Some(t) => Json::Str(t),
            None => Json::Null,
        };
        let args_json = match self.args {
            Some(pairs) => {
                let ghost pairs0 = pairs@;
                let mut ms: Vec<(String, Json)> = Vec::new();
                let mut pairs = pairs;
                let mut i: usize = 0;
                while i < pairs.len()
                    invariant
                        i <= pairs.len(),
                        pairs@ == pairs0,
                        crate::json::json_obj_view(ms@) == pairs_view(pairs0).map_values(
                            |p: (Seq<char>, Seq<char>)| (p.0, JsonV::Str(p.1)),
                        ).take(i as int),
                    decreases pairs.len() - i,
                {
                    let k = pairs[i].0.clone();
                    let v = pairs[i].1.clone();
                    let ghost ms0 = ms@;
                    ms.push((k, Json::Str(v)));
                    proof {
                        assert(ms@ =~= ms0.push((k, Json::Str(v))));
                        crate::json::lemma_json_obj_view_push(ms0, (k, Json::Str(v)));
                        let gtarget = pairs_view(pairs0).map_values(
                            |p: (Seq<char>, Seq<char>)| (p.0, JsonV::Str(p.1)),
                        );
                        assert(gtarget.take(i + 1).drop_last() =~= gtarget.take(i as int));
                        assert(gtarget.take(i + 1).last() == gtarget[i as int]);
                        assert(pairs_view(pairs0)[i as int] == (
                            pairs0[i as int].0@,
                            pairs0[i as int].1@,
                        ));
                        assert(gtarget[i as int] == (pairs0[i as int].0@, JsonV::Str(
                            pairs0[i as int].1@,
                        )));
                        assert(gtarget.take(i + 1) =~= gtarget.take(i as int).push(
                            gtarget[i as int],
                        ));
                    }
                    i += 1;
                }
                proof {
                    let gtarget = pairs_view(pairs0).map_values(
                        |p: (Seq<char>, Seq<char>)| (p.0, JsonV::Str(p.1)),
                    );
                    assert(gtarget.take(gtarget.len() as int) =~= gtarget);
                }
                Json::Obj(ms)
            },
            None => Json::Null,
        };
        let mut out: Vec<(String, Json)> = Vec::new();
        out.push((str_lit("type"), type_json));
        out.push((str_lit("args"), args_json));
        let r = Json::Obj(out);
        proof {
            crate::json::lemma_json_obj_view_elts(out@);
            assert(crate::json::json_obj_view(out@) =~= event_response_json(self@)->Obj_0);
        }
        r
    }
}

/// An owned copy of a string literal.
fn str_lit(s: &str) -> (r: String)
    ensures
        r@ == s@,
{
    String::from_str(s)
}

impl Response {
    /// Builds the wire document for this response.
    pub fn into_json(self) -> (r: Json)
        ensures
            r@ == response_json(self@),
    {
        let ghost sv = self@;
        let Response { id, request, service, body } = self;
        let mut out: Vec<(String, Json)> = Vec::new();
        out.push((str_lit("id"), Json::Str(id)));
        out.push((str_lit("request"), Json::Str(request)));
        out.push((str_lit("service"), Json::Str(service)));
        match body {
            ResponseBody::Values(vs) => {
                out.push((str_lit("response"), Json::Arr(vs)));
            },
            ResponseBody::Event(e) => {
                out.push((str_lit("event"), e.into_json()));
            },
            ResponseBody::Error(m) => {
                out.push((str_lit("error"), Json::Str(m)));
            },
        }
        let r = Json::Obj(out);
        proof {
            crate::json::lemma_json_obj_view_elts(out@);
            assert(crate::json::json_obj_view(out@) =~= response_json(sv)->Obj_0);
        }
        r
    }

    /// The reply to a request: the result values on success, the error
    /// message on failure.  The other two body fields stay absent.
    pub fn reply_to(
        definition_id: &str,
        request: Request,
        params: Result<Vec<Json>, String>,
    ) -> (r: Response)
        ensures
            r@.id == definition_id@,
            r@.request == request@.id,
            r@.service == request@.service,
            (match params {
                Ok(vs) => r@.body == ResponseBodyV::Values(json_seq_view(vs@)),
                Err(m) => r@.body == ResponseBodyV::Error(m@),
            }),
    {
        let body = match params {
            Ok(vs) => ResponseBody::Values(vs),
            Err(m) => ResponseBody::Error(m),
        };
        Response { id: str_lit(definition_id), request: request.id, service: request.service, body }
    }

    /// The reply the engine sends for a heartbeat: an empty result list,
    /// correlated to the heartbeat's id.
    pub fn heartbeat_reply(definition_id: &str, request: &Request) -> (r: Response)
        ensures
            r@ == heartbeat_reply_v(definition_id@, request@),
    {
        let r = Response {
            id: str_lit(definition_id),
            request: request.id.clone(),
            service: request.service.clone(),
            body: ResponseBody::Values(Vec::new()),
        };
        proof {
            assert(r@.body == ResponseBodyV::Values(json_seq_view(Seq::<Json>::empty())));
            assert(json_seq_view(Seq::<Json>::empty()) =~= Seq::<JsonV>::empty());
        }
        r
    }

    /// An event notification: only the event field is populated, whatever
    /// else the engine is doing.
    pub fn event(
        definition_id: &str,
        service: &str,
        call_id: &str,
        event_type: &str,
        args: Vec<(String, String)>,
    ) -> (r: Response)
        ensures
            r@.id == definition_id@,
            r@.request == call_id@,
            r@.service == service@,
            r@.body == ResponseBodyV::Event(
                EventResponseV { event_type: Some(event_type@), args: Some(pairs_view(args@)) },
            ),
    {
        Response {
            id: str_lit(definition_id),
            request: str_lit(call_id),
            service: str_lit(service),
            body: ResponseBody::Event(
                EventResponse { event_type: Some(str_lit(event_type)), args: Some(args) },
            ),
        }
    }

    /// The datagram bytes of this response: its wire document, as UTF-8.
    pub fn into_datagram(self) -> (r: Vec<u8>)
        ensures
            r@ == response_datagram(self@),
    {
        let ghost sv = self@;
        let j = self.into_json();
        let text = j.to_text();
        text.as_str().as_bytes_vec()
    }
}

/// The view of an optional string.
pub open spec fn opt_view(v: Option<String>) -> Option<Seq<char>> {
    match v {
        Some(s) => Some(s@),
        None => None,
    }
}

/// The view of a list of strings.
pub open spec fn strs_view(v: Seq<String>) -> Seq<Seq<char>> {
    v.map_values(|s: String| s@)
}

/// One parameter of a callable method: pure metadata for announce.
#[derive(Debug)]
pub struct MethodParam {
    pub name: String,
    pub documentation: Option<String>,
    pub param_type: String,
    pub optional: bool,
}

pub struct MethodParamV {
    pub name: Seq<char>,
    pub documentation: Option<Seq<char>>,
    pub param_type: Seq<char>,
    pub optional: bool,
}

impl View for MethodParam {
    type V = MethodParamV;

    open spec fn view(&self) -> MethodParamV {
        MethodParamV {
            name: self.name@,
            documentation: opt_view(self.documentation),
            param_type: self.param_type@,
            optional: self.optional,
        }
    }
}

/// The return description of a callable method: pure metadata for announce.
#[derive(Debug)]
pub struct MethodReturns {
    pub documentation: Option<String>,
    pub return_type: Vec<String>,
}

pub struct MethodReturnsV {
    pub documentation: Option<Seq<char>>,
    pub return_type: Seq<Seq<char>>,
}

impl View for MethodReturns {
    type V = MethodReturnsV;

    open spec fn view(&self) -> MethodReturnsV {
        MethodReturnsV {
            documentation: opt_view(self.documentation),
            return_type: strs_view(self.return_type@),
        }
    }
}

/// A callable method of the service: pure metadata for announce.
#[derive(Debug)]
pub struct MethodDescription {
    pub documentation: Option<String>,
    pub params: Vec<MethodParam>,
    pub returns_desc: MethodReturns,
}

pub struct MethodDescriptionV {
    pub documentation: Option<Seq<char>>,
    pub params: Seq<MethodParamV>,
    pub returns_desc: MethodReturnsV,
}

impl View for MethodDescription {
    type V = MethodDescriptionV;

    open spec fn view(&self) -> MethodDescriptionV {
        MethodDescriptionV {
            documentation: opt_view(self.documentation),
            params: self.params@.map_values(|p: MethodParam| p@),
            returns_desc: self.returns_desc@,
        }
    }
}

/// An event the service can emit: pure metadata for announce.
#[derive(Debug)]
pub struct EventDescription {
    pub params: Vec<String>,
}

pub struct EventDescriptionV {
    pub params: Seq<Seq<char>>,
}

impl View for EventDescription {
    type V = EventDescriptionV;

    open spec fn view(&self) -> EventDescriptionV {
        EventDescriptionV { params: strs_view(self.params@) }
    }
}

/// Free-text metadata about the service.  The field names follow the wire
/// format's keys.
#[allow(non_snake_case)]
#[derive(Debug)]
pub struct IoTScapeServiceDescription {
    pub description: Option<String>,
    pub externalDocumentation: Option<String>,
    pub termsOfService: Option<String>,
    pub contact: Option<String>,
    pub license: Option<String>,
    pub version: String,
}

#[allow(non_snake_case)]
pub struct ServiceDescriptionV {
    pub description: Option<Seq<char>>,
    pub externalDocumentation: Option<Seq<char>>,
    pub termsOfService: Option<Seq<char>>,
    pub contact: Option<Seq<char>>,
    pub license: Option<Seq<char>>,
    pub version: Seq<char>,
}

impl View for IoTScapeServiceDescription {
    type V = ServiceDescriptionV;

    open spec fn view(&self) -> ServiceDescriptionV {
        ServiceDescriptionV {
            description: opt_view(self.description),
            externalDocumentation: opt_view(self.externalDocumentation),
            termsOfService: opt_view(self.termsOfService),
            contact: opt_view(self.contact),
            license: opt_view(self.license),
            version: self.version@,
        }
    }
}

/// The definition of a service: its id, methods, events, and metadata,
/// immutable once built, consumed by announce.
#[derive(Debug)]
pub struct ServiceDefinition {
    pub id: String,
    pub methods: Vec<(String, MethodDescription)>,
    pub events: Vec<(String, EventDescription)>,
    pub description: IoTScapeServiceDescription,
}

pub struct ServiceDefinitionV {
    pub id: Seq<char>,
    pub methods: Seq<(Seq<char>, MethodDescriptionV)>,
    pub events: Seq<(Seq<char>, EventDescriptionV)>,
    pub description: ServiceDescriptionV,
}

impl View for ServiceDefinition {
    type V = ServiceDefinitionV;

    open spec fn view(&self) -> ServiceDefinitionV {
        ServiceDefinitionV {
            id: self.id@,
            methods: self.methods@.map_values(|m: (String, MethodDescription)| (m.0@, m.1@)),
            events: self.events@.map_values(|e: (String, EventDescription)| (e.0@, e.1@)),
            description: self.description@,
        }
    }
}

/// An array of strings on the wire.
pub open spec fn str_arr_json(xs: Seq<Seq<char>>) -> JsonV {
    JsonV::Arr(xs.map_values(|s: Seq<char>| JsonV::Str(s)))
}

/// The wire shape of one method parameter.
pub open spec fn method_param_json(p: MethodParamV) -> JsonV {
    JsonV::Obj(
        seq![
            ("name"@, JsonV::Str(p.name)),
            ("documentation"@, opt_str_json(p.documentation)),
            ("type"@, JsonV::Str(p.param_type)),
            ("optional"@, JsonV::Bool(p.optional)),
        ],
    )
}

/// The wire shape of a method's return description.
pub open spec fn method_returns_json(r: MethodReturnsV) -> JsonV {
    JsonV::Obj(
        seq![
            ("documentation"@, opt_str_json(r.documentation)),
            ("type"@, str_arr_json(r.return_type)),
        ],
    )
}

/// The wire shape of one method description.
pub open spec fn method_json(m: MethodDescriptionV) -> JsonV {
    JsonV::Obj(
        seq![
            ("documentation"@, opt_str_json(m.documentation)),
            ("params"@, JsonV::Arr(m.params.map_values(|p: MethodParamV| method_param_json(p)))),
            ("returns"@, method_returns_json(m.returns_desc)),
        ],
    )
}

/// The wire shape of one event description.
pub open spec fn event_desc_json(e: EventDescriptionV) -> JsonV {
    JsonV::Obj(seq![("params"@, str_arr_json(e.params))])
}

/// The wire shape of the service metadata block.
pub open spec fn service_desc_json(d: ServiceDescriptionV) -> JsonV {
    JsonV::Obj(
        seq![
            ("description"@, opt_str_json(d.description)),
            ("externalDocumentation"@, opt_str_json(d.externalDocumentation)),
            ("termsOfService"@, opt_str_json(d.termsOfService)),
            ("contact"@, opt_str_json(d.contact)),
            ("license"@, opt_str_json(d.license)),
            ("version"@, JsonV::Str(d.version)),
        ],
    )
}

/// The wire shape of a whole service definition.
pub open spec fn def_json(d: ServiceDefinitionV) -> JsonV {
    JsonV::Obj(
        seq![
            ("id"@, JsonV::Str(d.id)),
            (
                "methods"@,
                JsonV::Obj(
                    d.methods.map_values(
                        |m: (Seq<char>, MethodDescriptionV)| (m.0, method_json(m.1)),
                    ),
                ),
            ),
            (
                "events"@,
                JsonV::Obj(
                    d.events.map_values(
                        |e: (Seq<char>, EventDescriptionV)| (e.0, event_desc_json(e.1)),
                    ),
                ),
            ),
            ("service"@, service_desc_json(d.description)),
        ],
    )
}

/// The announce payload: one object binding the instance name to the
/// definition.
pub open spec fn announce_json(name: Seq<char>, d: ServiceDefinitionV) -> JsonV {
    JsonV::Obj(seq![(name, def_json(d))])
}

/// The announce payload as canonical text.
pub open spec fn announce_text(name: Seq<char>, d: ServiceDefinitionV) -> Seq<char> {
    crate::json::json_text(announce_json(name, d))
}

fn opt_str_to_json(v: &Option<String>) -> (r: Json)
    ensures
        r@ == opt_str_json(opt_view(*v)),
{
    match v {
        Some(s) => Json::Str(s.clone()),
        None => Json::Null,
    }
}

fn strs_to_json(v: &Vec<String>) -> (r: Json)
    ensures
        r@ == str_arr_json(strs_view(v@)),
{
    let mut out: Vec<Json> = Vec::new();
    let ghost target = strs_view(v@).map_values(|s: Seq<char>| JsonV::Str(s));
    let mut i: usize = 0;
    while i < v.len()
        invariant
            i <= v.len(),
            target == strs_view(v@).map_values(|s: Seq<char>| JsonV::Str(s)),
            json_seq_view(out@) == target.take(i as int),
        decreases v.len() - i,
    {
        let ghost out0 = out@;
        out.push(Json::Str(v[i].clone()));
        proof {
            crate::json::lemma_json_seq_view_push(out0, Json::Str(v@[i as int]));
            assert(strs_view(v@)[i as int] == v@[i as int]@);
            assert(target[i as int] == JsonV::Str(v@[i as int]@));
            assert(target.take(i + 1) =~= target.take(i as int).push(target[i as int]));
        }
        i += 1;
    }
    proof {
        assert(target.take(target.len() as int) =~= target);
    }
    Json::Arr(out)
}

impl MethodParam {
    fn to_json(&self) -> (r: Json)
        ensures
            r@ == method_param_json(self@),
    {
        let mut out: Vec<(String, Json)> = Vec::new();
        out.push((str_lit("name"), Json::Str(self.name.clone())));
        out.push((str_lit("documentation"), opt_str_to_json(&self.documentation)));
        out.push((str_lit("type"), Json::Str(self.param_type.clone())));
        out.push((str_lit("optional"), Json::Bool(self.optional)));
        let r = Json::Obj(out);
        proof {
            crate::json::lemma_json_obj_view_elts(out@);
            assert(crate::json::json_obj_view(out@) =~= method_param_json(self@)->Obj_0);
        }
        r
    }
}

impl MethodReturns {
    fn to_json(&self) -> (r: Json)
        ensures
            r@ == method_returns_json(self@),
    {
        let mut out: Vec<(String, Json)> = Vec::new();
        out.push((str_lit("documentation"), opt_str_to_json(&self.documentation)));
        out.push((str_lit("type"), strs_to_json(&self.return_type)));
        let r = Json::Obj(out);
        proof {
            crate::json::lemma_json_obj_view_elts(out@);
            assert(crate::json::json_obj_view(out@) =~= method_returns_json(self@)->Obj_0);
        }
        r
    }
}

impl MethodDescription {
    fn to_json(&self) -> (r: Json)
        ensures
            r@ == method_json(self@),
    {
        let mut ps: Vec<Json> = Vec::new();
        let ghost target = self@.params.map_values(|p: MethodParamV| method_param_json(p));
        let mut i: usize = 0;
        while i < self.params.len()
            invariant
                i <= self.params.len(),
                target == self@.params.map_values(|p: MethodParamV| method_param_json(p)),
                self@.params == self.params@.map_values(|p: MethodParam| p@),
                json_seq_view(ps@) == target.take(i as int),
            decreases self.params.len() - i,
        {
            let ghost ps0 = ps@;
            let pj = self.params[i].to_json();
            ps.push(pj);
            proof {
                crate::json::lemma_json_seq_view_push(ps0, pj);
                assert(self@.params[i as int] == self.params@[i as int]@);
                assert(target[i as int] == method_param_json(self.params@[i as int]@));
                assert(target.take(i + 1) =~= target.take(i as int).push(target[i as int]));
            }
            i += 1;
        }
        proof {
            assert(self@.params.len() == self.params@.len());
            assert(target.take(target.len() as int) =~= target);
        }
        let mut out: Vec<(String, Json)> = Vec::new();
        out.push((str_lit("documentation"), opt_str_to_json(&self.documentation)));
        out.push((str_lit("params"), Json::Arr(ps)));
        out.push((str_lit("returns"), self.returns_desc.to_json()));
        let r = Json::Obj(out);
        proof {
            crate::json::lemma_json_obj_view_elts(out@);
            assert(crate::json::json_obj_view(out@) =~= method_json(self@)->Obj_0);
        }
        r
    }
}

impl EventDescription {
    fn to_json(&self) -> (r: Json)
        ensures
            r@ == event_desc_json(self@),
    {
        let mut out: Vec<(String, Json)> = Vec::new();
        out.push((str_lit("params"), strs_to_json(&self.params)));
        let r = Json::Obj(out);
        proof {
            crate::json::lemma_json_obj_view_elts(out@);
            assert(crate::json::json_obj_view(out@) =~= event_desc_json(self@)->Obj_0);
        }
        r
    }
}

impl IoTScapeServiceDescription {
    fn to_json(&self) -> (r: Json)
        ensures
            r@ == service_desc_json(self@),
    {
        let mut out: Vec<(String, Json)> = Vec::new();
        out.push((str_lit("description"), opt_str_to_json(&self.description)));
        out.push((str_lit("externalDocumentation"), opt_str_to_json(&self.externalDocumentation)));
        out.push((str_lit("termsOfService"), opt_str_to_json(&self.termsOfService)));
        out.push((str_lit("contact"), opt_str_to_json(&self.contact)));
        out.push((str_lit("license"), opt_str_to_json(&self.license)));
        out.push((str_lit("version"), Json::Str(self.version.clone())));
        let r = Json::Obj(out);
        proof {
            crate::json::lemma_json_obj_view_elts(out@);
            assert(crate::json::json_obj_view(out@) =~= service_desc_json(self@)->Obj_0);
        }
        r
    }
}

impl ServiceDefinition {
    /// Builds the wire document for this definition.
    pub fn to_json(&self) -> (r: Json)
        ensures
            r@ == def_json(self@),
    {
        let mut mm: Vec<(String, Json)> = Vec::new();
        let ghost mtarget = self@.methods.map_values(
            |m: (Seq<char>, MethodDescriptionV)| (m.0, method_json(m.1)),
        );
        let mut i: usize = 0;
        while i < self.methods.len()
            invariant
                i <= self.methods.len(),
                mtarget == self@.methods.map_values(
                    |m: (Seq<char>, MethodDescriptionV)| (m.0, method_json(m.1)),
                ),
                self@.methods == self.methods@.map_values(
                    |m: (String, MethodDescription)| (m.0@, m.1@),
                ),
                crate::json::json_obj_view(mm@) == mtarget.take(i as int),
            decreases self.methods.len() - i,
        {
            let ghost mm0 = mm@;
            let k = self.methods[i].0.clone();
            let mj = self.methods[i].1.to_json();
            mm.push((k, mj));
            proof {
                crate::json::lemma_json_obj_view_push(mm0, (k, mj));
                assert(self@.methods[i as int] == (
                    self.methods@[i as int].0@,
                    self.methods@[i as int].1@,
                ));
                assert(mtarget[i as int] == (
                    self.methods@[i as int].0@,
                    method_json(self.methods@[i as int].1@),
                ));
                assert(mtarget.take(i + 1) =~= mtarget.take(i as int).push(mtarget[i as int]));
            }
            i += 1;
        }
        proof {
            assert(self@.methods.len() == self.methods@.len());
            assert(mtarget.take(mtarget.len() as int) =~= mtarget);
        }
        let mut em: Vec<(String, Json)> = Vec::new();
        let ghost etarget = self@.events.map_values(
            |e: (Seq<char>, EventDescriptionV)| (e.0, event_desc_json(e.1)),
        );
        let mut i: usize = 0;
        while i < self.events.len()
            invariant
                i <= self.events.len(),
                etarget == self@.events.map_values(
                    |e: (Seq<char>, EventDescriptionV)| (e.0, event_desc_json(e.1)),
                ),
                self@.events == self.events@.map_values(
                    |e: (String, EventDescription)| (e.0@, e.1@),
                ),
                crate::json::json_obj_view(em@) == etarget.take(i as int),
            decreases self.events.len() - i,
        {
            let ghost em0 = em@;
            let k = self.events[i].0.clone();
            let ej = self.events[i].1.to_json();
            em.push((k, ej));
            proof {
                crate::json::lemma_json_obj_view_push(em0, (k, ej));
                assert(self@.events[i as int] == (
                    self.events@[i as int].0@,
                    self.events@[i as int].1@,
                ));
                assert(etarget[i as int] == (
                    self.events@[i as int].0@,
                    event_desc_json(self.events@[i as int].1@),
                ));
                assert(etarget.take(i + 1) =~= etarget.take(i as int).push(etarget[i as int]));
            }
            i += 1;
        }
        proof {
            assert(self@.events.len() == self.events@.len());
            assert(etarget.take(etarget.len() as int) =~= etarget);
        }
        let mut out: Vec<(String, Json)> = Vec::new();
        out.push((str_lit("id"), Json::Str(self.id.clone())));
        out.push((str_lit("methods"), Json::Obj(mm)));
        out.push((str_lit("events"), Json::Obj(em)));
        out.push((str_lit("service"), self.description.to_json()));
        let r = Json::Obj(out);
        proof {
            crate::json::lemma_json_obj_view_elts(out@);
            assert(crate::json::json_obj_view(out@) =~= def_json(self@)->Obj_0);
        }
        r
    }
}

/// No two entries bind the same name.  The method map, the event map, and
/// an event's argument map are meant to be maps; a list that breaks this
/// serializes a JSON object with duplicate keys.
pub open spec fn distinct_keys<T>(entries: Seq<(Seq<char>, T)>) -> bool {
    forall|i: int, j: int|
        0 <= i < j < entries.len() ==> (#[trigger] entries[i].0) != (#[trigger] entries[j].0)
}

/// A well-formed definition: its method and event maps bind each name once.
pub open spec fn wf_definition(d: ServiceDefinitionV) -> bool {
    distinct_keys(d.methods) && distinct_keys(d.events)
}

/// A well-formed definition serializes to an announce document whose method
/// and event objects carry each key exactly once.
pub proof fn lemma_wf_definition_distinct_json_keys(d: ServiceDefinitionV)
    requires
        wf_definition(d),
    ensures
        distinct_keys(
            d.methods.map_values(|m: (Seq<char>, MethodDescriptionV)| (m.0, method_json(m.1))),
        ),
        distinct_keys(
            d.events.map_values(|e: (Seq<char>, EventDescriptionV)| (e.0, event_desc_json(e.1))),
        ),
{
    let mm = d.methods.map_values(|m: (Seq<char>, MethodDescriptionV)| (m.0, method_json(m.1)));
    assert forall|i: int, j: int|
        0 <= i < j < mm.len() implies (#[trigger] mm[i].0) != (#[trigger] mm[j].0) by {
        assert(mm[i].0 == d.methods[i].0);
        assert(mm[j].0 == d.methods[j].0);
    }
    let em = d.events.map_values(|e: (Seq<char>, EventDescriptionV)| (e.0, event_desc_json(e.1)));
    assert forall|i: int, j: int|
        0 <= i < j < em.len() implies (#[trigger] em[i].0) != (#[trigger] em[j].0) by {
        assert(em[i].0 == d.events[i].0);
        assert(em[j].0 == d.events[j].0);
    }
}

/// Reads back a field that is a string or null.
pub open spec fn opt_str_of(j: JsonV) -> Option<Option<Seq<char>>> {
    match j {
        JsonV::Str(s) => Some(Some(s)),
        JsonV::Null => Some(None),
        _ => None,
    }
}

/// Reads back an array of strings.
pub open spec fn strs_of(items: Seq<JsonV>) -> Option<Seq<Seq<char>>>
    decreases items.len(),
{
    if items.len() == 0 {
        Some(Seq::empty())
    } else {
        match (strs_of(items.drop_last()), items.last()) {
            (Some(ss), JsonV::Str(s)) => Some(ss.push(s)),
            _ => None,
        }
    }
}

/// Reads back one method parameter from its wire shape.
pub open spec fn method_param_of_json(j: JsonV) -> Option<MethodParamV> {
    match j {
        JsonV::Obj(ms) => if ms.len() == 4 && ms[0].0 == "name"@ && ms[1].0 == "documentation"@
            && ms[2].0 == "type"@ && ms[3].0 == "optional"@ {
            match (ms[0].1, opt_str_of(ms[1].1), ms[2].1, ms[3].1) {
                (
                    JsonV::Str(name),
                    Some(documentation),
                    JsonV::Str(param_type),
                    JsonV::Bool(optional),
                ) => Some(MethodParamV { name, documentation, param_type, optional }),
                _ => None,
            }
        } else {
            None
        },
        _ => None,
    }
}

/// Reads back a list of method parameters.
pub open spec fn params_of_json(items: Seq<JsonV>) -> Option<Seq<MethodParamV>>
    decreases items.len(),
{
    if items.len() == 0 {
        Some(Seq::empty())
    } else {
        match (params_of_json(items.drop_last()), method_param_of_json(items.last())) {
            (Some(ps), Some(p)) => Some(ps.push(p)),
            _ => None,
        }
    }
}

/// Reads back a method's return description from its wire shape.
pub open spec fn method_returns_of_json(j: JsonV) -> Option<MethodReturnsV> {
    match j {
        JsonV::Obj(ms) => if ms.len() == 2 && ms[0].0 == "documentation"@ && ms[1].0 == "type"@ {
            match (opt_str_of(ms[0].1), ms[1].1) {
                (Some(documentation), JsonV::Arr(items)) => match strs_of(items) {
                    Some(return_type) => Some(MethodReturnsV { documentation, return_type }),
                    None => None,
                },
                _ => None,
            }
        } else {
            None
        },
        _ => None,
    }
}

/// Reads back one method description from its wire shape.
pub open spec fn method_of_json(j: JsonV) -> Option<MethodDescriptionV> {
    match j {
        JsonV::Obj(ms) => if ms.len() == 3 && ms[0].0 == "documentation"@ && ms[1].0 == "params"@
            && ms[2].0 == "returns"@ {
            match (opt_str_of(ms[0].1), ms[1].1) {
                (Some(documentation), JsonV::Arr(items)) => match (
                    params_of_json(items),
                    method_returns_of_json(ms[2].1),
                ) {
                    (Some(params), Some(returns_desc)) => Some(
                        MethodDescriptionV { documentation, params, returns_desc },
                    ),
                    _ => None,
                },
                _ => None,
            }
        } else {
            None
        },
        _ => None,
    }
}

/// Reads back one event description from its wire shape.
pub open spec fn event_desc_of_json(j: JsonV) -> Option<EventDescriptionV> {
    match j {
        JsonV::Obj(ms) => if ms.len() == 1 && ms[0].0 == "params"@ {
            match ms[0].1 {
                JsonV::Arr(items) => match strs_of(items) {
                    Some(params) => Some(EventDescriptionV { params }),
                    None => None,
                },
                _ => None,
            }
        } else {
            None
        },
        _ => None,
    }
}

/// Reads back the method map: every member a method description, keys kept
/// in order.
pub open spec fn methods_of_json(ms: Seq<(Seq<char>, JsonV)>) -> Option<
    Seq<(Seq<char>, MethodDescriptionV)>,
>
    decreases ms.len(),
{
    if ms.len() == 0 {
        Some(Seq::empty())
    } else {
        match (methods_of_json(ms.drop_last()), method_of_json(ms.last().1)) {
            (Some(rest), Some(m)) => Some(rest.push((ms.last().0, m))),
            _ => None,
        }
    }
}

/// Reads back the event map: every member an event description, keys kept
/// in order.
pub open spec fn events_of_json(ms: Seq<(Seq<char>, JsonV)>) -> Option<
    Seq<(Seq<char>, EventDescriptionV)>,
>
    decreases ms.len(),
{
    if ms.len() == 0 {
        Some(Seq::empty())
    } else {
        match (events_of_json(ms.drop_last()), event_desc_of_json(ms.last().1)) {
            (Some(rest), Some(e)) => Some(rest.push((ms.last().0, e))),
            _ => None,
        }
    }
}

/// Reads back the service metadata block from its wire shape.
pub open spec fn service_desc_of_json(j: JsonV) -> Option<ServiceDescriptionV> {
    match j {
        JsonV::Obj(ms) => if ms.len() == 6 && ms[0].0 == "description"@ && ms[1].0
            == "externalDocumentation"@ && ms[2].0 == "termsOfService"@ && ms[3].0 == "contact"@
            && ms[4].0 == "license"@ && ms[5].0 == "version"@ {
            match (
                opt_str_of(ms[0].1),
                opt_str_of(ms[1].1),
                opt_str_of(ms[2].1),
                opt_str_of(ms[3].1),
                opt_str_of(ms[4].1),
                ms[5].1,
            ) {
                (
                    Some(description),
                    Some(externalDocumentation),
                    Some(termsOfService),
                    Some(contact),
                    Some(license),
                    JsonV::Str(version),
                ) => Some(
                    ServiceDescriptionV {
                        description,
                        externalDocumentation,
                        termsOfService,
                        contact,
                        license,
                        version,
                    },
                ),
                _ => None,
            }
        } else {
            None
        },
        _ => None,
    }
}

/// Reads back a whole service definition from its wire shape.
pub open spec fn def_of_json(j: JsonV) -> Option<ServiceDefinitionV> {
    match j {
        JsonV::Obj(ms) => if ms.len() == 4 && ms[0].0 == "id"@ && ms[1].0 == "methods"@ && ms[2].0
            == "events"@ && ms[3].0 == "service"@ {
            match (ms[0].1, ms[1].1, ms[2].1) {
                (JsonV::Str(id), JsonV::Obj(mm), JsonV::Obj(em)) => match (
                    methods_of_json(mm),
                    events_of_json(em),
                    service_desc_of_json(ms[3].1),
                ) {
                    (Some(methods), Some(events), Some(description)) => Some(
                        ServiceDefinitionV { id, methods, events, description },
                    ),
                    _ => None,
                },
                _ => None,
            }
        } else {
            None
        },
        _ => None,
    }
}

/// Reads back an announce payload: the one member binds the instance name
/// to its definition.
pub open spec fn announce_of_json(j: JsonV) -> Option<(Seq<char>, ServiceDefinitionV)> {
    match j {
        JsonV::Obj(ms) => if ms.len() == 1 {
            match def_of_json(ms[0].1) {
                Some(d) => Some((ms[0].0, d)),
                None => None,
            }
        } else {
            None
        },
        _ => None,
    }
}

/// The announce payload for an instance name and its definition, as
/// canonical text.
pub fn announce_payload(name: &str, definition: &ServiceDefinition) -> (r: String)
    ensures
        r@ == announce_text(name@, definition@),
{
    let mut members: Vec<(String, Json)> = Vec::new();
    members.push((str_lit(name), definition.to_json()));
    let j = Json::Obj(members);
    proof {
        crate::json::lemma_json_obj_view_elts(members@);
        assert(crate::json::json_obj_view(members@) =~= announce_json(name@, definition@)->Obj_0);
    }
    j.to_text()
}

} // verus!
