//! The protocol engine against the in-memory transport: announce, the poll
//! drain with heartbeats and malformed datagrams, replies, events, and the
//! sequence counter.

use iotscape::Address;
use iotscape::EventDescription;
use iotscape::IoTScapeService;
use iotscape::IoTScapeServiceDescription;
use iotscape::IpAddress;
use iotscape::Json;
use iotscape::MethodDescription;
use iotscape::MethodParam;
use iotscape::MethodReturns;
use iotscape::MockSocket;
use iotscape::NullSocket;
use iotscape::Request;
use iotscape::ResponseBody;

fn s(text: &str) -> String {
    String::from(text)
}

fn server_address() -> Address {
    Address { ip: IpAddress::V4(127, 0, 0, 1), port: 1975 }
}

fn example_definition() -> iotscape::ServiceDefinition {
    iotscape::ServiceDefinition {
        id: s("rs1"),
        methods: vec![(
            s("add"),
            MethodDescription {
                documentation: Some(s("Adds two numbers")),
                params: vec![
                    MethodParam {
                        name: s("a"),
                        documentation: None,
                        param_type: s("number"),
                        optional: false,
                    },
                    MethodParam {
                        name: s("b"),
                        documentation: None,
                        param_type: s("number"),
                        optional: false,
                    },
                ],
                returns_desc: MethodReturns {
                    documentation: Some(s("The sum")),
                    return_type: vec![s("number")],
                },
            },
        )],
        events: vec![(s("ping"), EventDescription { params: vec![s("count")] })],
        description: IoTScapeServiceDescription {
            description: Some(s("An example service")),
            externalDocumentation: None,
            termsOfService: None,
            contact: Some(s("ops@example.org")),
            license: None,
            version: s("1"),
        },
    }
}

fn engine() -> IoTScapeService<MockSocket> {
    IoTScapeService::<MockSocket>::new("ExampleService", example_definition(), server_address())
        .expect("the mock transport always binds")
}

fn decode(bytes: &[u8]) -> serde_json::Value {
    serde_json::from_slice(bytes).expect("every outbound datagram is one JSON document")
}

fn request_datagram(id: &str, function: &str, params: &str) -> Vec<u8> {
    format!(
        "{{\"id\":\"{}\",\"service\":\"ExampleService\",\"device\":\"d1\",\"function\":\"{}\",\"params\":{}}}",
        id, function, params
    )
    .into_bytes()
}

#[test]
fn announce_sends_expected_payload() {
    let mut e = engine();
    e.announce().expect("the mock transport accepts every send");
    assert_eq!(e.socket.sent.len(), 1);
    let got = decode(&e.socket.sent[0]);
    let expected: serde_json::Value = serde_json::from_str(
        "{\"ExampleService\":{\"id\":\"rs1\",\"methods\":{\"add\":{\"documentation\":\"Adds two numbers\",\
         \"params\":[{\"name\":\"a\",\"documentation\":null,\"type\":\"number\",\"optional\":false},\
         {\"name\":\"b\",\"documentation\":null,\"type\":\"number\",\"optional\":false}],\
         \"returns\":{\"documentation\":\"The sum\",\"type\":[\"number\"]}}},\
         \"events\":{\"ping\":{\"params\":[\"count\"]}},\
         \"service\":{\"description\":\"An example service\",\"externalDocumentation\":null,\
         \"termsOfService\":null,\"contact\":\"ops@example.org\",\"license\":null,\"version\":\"1\"}}}",
    )
    .unwrap();
    assert_eq!(got, expected);
}

#[test]
fn announce_is_idempotent() {
    let mut e = engine();
    e.announce().unwrap();
    e.announce().unwrap();
    assert_eq!(e.socket.sent.len(), 2);
    assert_eq!(e.socket.sent[0], e.socket.sent[1]);
    assert_eq!(e.next_msg_id, 0);
}

#[test]
fn poll_queues_requests_in_arrival_order() {
    let mut e = engine();
    e.socket.seed(request_datagram("1", "add", "[2,3]"));
    e.socket.seed(request_datagram("2", "add", "[4,5]"));
    e.poll(None);
    assert_eq!(e.rx_queue.len(), 2);
    let first = e.rx_queue.pop_front().unwrap();
    assert_eq!(first.id, "1");
    assert_eq!(first.service, "ExampleService");
    assert_eq!(first.device, "d1");
    assert_eq!(first.function, "add");
    assert_eq!(first.params.len(), 2);
    assert!(matches!(first.params[0], Json::Int(2)));
    assert!(matches!(first.params[1], Json::Int(3)));
    assert!(first.client_id.is_none());
    let second = e.rx_queue.pop_front().unwrap();
    assert_eq!(second.id, "2");
}

#[test]
fn heartbeats_never_reach_the_queue_and_are_answered() {
    let mut e = engine();
    e.socket.seed(request_datagram("7", "add", "[1,1]"));
    e.socket.seed(request_datagram("hb9", "heartbeat", "[]"));
    e.socket.seed(request_datagram("8", "add", "[2,2]"));
    e.poll(None);
    // the queue holds exactly the non-heartbeat requests, in order
    assert_eq!(e.rx_queue.len(), 2);
    assert_eq!(e.rx_queue.pop_front().unwrap().id, "7");
    assert_eq!(e.rx_queue.pop_front().unwrap().id, "8");
    // exactly one reply went out, before poll returned: empty result,
    // correlated to the heartbeat's id
    assert_eq!(e.socket.sent.len(), 1);
    let got = decode(&e.socket.sent[0]);
    let expected: serde_json::Value = serde_json::from_str(
        "{\"id\":\"rs1\",\"request\":\"hb9\",\"service\":\"ExampleService\",\"response\":[]}",
    )
    .unwrap();
    assert_eq!(got, expected);
    // the successful heartbeat reply consumed one sequence number
    assert_eq!(e.next_msg_id, 1);
}

#[test]
fn malformed_datagram_is_dropped_and_poll_continues() {
    let mut e = engine();
    e.socket.seed(b"{not json".to_vec());
    e.socket.seed(vec![0xff, 0xfe, 0x00]);
    e.socket.seed(b"{\"id\":\"1\"}".to_vec());
    e.socket.seed(request_datagram("ok", "add", "[]"));
    e.poll(None);
    assert_eq!(e.rx_queue.len(), 1);
    assert_eq!(e.rx_queue.pop_front().unwrap().id, "ok");
    assert_eq!(e.socket.sent.len(), 0);
    assert_eq!(e.next_msg_id, 0);
}

#[test]
fn reply_carries_result_values_and_nothing_else() {
    let mut e = engine();
    e.socket.seed(request_datagram("1", "add", "[2,3]"));
    e.poll(None);
    let req = e.rx_queue.pop_front().unwrap();
    e.enqueue_response_to(req, Ok(vec![Json::Int(5)])).unwrap();
    assert_eq!(e.socket.sent.len(), 1);
    let got = decode(&e.socket.sent[0]);
    let expected: serde_json::Value = serde_json::from_str(
        "{\"id\":\"rs1\",\"request\":\"1\",\"service\":\"ExampleService\",\"response\":[5]}",
    )
    .unwrap();
    assert_eq!(got, expected);
    assert!(got.get("event").is_none());
    assert!(got.get("error").is_none());
    assert_eq!(e.next_msg_id, 1);
}

#[test]
fn reply_carries_error_message_and_nothing_else() {
    let mut e = engine();
    e.socket.seed(request_datagram("9", "add", "[]"));
    e.poll(None);
    let req = e.rx_queue.pop_front().unwrap();
    e.enqueue_response_to(req, Err(s("two numbers are needed"))).unwrap();
    let got = decode(&e.socket.sent[0]);
    let expected: serde_json::Value = serde_json::from_str(
        "{\"id\":\"rs1\",\"request\":\"9\",\"service\":\"ExampleService\",\
         \"error\":\"two numbers are needed\"}",
    )
    .unwrap();
    assert_eq!(got, expected);
    assert!(got.get("response").is_none());
    assert!(got.get("event").is_none());
}

#[test]
fn send_event_populates_only_the_event_field() {
    let mut e = engine();
    // a pending request changes nothing about the event
    e.socket.seed(request_datagram("5", "add", "[1,2]"));
    e.poll(None);
    e.send_event("tok3", "ping", vec![(s("count"), s("4"))]).unwrap();
    assert_eq!(e.socket.sent.len(), 1);
    let got = decode(&e.socket.sent[0]);
    let expected: serde_json::Value = serde_json::from_str(
        "{\"id\":\"rs1\",\"request\":\"tok3\",\"service\":\"ExampleService\",\
         \"event\":{\"type\":\"ping\",\"args\":{\"count\":\"4\"}}}",
    )
    .unwrap();
    assert_eq!(got, expected);
    assert!(got.get("response").is_none());
    assert!(got.get("error").is_none());
    assert_eq!(e.next_msg_id, 1);
}

#[test]
fn successful_sends_use_consecutive_sequence_numbers() {
    let mut e = engine();
    let mut seen: Vec<u64> = Vec::new();
    for i in 0..5u64 {
        seen.push(e.next_msg_id);
        e.send_event(&format!("t{}", i), "ping", vec![]).unwrap();
    }
    // the issued numbers are exactly 0..M-1: no repeats, no gaps
    assert_eq!(seen, vec![0, 1, 2, 3, 4]);
    assert_eq!(e.next_msg_id, 5);
    assert_eq!(e.socket.sent.len(), 5);
}

#[test]
fn poll_flushes_outbound_queue_in_order() {
    let mut e = engine();
    e.tx_queue.push_back(iotscape::Response {
        id: s("rs1"),
        request: s("a"),
        service: s("ExampleService"),
        body: ResponseBody::Values(vec![Json::Int(1)]),
    });
    e.tx_queue.push_back(iotscape::Response {
        id: s("rs1"),
        request: s("b"),
        service: s("ExampleService"),
        body: ResponseBody::Error(s("late")),
    });
    e.poll(Some(1));
    assert_eq!(e.tx_queue.len(), 0);
    assert_eq!(e.socket.sent.len(), 2);
    assert_eq!(decode(&e.socket.sent[0]).get("request").unwrap(), "a");
    assert_eq!(decode(&e.socket.sent[1]).get("request").unwrap(), "b");
}

#[test]
fn request_decoding_reads_optional_client_id() {
    let with_client = Request::from_datagram(
        b"{\"id\":\"1\",\"service\":\"S\",\"device\":\"d\",\"function\":\"f\",\
          \"params\":[],\"clientId\":\"c7\"}"
            .to_vec(),
    )
    .unwrap();
    assert_eq!(with_client.client_id.as_deref(), Some("c7"));
    let null_client = Request::from_datagram(
        b"{\"id\":\"1\",\"service\":\"S\",\"device\":\"d\",\"function\":\"f\",\
          \"params\":[],\"clientId\":null}"
            .to_vec(),
    )
    .unwrap();
    assert!(null_client.client_id.is_none());
    // a missing required field is a malformed request
    assert!(Request::from_datagram(
        b"{\"id\":\"1\",\"service\":\"S\",\"device\":\"d\",\"params\":[]}".to_vec()
    )
    .is_none());
    // params must be an array
    assert!(Request::from_datagram(
        b"{\"id\":\"1\",\"service\":\"S\",\"device\":\"d\",\"function\":\"f\",\"params\":3}"
            .to_vec()
    )
    .is_none());
}

#[test]
fn request_fields_may_come_in_any_order_with_extras() {
    let req = Request::from_datagram(
        b"{\"params\":[true,null],\"function\":\"f\",\"extra\":{\"x\":1},\
          \"device\":\"d\",\"id\":\"42\",\"service\":\"S\"}"
            .to_vec(),
    )
    .unwrap();
    assert_eq!(req.id, "42");
    assert_eq!(req.function, "f");
    assert_eq!(req.params.len(), 2);
    assert!(matches!(req.params[0], Json::Bool(true)));
    assert!(matches!(req.params[1], Json::Null));
}

#[test]
fn request_with_fractional_params_is_delivered() {
    let mut e = engine();
    e.socket.seed(request_datagram("f1", "add", "[2.5,3]"));
    e.poll(None);
    assert_eq!(e.rx_queue.len(), 1);
    let req = e.rx_queue.pop_front().unwrap();
    assert!(matches!(&req.params[0], Json::Num(lit) if lit == "2.5"));
    assert!(matches!(req.params[1], Json::Int(3)));
    // the literal is echoed verbatim when the value goes back out
    e.enqueue_response_to(req, Ok(vec![Json::Num(String::from("2.5"))])).unwrap();
    let got = decode(&e.socket.sent[0]);
    let expected: serde_json::Value = serde_json::from_str(
        "{\"id\":\"rs1\",\"request\":\"f1\",\"service\":\"ExampleService\",\"response\":[2.5]}",
    )
    .unwrap();
    assert_eq!(got, expected);
}

#[test]
fn poll_applies_the_timeout_with_a_default() {
    let mut e = engine();
    e.poll(None);
    assert_eq!(e.socket.read_timeout, Some(15));
    assert_eq!(e.socket.write_timeout, Some(15));
    e.poll(Some(7));
    assert_eq!(e.socket.read_timeout, Some(7));
    assert_eq!(e.socket.write_timeout, Some(7));
}

#[test]
fn counter_saturates_at_the_maximum() {
    let mut e = engine();
    e.next_msg_id = u64::MAX;
    e.send_event("t", "ping", vec![]).unwrap();
    assert_eq!(e.next_msg_id, u64::MAX);
}

#[test]
fn null_transport_discards_everything() {
    let mut e = IoTScapeService::<NullSocket>::new(
        "ExampleService",
        example_definition(),
        server_address(),
    )
    .unwrap();
    e.announce().unwrap();
    e.poll(None);
    assert_eq!(e.rx_queue.len(), 0);
    assert_eq!(e.next_msg_id, 0);
    let n = e.send_event("t", "ping", vec![]).unwrap();
    assert!(n > 0);
    assert_eq!(e.next_msg_id, 1);
}

/// A transport whose sends always fail, counting the attempts.
struct FailingSocket {
    attempts: usize,
}

impl iotscape::SocketTrait for FailingSocket {
    fn bind(_addrs: &[Address]) -> Result<Self, String> {
        Ok(FailingSocket { attempts: 0 })
    }

    fn send_to(&mut self, _buf: &Vec<u8>, _addr: &Address) -> Result<usize, String> {
        self.attempts += 1;
        Err(s("wire unplugged"))
    }

    fn recv(&mut self) -> Option<Vec<u8>> {
        None
    }

    fn set_read_timeout(&mut self, _timeout_ms: Option<u64>) -> Result<(), String> {
        Ok(())
    }

    fn set_write_timeout(&mut self, _timeout_ms: Option<u64>) -> Result<(), String> {
        Ok(())
    }
}

#[test]
fn failed_sends_leave_the_counter_and_surface_the_error() {
    let mut e = IoTScapeService::<FailingSocket>::new(
        "ExampleService",
        example_definition(),
        server_address(),
    )
    .unwrap();
    assert_eq!(e.announce().unwrap_err(), "wire unplugged");
    let req = Request {
        id: s("1"),
        service: s("ExampleService"),
        device: s("d1"),
        function: s("add"),
        params: vec![],
        client_id: None,
    };
    assert!(e.enqueue_response_to(req, Ok(vec![])).is_err());
    assert!(e.send_event("t", "ping", vec![]).is_err());
    // no sequence number was consumed by a failed send
    assert_eq!(e.next_msg_id, 0);
}

#[test]
fn failed_send_does_not_stall_the_outbound_drain() {
    let mut e = IoTScapeService::<FailingSocket>::new(
        "ExampleService",
        example_definition(),
        server_address(),
    )
    .unwrap();
    for tag in ["a", "b", "c"] {
        e.tx_queue.push_back(iotscape::Response {
            id: s("rs1"),
            request: s(tag),
            service: s("ExampleService"),
            body: ResponseBody::Values(vec![]),
        });
    }
    e.poll(None);
    // every queued response was attempted, in spite of each failure
    assert_eq!(e.tx_queue.len(), 0);
    assert_eq!(e.socket.attempts, 3);
}

#[test]
fn definition_round_trips_through_announce_text() {
    // serialize for announce, parse the text back, and check the structure
    // field for field through an independent JSON implementation
    let def = example_definition();
    let mut e = engine();
    e.announce().unwrap();
    let text = String::from_utf8(e.socket.sent[0].clone()).unwrap();
    let reparsed = Json::from_text(&text).expect("announce text parses back");
    assert_eq!(reparsed.to_text(), text);
    let v = decode(text.as_bytes());
    let entry = v.get("ExampleService").unwrap();
    assert_eq!(entry.get("id").unwrap(), "rs1");
    let add = entry.get("methods").unwrap().get("add").unwrap();
    assert_eq!(
        add.get("params").unwrap().as_array().unwrap().len(),
        def.methods[0].1.params.len()
    );
    assert_eq!(
        add.get("returns").unwrap().get("type").unwrap().as_array().unwrap().len(),
        def.methods[0].1.returns_desc.return_type.len()
    );
    assert_eq!(
        entry.get("events").unwrap().get("ping").unwrap().get("params").unwrap(),
        &serde_json::from_str::<serde_json::Value>("[\"count\"]").unwrap()
    );
    assert_eq!(entry.get("service").unwrap().get("version").unwrap(), "1");
}
