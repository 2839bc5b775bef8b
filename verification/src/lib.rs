//! Client-side engine for a directory-registration and request/response/event
//! protocol carried over datagrams.
//!
//! A service instance describes its callable methods and emitted events in a
//! [`ServiceDefinition`](protocol::ServiceDefinition), publishes that
//! description to a directory server, and then exchanges correlated requests,
//! responses, and asynchronous events with that server, one JSON document per
//! datagram.

pub mod engine;
pub mod json;
pub mod parse;
pub mod protocol;
pub mod roundtrip;
pub mod text;
pub mod transport;

pub use engine::IoTScapeService;
pub use json::Json;
pub use protocol::EventDescription;
pub use protocol::EventResponse;
pub use protocol::IoTScapeServiceDescription;
pub use protocol::MethodDescription;
pub use protocol::MethodParam;
pub use protocol::MethodReturns;
pub use protocol::Request;
pub use protocol::Response;
pub use protocol::ResponseBody;
pub use protocol::ServiceDefinition;
pub use transport::Address;
pub use transport::IpAddress;
pub use transport::MockSocket;
pub use transport::NullSocket;
pub use transport::SocketTrait;
