//! Core of a client/server runtime for a JSON-RPC 2.0 based tool protocol.
//!
//! The crate verifies the message-dispatch core: the line-delimited JSON
//! wire codec, the pending-request correlation table, the client transport
//! envelope logic, the server request-loop decisions, the typed context,
//! and the tool registry with its routing rules.

pub mod context;
pub mod decode;
pub mod json;
pub mod pending;
pub mod parse;
pub mod protocol;
pub mod roundtrip;
pub mod router;
pub mod server;
pub mod transport;

pub use context::{Context, FromContext, Inject};
pub use decode::DecodeError;
pub use json::JsonValue;
pub use pending::PendingRequests;
pub use protocol::{JsonRpcRequest, JsonRpcNotification, JsonRpcResponse, SendableMessage};
pub use router::{Content, MCPServer, MCPServerBuilder, RouteAction, Tool, ToolError};
pub use server::{Server, ServerAction};
pub use transport::{Error, StdioTransport, TransportMessage};
