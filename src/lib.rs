//! The core of an agent protocol gateway, verified: the synthesis of MCP
//! tools from OpenAPI documents, the requests those tools send, the relay's
//! naming, authorisation and fan-out merging, the connection pool, the
//! configuration store and its xDS updates, the listener manager's
//! decisions, and the A2A bridge's handling of agent cards and answers.
pub mod a2a;
pub mod admin;
pub mod call;
pub mod checks;
pub mod json;
pub mod jsonrpc;
pub mod listener;
pub mod openapi;
pub mod pool;
pub mod rbac;
pub mod relay;
pub mod schema;
pub mod store;
pub mod text;
