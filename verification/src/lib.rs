//! A verified core for a chat-completions client.
//!
//! The client forwards one prompt to an OpenAI-compatible endpoint and
//! returns the first reply. Everything the exchange decides or computes is
//! here, with contracts: trimming and validating the prompt ([`input`]),
//! building the endpoint URL and serializing the request body ([`request`]),
//! the wire grammar itself ([`json`]), interpreting the HTTP status and
//! parsing the response ([`response`]), and the failure kinds with their
//! diagnostics ([`error`]). The surrounding binary only reads flags, the
//! key's environment variable and standard input, performs the one HTTP
//! POST, and prints what the library decided.

pub mod error;
pub mod input;
pub mod json;
pub mod request;
pub mod response;
pub mod strutil;
pub mod types;
