//! A byte-stream relay in verified pieces.
//!
//! A `Pipeline` is an ordered chain of steps. Client traffic passes the
//! chain forward, upstream traffic passes it backward, and each step
//! undoes in one direction what it does in the other. Around the chain
//! stand the decisions of the connection entries: what a readable or
//! writable connection leads to, how a session is opened, served and
//! expired over stateless requests, and how a framed connection shakes
//! hands. Sockets, threads and clocks are the caller's.

pub mod address;
pub mod base64_step;
pub mod entry;
pub mod error;
pub mod http_laws;
pub mod http_step;
pub mod http_tools;
pub mod pipeline_module;
pub mod random_salt_step;
pub mod registry;
pub mod session;
pub mod stage;
pub mod stdio_step;
pub mod text;
pub mod websocket;

pub use base64_step::Base64;
pub use entry::STDioEntry;
pub use error::{IOError, IoFailure, IoKind};
pub use http_step::HttpStep;
pub use http_tools::{read_request, read_response, write_request, write_response};
pub use pipeline_module::{BoxedClone, BufferView, Pipeline, PipelineDirection, PipelineStep, Read};
pub use random_salt_step::RSult;
pub use stage::Stage;
pub use stdio_step::STDioStep;
