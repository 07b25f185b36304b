//! The connection-multiplexing core of a function-invocation server: a
//! listener that turns each accepted transport connection into an independent
//! session, a session state machine that interleaves request decoding,
//! concurrent handler dispatch and response encoding in a fixed phase order,
//! and the correlation of out-of-order completions back to their requests —
//! with one malformed request never costing the connection, and a framing
//! failure always costing exactly it.

pub mod context;
pub mod laws;
pub mod lex;
pub mod proto;
pub mod server;
pub mod session;

pub use context::Context;
pub use context::ScopeStack;
pub use lex::Attachment;
pub use lex::LexBot;
pub use lex::LexCurrentIntent;
pub use lex::LexDialogAction;
pub use lex::LexEvent;
pub use lex::LexResponseCard;
pub use lex::SlotDetail;
pub use server::Server;
