//! The y-sync protocol: how peers keep a shared document and the awareness of each
//! other in step.
//!
//! Two messages bring a document up to date:
//! - sync step 1 holds the state vector of its sender; whoever receives it answers
//!   with sync step 2;
//! - sync step 2 holds all that the other side was missing.
//!
//! Peers of equal standing both open with sync step 1. Between a client and a
//! server, the client opens, and the server answers with sync step 2, directly
//! followed by its own sync step 1: so the server only ever replies. From then on,
//! each side sends its changes as updates.
//!
//! [protocol] holds the steps, [message] the messages and their byte format,
//! [reader] takes several messages out of one payload, and [awareness] keeps the
//! states of the clients. What the bytes on the wire are is proved in [wire], and
//! that messages survive the way through the encoder and the decoder in
//! [round_trip]. The document itself, its state vectors and the encoder and decoder
//! underneath are those of `yrs`: [document], [state_vector] and [encoding] hold
//! what is assumed of them.

pub mod awareness;
pub mod awareness_update;
pub mod document;
pub mod encoding;
pub mod message;
pub mod protocol;
pub mod reader;
pub mod round_trip;
pub mod state_vector;
pub mod wire;

pub use message::{
    Message, SyncMessage, MSG_AUTH, MSG_AWARENESS, MSG_QUERY_AWARENESS, MSG_SYNC, MSG_SYNC_STEP_1,
    MSG_SYNC_STEP_2, MSG_SYNC_UPDATE, PERMISSION_DENIED, PERMISSION_GRANTED,
};
pub use protocol::{Cause, DefaultProtocol, Error, Protocol};
pub use reader::MessageReader;
