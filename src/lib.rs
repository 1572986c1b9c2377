use vstd::prelude::*;

pub mod batch;
pub mod client;
pub mod clock;
pub mod config;
pub mod credit;
pub mod cursor;
pub mod log;
pub mod notify;
pub mod order;
pub mod publish;
pub mod recovery;
pub mod registry;
pub mod session;
pub mod text;

pub use clock::{generate_message_id, now_millis, MessageIdGenerator};

verus! {

} // verus!
