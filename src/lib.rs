//! A small pub/sub broker core: the binary wire codec, the client and event
//! registries, and the request handlers that decide every reply and fan-out.
use vstd::prelude::*;

pub mod call;
pub mod clients;
pub mod error;
pub mod events;
pub mod handlers;
pub mod head;
pub mod request;
pub mod response;
pub mod session;
pub mod text;
pub mod wire;

pub use call::Call;
pub use clients::ClientRegistry;
pub use error::Error;
pub use events::EventRegistry;
pub use head::{Head, Version};
pub use request::{Action, ActionType, Request};
pub use response::{Response, Status, StatusType};

verus! {

} // verus!
