//! Verified core of an in-process end-to-end test server for GTK4 apps.

pub mod elements;
pub mod http;
pub mod input;
pub mod json;
pub mod main_thread;
pub mod messages;
pub mod notify;
pub mod port;
pub mod proto;
pub mod registry;
pub mod reply;
pub mod snapshot;
pub mod state;
pub mod text;
pub mod tree;
pub mod wait;
pub mod ws;

pub use crate::proto::{Capability, Info};
pub use crate::registry::{InstanceFile, REGISTRY_SUBDIR};
