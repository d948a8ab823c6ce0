pub mod error;
pub mod heartbeat;
pub mod identity;
pub mod mailbox;
pub mod message;
pub mod registry;
pub mod status;
