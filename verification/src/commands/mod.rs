//! The decisions of the command-line front end that do not touch the disk:
//! which staged path a hard fence bars, how an author is read, which view of
//! the timeline is asked for.
pub mod add;
pub mod agent;
pub mod awareness;
pub mod commit;
pub mod dimension;
pub mod cronos;
pub mod entangle;
pub mod history;
pub mod remote;
pub mod timeline;
