pub mod command;
pub mod poll;
pub mod registry;
pub mod text;
pub mod watch;
