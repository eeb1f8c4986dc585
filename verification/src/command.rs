//! The commands: what each of them decides, given what the outside answers.

pub mod down;
pub mod exec;
pub mod images;
pub mod logs;
pub mod read_configuration;
pub mod shell;
pub mod up;
