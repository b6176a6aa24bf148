//! An embeddable command shell: a host registers named commands over a shared
//! state, and each input line is split into words and routed to a built-in or
//! to the registered command that its first word names.

pub mod command;
pub mod error;
pub mod shell;
pub mod text;

pub use command::Command;
pub use command::Handler;
pub use error::settle;
pub use error::ExecError;
pub use error::ExecResult;
pub use error::Reply;
pub use error::Step;
pub use shell::Shell;
