//! The command-line surface: which command a run of the program performs.
//! Argument parsing itself happens outside the library; these are the parsed
//! shapes.

use vstd::prelude::*;
use crate::command_domain::DomainArgs;
use crate::command_server::ServerAdd;

verus! {

/// A run of the program: initialize the cache, work with domains, or manage
/// servers.
pub enum Cpcm {
    Init(InitSubcommand),
    Domain(DomainArgs),
    Server(ServerSubcommand),
}

/// The server-management subcommands.
pub enum ServerSubcommand {
    Add(ServerAdd),
}

/// The init command's arguments.
pub struct InitSubcommand {
    pub force: bool,
}

} // verus!
