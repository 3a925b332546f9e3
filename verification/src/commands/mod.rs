//! Command-line settings and the engine setup they lead to.
pub mod init;
pub mod run;

use crate::util::{opt_view, str_views};
use vstd::prelude::*;

verus! {

/// The subcommands.
#[derive(Debug, Clone, Copy, PartialEq, Eq, Structural)]
pub enum Commands {
    /// Run the TCP server only.
    Tcp,
    /// Run the UDP server only.
    Udp,
    /// Write a default configuration file.
    Init,
}

/// The command-line settings.
pub struct Cli {
    /// The subcommand, if any.
    pub command: Option<Commands>,
    /// Address to bind to, where given (it overrides the file's).
    pub bind: Option<String>,
    /// Port to listen on, where given (it overrides the file's).
    pub port: Option<u16>,
    /// Path of the configuration file.
    pub config: String,
    /// Verbose logging.
    pub debug: bool,
    /// Inline routing rules `name=addr`.
    pub forward: Vec<String>,
    /// Peek buffer size override.
    pub peek_buffer: Option<usize>,
    /// Peek timeout override.
    pub peek_timeout: Option<u64>,
    /// Connection cap override.
    pub max_connections: Option<usize>,
    /// Disables hot reload.
    pub no_hot_reload: bool,
}

/// The content of a [`Cli`].
pub struct CliView {
    /// The subcommand.
    pub command: Option<Commands>,
    /// Bind address, where given.
    pub bind: Option<Seq<char>>,
    /// Port, where given.
    pub port: Option<u16>,
    /// Configuration path.
    pub config: Seq<char>,
    /// Verbose logging.
    pub debug: bool,
    /// Inline routing rules.
    pub forward: Seq<Seq<char>>,
    /// Peek buffer size override.
    pub peek_buffer: Option<usize>,
    /// Peek timeout override.
    pub peek_timeout: Option<u64>,
    /// Connection cap override.
    pub max_connections: Option<usize>,
    /// Hot reload disabled.
    pub no_hot_reload: bool,
}

impl View for Cli {
    type V = CliView;

    open spec fn view(&self) -> CliView {
        CliView {
            command: self.command,
            bind: opt_view(self.bind),
            port: self.port,
            config: self.config@,
            debug: self.debug,
            forward: str_views(self.forward@),
            peek_buffer: self.peek_buffer,
            peek_timeout: self.peek_timeout,
            max_connections: self.max_connections,
            no_hot_reload: self.no_hot_reload,
        }
    }
}

} // verus!
