//! NomadTerm: path resolution, session bookkeeping, client-message dispatch,
//! authentication and pairing logic of the NomadTerm remote PTY daemon.

pub mod desktop;
pub mod gui;
pub mod ids;
pub mod paths;
pub mod protocol;
pub mod qr;
pub mod registry;
pub mod runtime_env;
pub mod server;
pub mod session;
pub mod text;
pub mod usage;
