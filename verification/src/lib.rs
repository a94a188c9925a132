//! Verified core of the SAS Viya desktop shell: configuration, credentials,
//! injected-script rendering and the decisions of the window shell.

pub mod text;
pub mod urlparts;
pub mod config;
pub mod credentials;
pub mod script;
pub mod shell;
pub mod linux;
pub mod permissions;
