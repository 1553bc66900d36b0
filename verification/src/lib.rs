//! Client side of the AUKS credential forwarding service.

pub mod attempt;
pub mod cli;
pub mod client;
pub mod config;
pub mod cred;
pub mod cred_blob;
pub mod exchange;
pub mod grammar;
pub mod krb5;
pub mod machine;
pub mod messages;
pub mod mode;
pub mod ordmap;
pub mod plugin;
pub mod privilege;
pub mod proto;
pub mod spank;
pub mod text;
