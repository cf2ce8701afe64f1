//! A local-first mirror for posts on a remote documentation service:
//! each post lives in a delimited text file and is reconciled with the
//! remote store through create, update and fetch operations.
pub mod bytes;
pub mod cli;
pub mod codec;
pub mod esa_client;
pub mod name;
pub mod post;
pub mod run;
pub mod user_config;
