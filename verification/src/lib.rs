//! Core of a disposable mail-capture server: the identifier generator, the
//! mail record, the SMTP session state machine, the record store and the
//! HTTP request dispatcher, each with a machine-checked contract.

pub mod address;
pub mod cli;
pub mod handlers;
pub mod http;
pub mod json;
pub mod response;
pub mod smtp;
pub mod snowflake;
pub mod store;
pub mod text;
