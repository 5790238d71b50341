//! Verified core of a WebDAV backup tool: configuration resolution, WebDAV
//! authentication negotiation, remote retention, and backup planning.

pub mod auth;
pub mod config;
pub mod digest;
pub mod exclude;
pub mod plan;
pub mod propfind;
pub mod retention;
pub mod stamp;
pub mod text;
pub mod webdav;
