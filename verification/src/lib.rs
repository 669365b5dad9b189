//! Protocol core of a connection-less remote file-access service.
//!
//! A server answers datagrams that ask to read, insert into, overwrite or
//! delete from a byte range of a file, or to be told of changes to a file.
//! Clients retransmit, so the server can be told to answer a repeated request
//! from memory instead of carrying it out again. This crate is that server
//! without its socket, its files and its clock: it reads requests, decides,
//! and says what is to be stored and sent.

pub mod address;
pub mod cache;
pub mod dispatch;
pub mod file_ops;
mod keyed;
pub mod monitor;
pub mod request;
pub mod wire;
