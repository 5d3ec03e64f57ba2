//! The rules of a private game server: rooms, entities, access lists, sockets and a caching proxy.
pub mod acl;
pub mod blobcast;
pub mod decimal;
pub mod ecast;
pub mod entity;
pub mod http_cache;
pub mod json;
pub mod laws;
pub mod maps;
pub mod message;
pub mod outside;
pub mod patch;
pub mod pattern;
pub mod room;
pub mod site;
pub mod state;
pub mod stream;
pub mod text;
pub mod token;
