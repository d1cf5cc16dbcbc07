//! Source generation for a Telegram Bot API client: from a schema of methods,
//! the payload types, the requester trait and its forwarding macro, with the
//! documentation patched and cross-linked on the way.


pub mod schema;
pub mod text;
pub mod classify;
pub mod prefix;
pub mod patch;
pub mod render;
pub mod gen;
pub mod requester;
