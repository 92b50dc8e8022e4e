//! Launch planning, wire framing and request correlation for driving a
//! browser over its remote-debugging channel.

pub mod text;
pub mod message;
pub mod ws;
pub mod connection;
pub mod launcher;
pub mod browser;
pub mod handle;
