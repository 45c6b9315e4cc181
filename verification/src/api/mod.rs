pub mod client;
pub mod dto;

pub use client::Server;
