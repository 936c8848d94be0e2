//! A DNS zone over Docker containers, verified.

pub mod addr;
pub mod config;
pub mod container;
pub mod dns;
pub mod docker;
pub mod handler;
pub mod index;
pub mod labels;
pub mod laws;
pub mod message;
pub mod name;
pub mod order;
pub mod replies;
pub mod resolve;
pub mod text;
