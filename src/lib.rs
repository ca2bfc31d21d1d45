pub mod filter;
pub mod handler;
pub mod message;
pub mod rule;
