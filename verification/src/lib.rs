pub mod broker;
pub mod client;
pub mod laws;
pub mod queue;
pub mod strmap;
pub mod text;
