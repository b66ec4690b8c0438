pub mod api;
pub mod command;
pub mod document;
pub mod extract;
pub mod gateway;
pub mod json;
pub mod message;
pub mod prompt;
pub mod store;
pub mod text;
pub mod turn;
