//! Backend-agnostic transport of tabular data.
//!
//! A [`data_serialization::Consumable`] carries rows as strings, the
//! [`row_codec`] turns typed rows into that form and back, and
//! [`data_clients`] holds the client interface together with the rules of
//! the relational adapter: the schema statement it issues and how it reacts
//! to what the backend answers.

pub mod text;
pub mod decimal;
pub mod row_codec;
pub mod data_serialization;
pub mod errors;
pub mod data_clients;
pub mod data_loader;
