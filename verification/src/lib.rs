//! Reading FIX protocol messages against an XML schema of the FIX dictionary.
//!
//! The library splits a raw FIX message into `tag=value` pairs, translates tags
//! into field names and enumerated values into their descriptions, finds the
//! message type that the message declares, and checks which fields the schema
//! requires.
pub mod cli;
pub mod converter;
pub mod display;
pub mod models;
pub mod schema;
pub mod services;
pub mod text;

pub use cli::{fixread_line, parse_tag, search, Search};
pub use converter::FixMsg;
pub use models::error::AppError;
pub use models::message::{FieldConverted, FixMessage};
pub use schema::{
    Component, Components, Field, FieldHeader, FieldValues, Fields, FixSchema, Header, Message,
    Messages, Trailer,
};
pub use services::app::AppState;
pub use services::converter::FixConverter;
