//! Values that the converter hands back to its callers.
pub mod error;
pub mod message;
