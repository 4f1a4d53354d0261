//! The converter behind the desktop application, and the state the
//! application keeps between requests.
pub mod app;
pub mod converter;
