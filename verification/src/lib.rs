//! evo: the logic behind a PDF markup editor and its web server.
pub mod digest;
pub mod doc;
pub mod json;
pub mod metrics;
pub mod render;
pub mod script;
pub mod serve;
pub mod state;
pub mod text;
pub mod tools;
