//! OpenCode Config Manager: the model catalog, selection and opencode.json logic.
pub mod text;
pub mod jsonc;
pub mod collapse;
pub mod candidates;
pub mod openrouter;
pub mod json;
pub mod json_text;
pub mod domain;
pub mod sort;
pub mod catalog;
pub mod modelsdev;
pub mod db;
pub mod resolve;
pub mod index;
pub mod error;
pub mod selection;
pub mod apply;
pub mod import;
pub mod backup;
pub mod params;
pub mod settings;
pub mod server;
