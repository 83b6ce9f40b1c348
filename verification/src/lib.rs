pub mod text;
pub mod json;
pub mod config;
pub mod llm;
pub mod search;
pub mod agent;
pub mod director;
pub mod stt;
pub mod settings;
pub mod ink;
pub mod hotkey;
pub mod hypr;
pub mod session;
pub mod modes;
pub mod frame;
