pub mod text;
pub mod models;
pub mod vars;
pub mod json;
pub mod url;
pub mod import;
pub mod export;
pub mod http;
pub mod postman;
pub mod storage;
pub mod commands;
pub mod ui;
pub mod sidebar;
pub mod worker;
pub mod editor;
