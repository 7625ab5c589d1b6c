//! A memo store with create, read, update, delete, search and statistics,
//! and the rules of a small desktop application's other panels.
pub mod database_service;
pub mod demo_service;
pub mod file_service;
pub mod system_service;
pub mod text;
