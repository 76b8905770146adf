pub mod service;
pub mod service_manager;
pub mod types;
