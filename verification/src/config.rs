pub mod config_handler;
pub mod environment_config;
pub mod file_config;

pub use config_handler::{ConfigInitError, ConfigPathError, Merge};
pub use environment_config::EnvironmentConfig;
pub use file_config::FileConfig;
