use vstd::prelude::*;
use vstd::string::StringExecFns;

use crate::config::config_handler::Merge;
use crate::config::environment_config::EnvironmentConfig;

verus! {

/// The configuration read from the configuration file.
#[derive(Debug, Clone)]
pub struct FileConfig {
    pub discord_token: String,
}

impl Merge<EnvironmentConfig> for FileConfig {
    /// The environment wins: its token, when set, replaces the file's.
    fn merge(&self, other: &EnvironmentConfig) -> (r: Self)
        ensures
            r.discord_token@ == (match other.discord_token {
                Some(t) => t@,
                None => self.discord_token@,
            }),
    {
        match &other.discord_token {
            Some(token) => FileConfig { discord_token: token.clone() },
            None => FileConfig { discord_token: self.discord_token.clone() },
        }
    }
}

impl Default for FileConfig {
    /// The placeholder configuration written when no file exists yet.
    fn default() -> (r: Self)
        ensures
            r.discord_token@ == "Please provide a token"@,
    {
        FileConfig { discord_token: String::from_str("Please provide a token") }
    }
}

} // verus!
