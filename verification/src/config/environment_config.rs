use vstd::prelude::*;

verus! {

/// The configuration read from environment variables: every field optional,
/// present only when the corresponding variable is set.
#[derive(Debug, Clone)]
pub struct EnvironmentConfig {
    pub discord_token: Option<String>,
}

impl Default for EnvironmentConfig {
    /// By default no variable is set.
    fn default() -> (r: Self)
        ensures
            r.discord_token is None,
    {
        Self { discord_token: None }
    }
}

} // verus!
