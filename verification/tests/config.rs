use lum::config::{EnvironmentConfig, FileConfig, Merge};

#[test]
fn environment_token_wins() {
    let file = FileConfig { discord_token: String::from("from-file") };
    let env = EnvironmentConfig { discord_token: Some(String::from("from-env")) };
    let merged = file.merge(&env);
    assert_eq!(merged.discord_token, "from-env");
}

#[test]
fn file_token_stays_without_environment_override() {
    let file = FileConfig { discord_token: String::from("from-file") };
    let env = EnvironmentConfig { discord_token: None };
    let merged = file.merge(&env);
    assert_eq!(merged.discord_token, "from-file");
}

#[test]
fn default_file_config_carries_the_placeholder() {
    let file = FileConfig::default();
    assert_eq!(file.discord_token, "Please provide a token");
}

#[test]
fn default_environment_config_is_empty() {
    let env = EnvironmentConfig::default();
    assert!(env.discord_token.is_none());
}
