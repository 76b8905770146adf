use vstd::prelude::*;

verus! {

/// Merging a higher-priority partial configuration into this one: every
/// field the other configuration carries wins, the rest keep their value.
pub trait Merge<T>: Sized {
    fn merge(&self, other: &T) -> Self;
}

/// The platform offers no base directory for configuration files.
#[derive(Debug, Clone, Copy, PartialEq, Eq, Structural)]
pub enum ConfigPathError {
    UnknownBasePath,
}

/// Preparing the configuration directory failed: no base path, or an
/// input/output error, carried as its text.
#[derive(Debug, PartialEq, Eq)]
pub enum ConfigInitError {
    Path(ConfigPathError),
    IO(String),
}

} // verus!
