//! What becomes of a file or a directory that cannot be read.

use vstd::prelude::*;

use crate::error::{CliError, CliErrorModel, ConfigError, ConfigErrorModel};

verus! {

/// The failure of reading the lockfile. A lockfile that is there but cannot be read
/// is not missing: to change its path would be the wrong advice.
pub fn lockfile_error(path: &str, not_found: bool, source: String) -> (r: ConfigError)
    ensures
        r.deep_view() == if not_found {
            ConfigErrorModel::LockfileNotFound { path: path@ }
        } else {
            ConfigErrorModel::LockfileUnreadable { path: path@, source: source@ }
        },
{
    if not_found {
        ConfigError::LockfileNotFound { path: path.to_owned() }
    } else {
        ConfigError::LockfileUnreadable { path: path.to_owned(), source }
    }
}

/// The failure of reading the configuration.
pub fn config_error(path: &str, source: String) -> (r: CliError)
    ensures
        r.deep_view() == (CliErrorModel::ConfigUnreadable { path: path@, source: source@ }),
{
    CliError::ConfigUnreadable { path: path.to_owned(), source }
}

/// The failure of changing to a directory.
pub fn directory_error(path: &str, source: String) -> (r: CliError)
    ensures
        r.deep_view() == (CliErrorModel::BadDirectory { path: path@, source: source@ }),
{
    CliError::BadDirectory { path: path.to_owned(), source }
}

} // verus!
