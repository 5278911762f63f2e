//! The daemon's configuration.
use vstd::prelude::*;
use vstd::string::StringExecFns;

verus! {

/// Daemon configuration.
#[derive(Clone, Debug)]
pub struct Config {
    /// Path of the configuration file, watched for changes.
    pub config_path: String,
}

/// The configuration path used when the file names none.
pub fn default_config_path() -> (r: String)
    ensures
        r@ == seq!['c', 'o', 'n', 'f', 'i', 'g', '.', 't', 'o', 'm', 'l'],
{
    let r = String::from_str("config.toml");
    proof {
        reveal_strlit("config.toml");
        assert(r@ =~= seq!['c', 'o', 'n', 'f', 'i', 'g', '.', 't', 'o', 'm', 'l']);
    }
    r
}

} // verus!
