//! Names and values that the registry starts from.

use vstd::prelude::*;

verus! {

/// The name of the file, inside an environment's directory, that records
/// what the environment was last built with.
pub const ENV_SPEC_FILENAME: &'static str = ".viva_env";

/// The id of the collection and of the environment that are used where
/// none is named.
pub const DEFAULT_ID: &'static str = "default";

/// The channels that a new configuration starts with.
pub fn default_channels() -> (channels: Vec<String>)
    ensures
        channels.deep_view() == seq!["conda-forge"@],
{
    let mut channels: Vec<String> = Vec::new();
    channels.push("conda-forge".to_owned());
    assert(channels.deep_view() =~= seq!["conda-forge"@]);
    channels
}

} // verus!
