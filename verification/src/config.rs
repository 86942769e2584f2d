//! Where the user's configuration lives.
use vstd::prelude::*;

use crate::path::{join, joined};

verus! {

/// The places looked at under the configuration directory `config_dir`: the
/// directory `pelp` and the file `pelp.toml`, both directly in `config_dir`.
pub fn config_locations(config_dir: &str) -> (r: (String, String))
    ensures
        r.0@ == joined(config_dir@, "pelp"@),
        r.1@ == joined(config_dir@, "pelp.toml"@),
{
    (join(config_dir, "pelp"), join(config_dir, "pelp.toml"))
}

/// The user's configuration file: `pelp.toml` in the configuration directory,
/// found when that directory is known and is a directory, holds a `pelp`
/// directory, and `pelp.toml` is a file.
pub fn find_user_config(
    config_dir: &Option<String>,
    config_dir_is_dir: bool,
    pelp_dir_is_dir: bool,
    config_file_is_file: bool,
) -> (r: Option<String>)
    ensures
        r is Some <==> (config_dir is Some && config_dir_is_dir && pelp_dir_is_dir
            && config_file_is_file),
        r matches Some(f) ==> config_dir matches Some(d) && f@ == joined(d@, "pelp.toml"@),
{
    match config_dir {
        Some(d) => {
            if config_dir_is_dir && pelp_dir_is_dir && config_file_is_file {
                Some(join(d.as_str(), "pelp.toml"))
            } else {
                None
            }
        },
        None => None,
    }
}

} // verus!
