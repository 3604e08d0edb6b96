//! Misc utility functions: the common error type and directory resolution.
//!
//! The original directories come from the environment (`$XDG_CONFIG_HOME`,
//! `$XDG_DATA_HOME`, `$RSST_FOLDER`, `$HOME`).  Reading the environment is
//! I/O and stays outside the library: the callers pass the values of those
//! variables in as plain `Option<String>` arguments, and everything that is
//! decided from them is verified here.

use vstd::prelude::*;

verus! {

/// Error commonly used across this crate.
#[derive(Debug, Clone, Copy, PartialEq, Eq, Structural)]
pub enum Error {
    /// Not run on a supported OS (no `$HOME` to fall back to).
    NotSupported,
    /// Didn't find the given resource.
    NotFound,
    /// Failed to parse some input.
    ParseFailed,
    /// Failed to dump some object.
    DumpFailed,
}

/// Joining a relative path onto a base directory: a separator is added
/// unless the base is empty or already ends with one.
pub open spec fn spec_join(base: Seq<char>, rel: Seq<char>) -> Seq<char> {
    if base.len() == 0 {
        rel
    } else if base.last() == '/' {
        base + rel
    } else {
        base + seq!['/'] + rel
    }
}

/// Append `rel` to the directory `base`, inserting a `/` where needed.
pub fn join_path(base: String, rel: &str) -> (r: String)
    ensures
        r@ == spec_join(base@, rel@),
{
    let n = base.as_str().unicode_len();
    if n == 0 {
        String::from_str(rel)
    } else if base.as_str().get_char(n - 1) == '/' {
        let r = base.concat(rel);
        proof {
            assert(r@ == spec_join(base@, rel@));
        }
        r
    } else {
        let r = base.concat("/").concat(rel);
        proof {
            reveal_strlit("/");
            assert(r@ == spec_join(base@, rel@));
        }
        r
    }
}

/// The directory usually named by the variable `var`: its value when the
/// variable is set, else `$HOME/path_from_home`, else no supported place.
pub open spec fn spec_xdg_dir(
    var_value: Option<Seq<char>>,
    home: Option<Seq<char>>,
    path_from_home: Seq<char>,
) -> Result<Seq<char>, Error> {
    match var_value {
        Some(path) => Ok(path),
        None => match home {
            Some(h) => Ok(spec_join(h, path_from_home)),
            None => Err(Error::NotSupported),
        },
    }
}

/// Resolve an xdg-style directory from the values of the two environment
/// variables that govern it.
fn get_xdg_dir(var_value: Option<String>, home: Option<String>, path_from_home: &str) -> (r:
    Result<String, Error>)
    ensures
        match spec_xdg_dir(var_value.deep_view(), home.deep_view(), path_from_home@) {
            Ok(s) => r is Ok && r->Ok_0@ == s,
            Err(e) => r == Err::<String, Error>(e),
        },
{
    match var_value {
        Some(path) => Ok(path),
        None => match home {
            Some(h) => Ok(join_path(h, path_from_home)),
            None => Err(Error::NotSupported),
        },
    }
}

/// Where the config file lives: the path passed on the command line when
/// there is one, else `rsst/config.toml` under the config home.
pub open spec fn spec_config_file(
    config_dir_path: Option<Seq<char>>,
    xdg_config_home: Option<Seq<char>>,
    home: Option<Seq<char>>,
) -> Result<Seq<char>, Error> {
    match config_dir_path {
        Some(fp) => Ok(fp),
        None => match spec_xdg_dir(xdg_config_home, home, ".config/"@) {
            Ok(d) => Ok(spec_join(d, "rsst/config.toml"@)),
            Err(e) => Err(e),
        },
    }
}

/// Try finding the config file. Use the path passed if it's `Some`;
/// `xdg_config_home` and `home` carry the values of `$XDG_CONFIG_HOME` and
/// `$HOME`.
pub fn get_config_file(
    config_dir_path: Option<String>,
    xdg_config_home: Option<String>,
    home: Option<String>,
) -> (r: Result<String, Error>)
    ensures
        match spec_config_file(
            config_dir_path.deep_view(),
            xdg_config_home.deep_view(),
            home.deep_view(),
        ) {
            Ok(s) => r is Ok && r->Ok_0@ == s,
            Err(e) => r == Err::<String, Error>(e),
        },
{
    match config_dir_path {
        Some(fp) => Ok(fp),
        None => match get_xdg_dir(xdg_config_home, home, ".config/") {
            Ok(d) => Ok(join_path(d, "rsst/config.toml")),
            Err(e) => Err(e),
        },
    }
}

/// Where the metadata (checkpoint) directory lives: `rsst` under the path
/// passed when there is one, else `rsst` under the data home.
pub open spec fn spec_metadata_dir(
    meta_dir_path: Option<Seq<char>>,
    xdg_data_home: Option<Seq<char>>,
    home: Option<Seq<char>>,
) -> Result<Seq<char>, Error> {
    match meta_dir_path {
        Some(fp) => Ok(spec_join(fp, "rsst"@)),
        None => match spec_xdg_dir(xdg_data_home, home, ".local/share"@) {
            Ok(d) => Ok(spec_join(d, "rsst"@)),
            Err(e) => Err(e),
        },
    }
}

/// Try finding the metadata dir. Use the path passed if it's `Some`;
/// `xdg_data_home` and `home` carry the values of `$XDG_DATA_HOME` and
/// `$HOME`.
pub fn get_metadata_dir(
    meta_dir_path: Option<String>,
    xdg_data_home: Option<String>,
    home: Option<String>,
) -> (r: Result<String, Error>)
    ensures
        match spec_metadata_dir(
            meta_dir_path.deep_view(),
            xdg_data_home.deep_view(),
            home.deep_view(),
        ) {
            Ok(s) => r is Ok && r->Ok_0@ == s,
            Err(e) => r == Err::<String, Error>(e),
        },
{
    let base = match meta_dir_path {
        Some(fp) => Ok(fp),
        None => get_xdg_dir(xdg_data_home, home, ".local/share"),
    };
    match base {
        Ok(d) => Ok(join_path(d, "rsst")),
        Err(e) => Err(e),
    }
}

/// Where the dumped files go: the path passed when there is one, else the
/// directory named by `$RSST_FOLDER`, else `$HOME/rsst`.
pub open spec fn spec_output_dir(
    output_dir_path: Option<Seq<char>>,
    rsst_folder: Option<Seq<char>>,
    home: Option<Seq<char>>,
) -> Result<Seq<char>, Error> {
    match output_dir_path {
        Some(fp) => Ok(fp),
        None => spec_xdg_dir(rsst_folder, home, "rsst"@),
    }
}

/// Try finding the output dir. Use the path passed if it's `Some`;
/// `rsst_folder` and `home` carry the values of `$RSST_FOLDER` and `$HOME`.
pub fn get_output_dir(
    output_dir_path: Option<String>,
    rsst_folder: Option<String>,
    home: Option<String>,
) -> (r: Result<String, Error>)
    ensures
        match spec_output_dir(
            output_dir_path.deep_view(),
            rsst_folder.deep_view(),
            home.deep_view(),
        ) {
            Ok(s) => r is Ok && r->Ok_0@ == s,
            Err(e) => r == Err::<String, Error>(e),
        },
{
    match output_dir_path {
        Some(fp) => Ok(fp),
        None => get_xdg_dir(rsst_folder, home, "rsst"),
    }
}

} // verus!
