//! The configuration shapes, and the output-format rule.
//!
//! Loading the configuration file and decoding its format are I/O glue that
//! stay outside the library; what arrives here is the already-decoded
//! configuration as plain values.

use vstd::prelude::*;

verus! {

/// A Setting section that carries optional settings.
pub struct Setting {
    /// format to dump into. `"html"` or default.
    pub output_format: Option<String>,
    /// the directory that saves all the dumped files.
    pub output_dir: Option<String>,
    /// the directory that saves metadata about the feeds.
    pub metadata_dir: Option<String>,
}

/// A top level Configuration.
pub struct Config {
    /// setting section (fields optional).
    pub setting: Setting,
    /// source section: `alias -> source url` pairs, in the run's iteration
    /// order.
    pub source: Vec<(String, String)>,
}

/// The output format a run will use: the configured name when it is a
/// supported one, the default `html` when none is configured, and nothing
/// when the configured name is unsupported — which callers treat as fatal
/// before any network activity.
pub fn resolve_output_format(output_format: Option<String>) -> (r: Option<String>)
    ensures
        match output_format {
            None => r is Some && r->0@ == "html"@,
            Some(f) => {
                if f@ == "html"@ {
                    r == Some(f)
                } else {
                    r is None
                }
            },
        },
{
    let html = String::from_str("html");
    match output_format {
        None => Some(html),
        Some(f) => {
            if f == html {
                Some(f)
            } else {
                None
            }
        },
    }
}

} // verus!
