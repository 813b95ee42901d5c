//! Configuration-file values, as plain data, and the joining of
//! configuration-relative paths. Discovery, parsing and merging of the file
//! itself happen outside the library and hand these records in.

use vstd::prelude::*;

use crate::text::{ends_with, str_ends_with};

verus! {

/// Raw bundling options as a configuration file supplies them.
#[derive(Debug, Clone)]
pub struct BundleConfig {
    pub lua: Option<String>,
    pub paths: Option<Vec<String>>,
    pub preludes: Option<Vec<String>>,
    pub replace: Option<Vec<String>>,
    pub vendors: Option<Vec<String>>,
    pub output: Option<String>,
    pub entry: Option<String>,
    pub bind_require: Option<String>,
    pub diagnostics: Option<bool>,
    pub redact_base: Option<String>,
}

impl Default for BundleConfig {
    fn default() -> (r: Self)
        ensures
            r.lua is None,
            r.paths is None,
            r.preludes is None,
            r.replace is None,
            r.vendors is None,
            r.output is None,
            r.entry is None,
            r.bind_require is None,
            r.diagnostics is None,
            r.redact_base is None,
    {
        BundleConfig {
            lua: None,
            paths: None,
            preludes: None,
            replace: None,
            vendors: None,
            output: None,
            entry: None,
            bind_require: None,
            diagnostics: None,
            redact_base: None,
        }
    }
}

/// A loaded configuration and the directory its file sat in, when one was
/// found.
pub struct LoadedConfig {
    pub cfg: BundleConfig,
    pub dir: Option<String>,
}

pub open spec fn is_absolute(p: Seq<char>) -> bool {
    p.len() > 0 && p[0] == '/'
}

/// A configuration-relative value joined onto the configuration directory:
/// absolute values and values without a base stay as they are.
pub open spec fn spec_join_path(base: Option<Seq<char>>, value: Seq<char>) -> Seq<char> {
    if is_absolute(value) {
        value
    } else {
        match base {
            None => value,
            Some(b) => {
                if b.len() == 0 {
                    value
                } else if ends_with(b, "/"@) {
                    b + value
                } else {
                    b + "/"@ + value
                }
            },
        }
    }
}

/// Joins a path-like configuration value onto the configuration directory.
pub fn resolve_path_like(base: Option<&str>, value: &str) -> (r: String)
    ensures
        r@ == spec_join_path(
            match base {
                Some(b) => Some(b@),
                None => None,
            },
            value@,
        ),
{
    let is_abs = value.unicode_len() > 0 && value.get_char(0) == '/';
    if is_abs {
        return value.to_owned();
    }
    match base {
        None => value.to_owned(),
        Some(b) => {
            if b.unicode_len() == 0 {
                value.to_owned()
            } else {
                let mut out = b.to_owned();
                if !str_ends_with(b, "/") {
                    out.append("/");
                }
                out.append(value);
                out
            }
        },
    }
}

/// The same joining for values used as paths; kept separate because callers
/// treat the two results differently.
pub fn resolve_pathbuf(base: Option<&str>, value: &str) -> (r: String)
    ensures
        r@ == spec_join_path(
            match base {
                Some(b) => Some(b@),
                None => None,
            },
            value@,
        ),
{
    resolve_path_like(base, value)
}

} // verus!
